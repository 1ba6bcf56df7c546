//! The plain values that the other modules exchange.
use vstd::prelude::*;

verus! {

/// An Ed25519 public key, by which a node is known.
pub type PublicKey = [u8; 32];

/// The address of a node: its public key.
#[derive(Clone, Copy, Debug, PartialEq, Eq)]
pub struct Addr(pub PublicKey);

/// Why an operation on the connection failed. `E` is the error type of the inner
/// connection.
#[derive(Debug, PartialEq, Eq)]
pub enum Error<E> {
    /// The connection is closed, or was closed while the operation waited.
    Closed,
    /// The message is longer than the MTU.
    OversizedMessage,
    /// The inner connection failed.
    Inner(E),
}

/// Where `read_from` turns when no decrypted message is buffered.
#[derive(Clone, Copy, Debug, PartialEq, Eq, Structural)]
pub enum ReadPath {
    /// The calling task reads from the inner connection and decrypts inline. It
    /// takes turns with the background reader.
    Inline,
    /// The calling task waits for the background reader to buffer a message. The
    /// background reader is then the only one to read from the inner connection.
    BufferOnly,
}

} // verus!

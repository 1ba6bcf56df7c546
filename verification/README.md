# encrypted_conn

The verified core of an encrypted packet connection: a connection that wraps a
network-level one with end-to-end encrypted sessions.

The library decides and never waits. Each operation is a step function from a state
and an event to the next state and the next action; the caller performs the action and
reports what came of it.

| Module | What it holds |
| --- | --- |
| `src/buffer.rs` | the bounded queue of decrypted messages, and when to wake its reader |
| `src/conn.rs` | the connection's state and its MTU |
| `src/read.rs` | one `read_from` call |
| `src/write.rs` | one `write_to` call |
| `src/close.rs` | one `close` call |
| `src/handler.rs` | the background reader |
| `src/cleanup.rs` | the session cleanup task |
| `src/sessions.rs` | the listing of the sessions, ordered by key |
| `src/actions.rs` | what the session layer asks for |
| `src/laws.rs` | what holds of the operations together |

A connection reads along one of two paths. With `ReadPath::BufferOnly` the background
reader alone reads from the network, and `read_from` waits for what it buffers: messages
are read in the order in which they were decrypted. With `ReadPath::Inline` a
`read_from` that finds the buffer empty reads and decrypts in the calling task, which
saves a task switch, and takes turns with the background reader.

`app/` runs the library on tokio. The network layer and the session layer are traits
there.

//! The listing of the active sessions, ordered by key.
use crate::conn::EncryptedPacketConn;
use crate::types::PublicKey;
use vstd::prelude::*;

verus! {

/// What the session layer tells of one session.
#[derive(Clone, Copy, Debug, PartialEq, Eq)]
pub struct SessionSnapshot {
    /// The key of the peer.
    pub key: PublicKey,
    /// The bytes sent to the peer.
    pub tx: u64,
    /// The bytes received from the peer.
    pub rx: u64,
    /// When the session began, in nanoseconds on the same clock as `now`.
    pub since_nanos: u64,
}

/// One session of the listing.
#[derive(Clone, Copy, Debug, PartialEq, Eq)]
pub struct SessionEntry {
    pub key: PublicKey,
    pub uptime_nanos: u64,
    pub bytes_sent: u64,
    pub bytes_recvd: u64,
}

/// The nanoseconds from `since` to `now`, none if `since` is the later one.
pub open spec fn elapsed(now: u64, since: u64) -> u64 {
    if now >= since {
        (now - since) as u64
    } else {
        0
    }
}

/// The entry of a session at the time `now`.
pub open spec fn entry_at(now: u64, session: SessionSnapshot) -> SessionEntry {
    SessionEntry {
        key: session.key,
        uptime_nanos: elapsed(now, session.since_nanos),
        bytes_sent: session.tx,
        bytes_recvd: session.rx,
    }
}

/// The entries of all sessions of a snapshot, in the order of the snapshot.
pub open spec fn entries_at(now: u64, snapshot: Seq<SessionSnapshot>) -> Seq<SessionEntry> {
    snapshot.map_values(|session: SessionSnapshot| entry_at(now, session))
}

/// `a` comes before `b` at the position `i`, the first at which they differ.
pub open spec fn differs_first_at(a: PublicKey, b: PublicKey, i: int) -> bool {
    &&& 0 <= i < 32
    &&& a@[i] < b@[i]
    &&& forall|j: int| 0 <= j < i ==> a@[j] == b@[j]
}

/// The lexicographic order of keys: `a` comes before `b`.
pub open spec fn key_before(a: PublicKey, b: PublicKey) -> bool {
    exists|i: int| differs_first_at(a, b, i)
}

/// No entry comes before an earlier one.
pub open spec fn ordered(entries: Seq<SessionEntry>) -> bool {
    forall|i: int, j: int|
        0 <= i < j < entries.len() ==> !key_before(entries[j].key, entries[i].key)
}

/// The entries with the given key, in their order.
pub open spec fn with_key(entries: Seq<SessionEntry>, key: PublicKey) -> Seq<SessionEntry> {
    entries.filter(|e: SessionEntry| e.key == key)
}

/// `listing` holds the same entries as `entries`, those with one key in the same
/// order.
pub open spec fn rearranged(entries: Seq<SessionEntry>, listing: Seq<SessionEntry>) -> bool {
    forall|key: PublicKey| #[trigger] with_key(listing, key) == with_key(entries, key)
}

/// Of two keys, one comes before the other or they are equal.
proof fn lemma_key_total(a: PublicKey, b: PublicKey)
    ensures
        key_before(a, b) || key_before(b, a) || a == b,
{
    if a != b {
        if a@ =~= b@ {
            assert(a =~= b);
        }
        lemma_first_difference(a, b, 32);
    }
}

/// Keys that differ within the first `n` bytes have a first difference there.
proof fn lemma_first_difference(a: PublicKey, b: PublicKey, n: int)
    requires
        0 <= n <= 32,
        exists|i: int| 0 <= i < n && a@[i] != b@[i],
    ensures
        key_before(a, b) || key_before(b, a),
    decreases n,
{
    if exists|i: int| 0 <= i < n - 1 && a@[i] != b@[i] {
        lemma_first_difference(a, b, n - 1);
    } else {
        assert(a@[n - 1] != b@[n - 1]);
        assert(differs_first_at(a, b, n - 1) || differs_first_at(b, a, n - 1));
    }
}

/// Two keys do not come before each other, and none before itself.
proof fn lemma_key_asymmetric(a: PublicKey, b: PublicKey)
    requires
        key_before(a, b),
    ensures
        !key_before(b, a),
        a != b,
{
    let i = choose|i: int| differs_first_at(a, b, i);
    assert forall|j: int| !differs_first_at(b, a, j) by {
        if differs_first_at(b, a, j) {
            if j < i {
                assert(a@[j] == b@[j]);
            } else if i < j {
                assert(b@[i] == a@[i]);
            }
        }
    }
}

/// The order of keys is transitive.
proof fn lemma_key_transitive(a: PublicKey, b: PublicKey, c: PublicKey)
    requires
        key_before(a, b),
        key_before(b, c),
    ensures
        key_before(a, c),
{
    let i = choose|i: int| differs_first_at(a, b, i);
    let j = choose|j: int| differs_first_at(b, c, j);
    if i <= j {
        assert(differs_first_at(a, c, i));
    } else {
        assert(differs_first_at(a, c, j));
    }
}

/// Whether the key `a` comes before the key `b`.
fn comes_before(a: &PublicKey, b: &PublicKey) -> (before: bool)
    ensures
        before == key_before(*a, *b),
{
    let mut i: usize = 0;
    while i < 32
        invariant
            i <= 32,
            forall|j: int| 0 <= j < i ==> a@[j] == b@[j],
        decreases 32 - i,
    {
        if a[i] < b[i] {
            assert(differs_first_at(*a, *b, i as int));
            return true;
        }
        if b[i] < a[i] {
            assert(differs_first_at(*b, *a, i as int));
            proof {
                lemma_key_asymmetric(*b, *a);
            }
            return false;
        }
        i = i + 1;
    }
    false
}

/// If `b` does not come before `a`, nor `c` before `b`, then `c` does not come before `a`.
proof fn lemma_not_before_transitive(a: PublicKey, b: PublicKey, c: PublicKey)
    requires
        !key_before(b, a),
        !key_before(c, b),
    ensures
        !key_before(c, a),
{
    lemma_key_total(a, b);
    lemma_key_total(b, c);
    if key_before(a, b) && key_before(b, c) {
        lemma_key_transitive(a, b, c);
        lemma_key_asymmetric(a, c);
    }
}

/// Pushing an entry adds it to the entries of its own key alone.
proof fn lemma_with_key_push(entries: Seq<SessionEntry>, entry: SessionEntry, key: PublicKey)
    ensures
        with_key(entries.push(entry), key) == if entry.key == key {
            with_key(entries, key).push(entry)
        } else {
            with_key(entries, key)
        },
{
    entries.lemma_filter_push(entry, |e: SessionEntry| e.key == key);
}

/// A run without the key has no entries of it.
proof fn lemma_with_key_none(entries: Seq<SessionEntry>, key: PublicKey)
    requires
        forall|i: int| 0 <= i < entries.len() ==> entries[i].key != key,
    ensures
        with_key(entries, key) == Seq::<SessionEntry>::empty(),
    decreases entries.len(),
{
    reveal(Seq::filter);
    if entries.len() > 0 {
        lemma_with_key_none(entries.drop_last(), key);
    }
}

/// Merge two ordered listings. Of entries with one key, those of `a` come first.
fn merge(a: &Vec<SessionEntry>, b: &Vec<SessionEntry>) -> (listing: Vec<SessionEntry>)
    requires
        ordered(a@),
        ordered(b@),
    ensures
        ordered(listing@),
        rearranged(a@ + b@, listing@),
{
    let mut listing: Vec<SessionEntry> = Vec::new();
    let mut i: usize = 0;
    let mut j: usize = 0;
    proof {
        reveal(Seq::filter);
    }
    while i < a.len() || j < b.len()
        invariant
            i <= a@.len(),
            j <= b@.len(),
            ordered(a@),
            ordered(b@),
            ordered(listing@),
            forall|k: int, l: int|
                0 <= k < listing@.len() && i <= l < a@.len() ==> !key_before(
                    #[trigger] a@[l].key,
                    #[trigger] listing@[k].key,
                ),
            forall|k: int, l: int|
                0 <= k < listing@.len() && j <= l < b@.len() ==> !key_before(
                    #[trigger] b@[l].key,
                    #[trigger] listing@[k].key,
                ),
            forall|k: int, l: int|
                0 <= k < j && i <= l < a@.len() ==> key_before(
                    #[trigger] b@[k].key,
                    #[trigger] a@[l].key,
                ),
            forall|key: PublicKey| #[trigger]
                with_key(listing@, key) == with_key(a@.take(i as int), key) + with_key(
                    b@.take(j as int),
                    key,
                ),
        decreases a@.len() - i + b@.len() - j,
    {
        let from_a = if i == a.len() {
            false
        } else if j == b.len() {
            true
        } else {
            !comes_before(&b[j].key, &a[i].key)
        };
        let ghost before = listing@;
        if from_a {
            let entry = a[i];
            listing.push(entry);
            proof {
                assert(a@.take(i + 1) == a@.take(i as int).push(entry));
                assert forall|key: PublicKey| #[trigger]
                    with_key(listing@, key) == with_key(a@.take(i + 1), key) + with_key(
                        b@.take(j as int),
                        key,
                    ) by {
                    lemma_with_key_push(before, entry, key);
                    lemma_with_key_push(a@.take(i as int), entry, key);
                    if entry.key == key {
                        assert forall|k: int| 0 <= k < j implies b@.take(j as int)[k].key
                            != key by {
                            lemma_key_asymmetric(b@[k].key, a@[i as int].key);
                        }
                        lemma_with_key_none(b@.take(j as int), key);
                    }
                    assert(with_key(before, key) == with_key(a@.take(i as int), key) + with_key(
                        b@.take(j as int),
                        key,
                    ));
                }
                assert forall|l: int| j <= l < b@.len() implies !key_before(
                    #[trigger] b@[l].key,
                    entry.key,
                ) by {
                    if j < l {
                        lemma_not_before_transitive(entry.key, b@[j as int].key, b@[l].key);
                    }
                }
            }
            i = i + 1;
        } else {
            let entry = b[j];
            listing.push(entry);
            proof {
                assert(b@.take(j + 1) == b@.take(j as int).push(entry));
                assert forall|key: PublicKey| #[trigger]
                    with_key(listing@, key) == with_key(a@.take(i as int), key) + with_key(
                        b@.take(j + 1),
                        key,
                    ) by {
                    lemma_with_key_push(before, entry, key);
                    lemma_with_key_push(b@.take(j as int), entry, key);
                    assert(with_key(before, key) == with_key(a@.take(i as int), key) + with_key(
                        b@.take(j as int),
                        key,
                    ));
                }
                assert forall|l: int| i <= l < a@.len() implies key_before(
                    entry.key,
                    #[trigger] a@[l].key,
                ) && !key_before(a@[l].key, entry.key) by {
                    lemma_key_total(a@[i as int].key, a@[l].key);
                    if i < l && key_before(a@[i as int].key, a@[l].key) {
                        lemma_key_transitive(entry.key, a@[i as int].key, a@[l].key);
                    }
                    lemma_key_asymmetric(entry.key, a@[l].key);
                }
            }
            j = j + 1;
        }
    }
    proof {
        assert(a@.take(i as int) == a@);
        assert(b@.take(j as int) == b@);
        assert forall|key: PublicKey| #[trigger]
            with_key(listing@, key) == with_key(a@ + b@, key) by {
            Seq::filter_distributes_over_add(a@, b@, |e: SessionEntry| e.key == key);
        }
    }
    listing
}

/// Order entries by key, keeping the order of those with one key.
fn sort_by_key(entries: Vec<SessionEntry>) -> (listing: Vec<SessionEntry>)
    ensures
        ordered(listing@),
        rearranged(entries@, listing@),
    decreases entries.len(),
{
    if entries.len() < 2 {
        return entries;
    }
    let mut front = entries;
    let half: usize = front.len() / 2;
    let back = front.split_off(half);
    proof {
        assert(front@ + back@ == entries@);
    }
    let ghost (f, b) = (front@, back@);
    let front = sort_by_key(front);
    let back = sort_by_key(back);
    let listing = merge(&front, &back);
    proof {
        assert forall|key: PublicKey| #[trigger]
            with_key(listing@, key) == with_key(entries@, key) by {
            let p = |e: SessionEntry| e.key == key;
            Seq::filter_distributes_over_add(front@, back@, p);
            Seq::filter_distributes_over_add(f, b, p);
            assert(with_key(front@, key) == with_key(f, key));
            assert(with_key(back@, key) == with_key(b, key));
            assert(with_key(listing@, key) == with_key(front@ + back@, key));
        }
    }
    listing
}

impl EncryptedPacketConn {
    /// List all active encrypted sessions of a snapshot taken at the time `now`,
    /// ordered by key.
    pub fn get_sessions(snapshot: &Vec<SessionSnapshot>, now: u64) -> (listing: Vec<SessionEntry>)
        ensures
            ordered(listing@),
            rearranged(entries_at(now, snapshot@), listing@),
            listing@.to_multiset() == entries_at(now, snapshot@).to_multiset(),
            listing@.len() == snapshot@.len(),
    {
        let mut entries: Vec<SessionEntry> = Vec::with_capacity(snapshot.len());
        let mut i: usize = 0;
        while i < snapshot.len()
            invariant
                i <= snapshot@.len(),
                entries@ == entries_at(now, snapshot@.take(i as int)),
            decreases snapshot@.len() - i,
        {
            let session = snapshot[i];
            entries.push(
                SessionEntry {
                    key: session.key,
                    uptime_nanos: now.saturating_sub(session.since_nanos),
                    bytes_sent: session.tx,
                    bytes_recvd: session.rx,
                },
            );
            i = i + 1;
        }
        assert(snapshot@.take(i as int) == snapshot@);
        let listing = sort_by_key(entries);
        proof {
            law_listing_is_a_permutation(entries@, listing@);
        }
        listing
    }
}

/// The first entry comes first among those of its key.
proof fn lemma_with_key_first(entries: Seq<SessionEntry>, key: PublicKey)
    requires
        entries.len() > 0,
    ensures
        with_key(entries, key) == (if entries.first().key == key {
            seq![entries.first()]
        } else {
            Seq::empty()
        }) + with_key(entries.drop_first(), key),
{
    assert(seq![entries.first()] + entries.drop_first() =~= entries);
    entries.drop_first().lemma_filter_prepend(
        entries.first(),
        |e: SessionEntry| e.key == key,
    );
}

/// A listing that holds an entry of a key has entries of that key.
proof fn lemma_with_key_some(entries: Seq<SessionEntry>, i: int)
    requires
        0 <= i < entries.len(),
    ensures
        with_key(entries, entries[i].key).len() > 0,
{
    let p = |e: SessionEntry| e.key == entries[i].key;
    entries.lemma_filter_contains(p, i);
}

/// The listing is determined: there is just one way to order the entries of a snapshot
/// by key while keeping those with one key in their order.
pub proof fn law_listing_is_unique(a: Seq<SessionEntry>, b: Seq<SessionEntry>)
    requires
        ordered(a),
        ordered(b),
        rearranged(a, b),
    ensures
        a == b,
    decreases a.len(),
{
    if a.len() == 0 {
        if b.len() > 0 {
            lemma_with_key_some(b, 0);
            lemma_with_key_none(a, b[0].key);
        }
        assert(a =~= b);
    } else {
        lemma_with_key_some(a, 0);
        let key = a[0].key;
        assert(with_key(b, key) == with_key(a, key));
        if b.len() == 0 {
            lemma_with_key_none(b, key);
        }
        let other = b[0].key;
        if key != other {
            lemma_key_total(key, other);
            if key_before(key, other) {
                lemma_with_key_absent(b, key);
            } else {
                lemma_with_key_some(b, 0);
                assert(with_key(b, other) == with_key(a, other));
                lemma_with_key_absent(a, other);
            }
        }
        lemma_with_key_first(a, key);
        lemma_with_key_first(b, key);
        assert(with_key(a, key)[0] == a[0]);
        assert(with_key(b, key)[0] == b[0]);
        let (a_rest, b_rest) = (a.drop_first(), b.drop_first());
        assert forall|k: PublicKey| #[trigger] with_key(b_rest, k) == with_key(a_rest, k) by {
            lemma_with_key_first(a, k);
            lemma_with_key_first(b, k);
            assert(with_key(b, k) == with_key(a, k));
            assert(with_key(b, k).len() == with_key(a, k).len());
            if k == key {
                assert(with_key(a_rest, k) =~= with_key(a, k).drop_first());
                assert(with_key(b_rest, k) =~= with_key(b, k).drop_first());
            } else {
                assert(with_key(a_rest, k) =~= with_key(a, k));
                assert(with_key(b_rest, k) =~= with_key(b, k));
            }
        }
        law_listing_is_unique(a_rest, b_rest);
        assert(a =~= seq![a[0]] + a_rest);
        assert(b =~= seq![b[0]] + b_rest);
    }
}

/// An ordered listing has no entries of a key that comes before its first one.
proof fn lemma_with_key_absent(entries: Seq<SessionEntry>, key: PublicKey)
    requires
        ordered(entries),
        entries.len() > 0,
        key_before(key, entries[0].key),
    ensures
        with_key(entries, key).len() == 0,
{
    assert forall|i: int| 0 <= i < entries.len() implies entries[i].key != key by {
        if i == 0 {
            lemma_key_asymmetric(key, entries[0].key);
        }
    }
    lemma_with_key_none(entries, key);
}

/// An entry occurs as often in a listing as among the entries of its key.
proof fn lemma_count(entries: Seq<SessionEntry>, entry: SessionEntry)
    ensures
        entries.to_multiset().count(entry) == with_key(entries, entry.key).to_multiset().count(
            entry,
        ),
    decreases entries.len(),
{
    broadcast use vstd::seq_lib::group_to_multiset_ensures;

    if entries.len() == 0 {
        lemma_with_key_none(entries, entry.key);
        assert(entries =~= with_key(entries, entry.key));
    } else {
        let (rest, last) = (entries.drop_last(), entries.last());
        lemma_count(rest, entry);
        lemma_with_key_push(rest, last, entry.key);
        assert(entries =~= rest.push(last));
    }
}

/// Every session of the snapshot has its entry in the listing, and the listing holds
/// nothing else: it is a permutation of the entries, and as long.
pub proof fn law_listing_is_a_permutation(entries: Seq<SessionEntry>, listing: Seq<SessionEntry>)
    requires
        rearranged(entries, listing),
    ensures
        listing.to_multiset() == entries.to_multiset(),
        listing.len() == entries.len(),
{
    broadcast use vstd::seq_lib::group_to_multiset_ensures;

    assert forall|entry: SessionEntry| #[trigger]
        listing.to_multiset().count(entry) == entries.to_multiset().count(entry) by {
        lemma_count(listing, entry);
        lemma_count(entries, entry);
        assert(with_key(listing, entry.key) == with_key(entries, entry.key));
    }
    assert(listing.to_multiset() =~= entries.to_multiset());
    assert(listing.to_multiset().len() == entries.to_multiset().len());
}

/// No two sessions of the snapshot have the same key.
pub open spec fn distinct_keys(snapshot: Seq<SessionSnapshot>) -> bool {
    forall|i: int, j: int|
        0 <= i < j < snapshot.len() ==> (#[trigger] snapshot[i]).key != (
        #[trigger] snapshot[j]).key
}

/// The entries of a key that just one session has.
proof fn lemma_with_key_one(now: u64, snapshot: Seq<SessionSnapshot>, i: int)
    requires
        distinct_keys(snapshot),
        0 <= i < snapshot.len(),
    ensures
        with_key(entries_at(now, snapshot), snapshot[i].key) == seq![entry_at(now, snapshot[i])],
{
    let key = snapshot[i].key;
    let entries = entries_at(now, snapshot);
    let (front, back) = (entries.take(i), entries.skip(i + 1));
    assert forall|j: int| 0 <= j < front.len() implies front[j].key != key by {
        assert(snapshot[j].key != snapshot[i].key);
    }
    assert forall|j: int| 0 <= j < back.len() implies back[j].key != key by {
        assert(snapshot[i].key != snapshot[i + 1 + j].key);
    }
    lemma_with_key_none(front, key);
    lemma_with_key_none(back, key);
    lemma_with_key_push(front, entries[i], key);
    Seq::filter_distributes_over_add(
        front.push(entries[i]),
        back,
        |e: SessionEntry| e.key == key,
    );
    assert(entries =~= front.push(entries[i]) + back);
    assert(with_key(entries, key) =~= seq![entries[i]]);
}

/// The listing does not depend on the order in which the session layer happens to hand
/// out its sessions, each of which has a key of its own.
pub proof fn law_listing_ignores_snapshot_order(
    now: u64,
    a: Seq<SessionSnapshot>,
    b: Seq<SessionSnapshot>,
    a_listing: Seq<SessionEntry>,
    b_listing: Seq<SessionEntry>,
)
    requires
        distinct_keys(a),
        distinct_keys(b),
        forall|session: SessionSnapshot| a.contains(session) <==> b.contains(session),
        ordered(a_listing),
        rearranged(entries_at(now, a), a_listing),
        ordered(b_listing),
        rearranged(entries_at(now, b), b_listing),
    ensures
        a_listing == b_listing,
{
    assert forall|key: PublicKey| #[trigger]
        with_key(b_listing, key) == with_key(a_listing, key) by {
        assert(with_key(a_listing, key) == with_key(entries_at(now, a), key));
        if exists|i: int| 0 <= i < a.len() && a[i].key == key {
            let i = choose|i: int| 0 <= i < a.len() && a[i].key == key;
            assert(b.contains(a[i]));
            let j = choose|j: int| 0 <= j < b.len() && b[j] == a[i];
            lemma_with_key_one(now, a, i);
            lemma_with_key_one(now, b, j);
        } else {
            lemma_with_key_none(entries_at(now, a), key);
            assert forall|j: int| 0 <= j < b.len() implies b[j].key != key by {
                assert(b.contains(b[j]));
                assert(a.contains(b[j]));
            }
            lemma_with_key_none(entries_at(now, b), key);
        }
    }
    law_listing_is_unique(a_listing, b_listing);
}

/// `entry` tells of `session` at the time `now`: the same key and the same byte counts,
/// and the time from its beginning to `now`, none if it begins later.
pub open spec fn tells_of(now: u64, session: SessionSnapshot, entry: SessionEntry) -> bool {
    &&& entry.key == session.key
    &&& session.since_nanos <= now ==> entry.uptime_nanos + session.since_nanos == now
    &&& session.since_nanos > now ==> entry.uptime_nanos == 0
    &&& entry.bytes_sent == session.tx
    &&& entry.bytes_recvd == session.rx
}

/// Every session of the snapshot has an entry in the listing that tells of it, with its
/// uptime at full length, and the listing is as long as the snapshot.
pub proof fn law_every_session_is_listed(
    now: u64,
    snapshot: Seq<SessionSnapshot>,
    listing: Seq<SessionEntry>,
    i: int,
)
    requires
        rearranged(entries_at(now, snapshot), listing),
        0 <= i < snapshot.len(),
    ensures
        listing.len() == snapshot.len(),
        exists|j: int| 0 <= j < listing.len() && tells_of(now, snapshot[i], #[trigger] listing[j]),
{
    broadcast use vstd::seq_lib::group_to_multiset_ensures;

    let entries = entries_at(now, snapshot);
    law_listing_is_a_permutation(entries, listing);
    assert(entries.contains(entries[i]));
    assert(entries.to_multiset().count(entries[i]) > 0);
    assert(listing.contains(entries[i]));
    let j = choose|j: int| 0 <= j < listing.len() && listing[j] == entries[i];
    assert(tells_of(now, snapshot[i], listing[j]));
}

/// Every entry of the listing tells of a session of the snapshot.
pub proof fn law_every_entry_tells_of_a_session(
    now: u64,
    snapshot: Seq<SessionSnapshot>,
    listing: Seq<SessionEntry>,
    j: int,
)
    requires
        rearranged(entries_at(now, snapshot), listing),
        0 <= j < listing.len(),
    ensures
        exists|i: int|
            0 <= i < snapshot.len() && tells_of(now, #[trigger] snapshot[i], listing[j]),
{
    broadcast use vstd::seq_lib::group_to_multiset_ensures;

    let entries = entries_at(now, snapshot);
    law_listing_is_a_permutation(entries, listing);
    assert(listing.contains(listing[j]));
    assert(listing.to_multiset().count(listing[j]) > 0);
    assert(entries.contains(listing[j]));
    let i = choose|i: int| 0 <= i < entries.len() && entries[i] == listing[j];
    assert(tells_of(now, snapshot[i], listing[j]));
}

/// The listing goes up by key: of two entries, the later one has the same key, or a
/// greater byte at the first of the 32 positions at which the keys differ.
pub proof fn law_listing_goes_up_by_key(listing: Seq<SessionEntry>, i: int, j: int)
    requires
        ordered(listing),
        0 <= i < j < listing.len(),
    ensures
        listing[i].key == listing[j].key || exists|p: int|
            {
                &&& 0 <= p < 32
                &&& #[trigger] listing[i].key@[p] < listing[j].key@[p]
                &&& listing[i].key@.take(p) == listing[j].key@.take(p)
            },
{
    let (a, b) = (listing[i].key, listing[j].key);
    lemma_key_total(a, b);
    if a != b {
        let p = choose|p: int| differs_first_at(a, b, p);
        assert(a@.take(p) =~= b@.take(p));
        assert(a@[p] < b@[p]);
    }
}

/// The number of entries before the entry `i` that have its key.
spec fn rank(entries: Seq<SessionEntry>, i: int) -> nat {
    with_key(entries.take(i), entries[i].key).len()
}

/// An entry stands at its rank among the entries of its key.
proof fn lemma_rank(entries: Seq<SessionEntry>, i: int)
    requires
        0 <= i < entries.len(),
    ensures
        rank(entries, i) < with_key(entries, entries[i].key).len(),
        with_key(entries, entries[i].key)[rank(entries, i) as int] == entries[i],
{
    let key = entries[i].key;
    let (front, back) = (entries.take(i), entries.skip(i + 1));
    lemma_with_key_push(front, entries[i], key);
    Seq::filter_distributes_over_add(
        front.push(entries[i]),
        back,
        |e: SessionEntry| e.key == key,
    );
    assert(entries =~= front.push(entries[i]) + back);
}

/// Of two entries with one key, the later one has the greater rank.
proof fn lemma_rank_grows(entries: Seq<SessionEntry>, i: int, j: int)
    requires
        0 <= i < j < entries.len(),
        entries[i].key == entries[j].key,
    ensures
        rank(entries, i) < rank(entries, j),
{
    lemma_rank(entries.take(j), i);
    assert(entries.take(j).take(i) =~= entries.take(i));
}

/// There is an entry at every rank of a key.
proof fn lemma_rank_taken(entries: Seq<SessionEntry>, key: PublicKey, r: nat) -> (i: int)
    requires
        r < with_key(entries, key).len(),
    ensures
        0 <= i < entries.len(),
        entries[i].key == key,
        rank(entries, i) == r,
    decreases entries.len(),
{
    if entries.len() == 0 {
        lemma_with_key_none(entries, key);
        0
    } else {
        let (rest, last) = (entries.drop_last(), entries.last());
        lemma_with_key_push(rest, last, key);
        assert(entries =~= rest.push(last));
        if r < with_key(rest, key).len() {
            let i = lemma_rank_taken(rest, key, r);
            assert(rest.take(i) =~= entries.take(i));
            i
        } else {
            assert(entries.take(entries.len() - 1) =~= rest);
            entries.len() - 1
        }
    }
}

/// `place` says which session each entry of the listing tells of: no two entries tell of
/// the same one, and entries with one key come in the order of the snapshot.
pub open spec fn places(
    now: u64,
    snapshot: Seq<SessionSnapshot>,
    listing: Seq<SessionEntry>,
    place: Seq<int>,
) -> bool {
    &&& place.len() == listing.len() && listing.len() == snapshot.len()
    &&& forall|j: int|
        0 <= j < listing.len() ==> 0 <= #[trigger] place[j] < snapshot.len() && tells_of(
            now,
            snapshot[place[j]],
            listing[j],
        )
    &&& forall|j: int, k: int|
        0 <= j < k < listing.len() ==> #[trigger] place[j] != #[trigger] place[k]
    &&& forall|j: int, k: int|
        0 <= j < k < listing.len() && listing[j].key == listing[k].key ==> #[trigger] place[j]
            < #[trigger] place[k]
}

/// The listing tells of each session of the snapshot exactly once, and of sessions with
/// one key in the order of the snapshot.
pub proof fn law_listing_tells_of_each_session_once(
    now: u64,
    snapshot: Seq<SessionSnapshot>,
    listing: Seq<SessionEntry>,
)
    requires
        rearranged(entries_at(now, snapshot), listing),
    ensures
        exists|place: Seq<int>| #[trigger] places(now, snapshot, listing, place),
{
    let entries = entries_at(now, snapshot);
    law_listing_is_a_permutation(entries, listing);
    let at = |j: int, i: int|
        0 <= i < entries.len() && entries[i].key == listing[j].key && rank(entries, i) == rank(
            listing,
            j,
        );
    let place = Seq::new(listing.len(), |j: int| choose|i: int| #[trigger] at(j, i));
    assert forall|j: int| 0 <= j < listing.len() implies at(j, #[trigger] place[j])
        && entries[place[j]] == listing[j] by {
        let key = listing[j].key;
        lemma_rank(listing, j);
        assert(with_key(listing, key) == with_key(entries, key));
        let i = lemma_rank_taken(entries, key, rank(listing, j));
        assert(at(j, i));
        lemma_rank(entries, place[j]);
    }
    assert forall|j: int| 0 <= j < listing.len() implies 0 <= #[trigger] place[j] < snapshot.len()
        && tells_of(now, snapshot[place[j]], listing[j]) by {
        assert(at(j, place[j]));
        assert(entries[place[j]] == entry_at(now, snapshot[place[j]]));
    }
    assert forall|j: int, k: int|
        0 <= j < k < listing.len() && listing[j].key == listing[k].key implies #[trigger] place[j]
        < #[trigger] place[k] by {
        lemma_rank_grows(listing, j, k);
        assert(at(j, place[j]) && at(k, place[k]));
        if place[k] < place[j] {
            lemma_rank_grows(entries, place[k], place[j]);
        }
    }
    assert forall|j: int, k: int| 0 <= j < k < listing.len() implies #[trigger] place[j]
        != #[trigger] place[k] by {
        assert(at(j, place[j]) && at(k, place[k]));
    }
    assert(places(now, snapshot, listing, place));
}

} // verus!

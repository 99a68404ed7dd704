//! The backend worker's pending-request table: the map from backend-scoped
//! request identifier to the reply channel of the client handler waiting on
//! it. One worker owns one table outright — no other task reads or writes
//! it. An entry is inserted exactly when a request is forwarded to the
//! backend, removed exactly when the response carrying its key arrives, and
//! failed — never silently dropped — when the backend connection dies.

use vstd::prelude::*;

use crate::dispatch::{send_reply, MessagePacket, Reply};
use crate::rewrite::{lemma_rewrite_distinct_salts, spec_rewrite};
use crate::wire::WireMessage;
use crate::ProxyError;

verus! {

/// The map an association list holds: later entries shadow earlier ones.
pub open spec fn assoc_map<V>(s: Seq<(u32, V)>) -> Map<u32, V>
    decreases s.len(),
{
    if s.len() == 0 {
        Map::empty()
    } else {
        assoc_map(s.drop_last()).insert(s.last().0, s.last().1)
    }
}

/// No key occurs twice in the list.
pub open spec fn unique_keys<V>(s: Seq<(u32, V)>) -> bool {
    forall|i: int, j: int| 0 <= i < j < s.len() ==> s[i].0 != s[j].0
}

proof fn lemma_unique_drop_last<V>(s: Seq<(u32, V)>)
    requires
        unique_keys(s),
        s.len() > 0,
    ensures
        unique_keys(s.drop_last()),
{
    assert forall|i: int, j: int| 0 <= i < j < s.drop_last().len() implies s.drop_last()[i].0
        != s.drop_last()[j].0 by {
        assert(s.drop_last()[i] == s[i]);
        assert(s.drop_last()[j] == s[j]);
    }
}

/// A key is in the association map exactly when some entry carries it.
proof fn lemma_assoc_contains<V>(s: Seq<(u32, V)>, k: u32)
    ensures
        assoc_map(s).contains_key(k) <==> (exists|i: int| 0 <= i < s.len() && s[i].0 == k),
    decreases s.len(),
{
    if s.len() > 0 {
        let rest = s.drop_last();
        lemma_assoc_contains(rest, k);
        if s.last().0 == k {
            assert(s[s.len() - 1].0 == k);
        } else {
            if assoc_map(s).contains_key(k) {
                let i = choose|i: int| 0 <= i < rest.len() && rest[i].0 == k;
                assert(s[i].0 == k);
            }
            if exists|i: int| 0 <= i < s.len() && s[i].0 == k {
                let i = choose|i: int| 0 <= i < s.len() && s[i].0 == k;
                assert(i < s.len() - 1);
                assert(rest[i].0 == k);
            }
        }
    }
}

/// With unique keys, the entry at any position is what the map holds for
/// its key.
proof fn lemma_assoc_value<V>(s: Seq<(u32, V)>, i: int)
    requires
        unique_keys(s),
        0 <= i < s.len(),
    ensures
        assoc_map(s).contains_key(s[i].0),
        assoc_map(s)[s[i].0] == s[i].1,
    decreases s.len(),
{
    let rest = s.drop_last();
    lemma_unique_drop_last(s);
    if i == s.len() - 1 {
    } else {
        assert(rest[i] == s[i]);
        lemma_assoc_value(rest, i);
        assert(s.last().0 != s[i].0);
    }
}

/// With unique keys, replacing the entry at a position replaces just that
/// key's value in the map.
proof fn lemma_assoc_update<V>(s: Seq<(u32, V)>, i: int, v: V)
    requires
        unique_keys(s),
        0 <= i < s.len(),
    ensures
        assoc_map(s.update(i, (s[i].0, v))) == assoc_map(s).insert(s[i].0, v),
    decreases s.len(),
{
    let k = s[i].0;
    let t = s.update(i, (k, v));
    let rest = s.drop_last();
    lemma_unique_drop_last(s);
    if i == s.len() - 1 {
        assert(t.drop_last() =~= rest);
        assert(t.last() == (k, v));
        assert(assoc_map(t) == assoc_map(rest).insert(k, v));
        assert(assoc_map(rest).insert(k, s[i].1).insert(k, v) =~= assoc_map(rest).insert(k, v));
    } else {
        assert(t.last() == s.last());
        assert(t.drop_last() =~= rest.update(i, (k, v)));
        assert(rest[i] == s[i]);
        lemma_assoc_update(rest, i, v);
        assert(s.last().0 != k);
        assert(assoc_map(rest).insert(k, v).insert(s.last().0, s.last().1) =~= assoc_map(
            rest,
        ).insert(s.last().0, s.last().1).insert(k, v));
    }
}

/// With unique keys, removing the entry at a position removes just that
/// key from the map.
proof fn lemma_assoc_remove<V>(s: Seq<(u32, V)>, i: int)
    requires
        unique_keys(s),
        0 <= i < s.len(),
    ensures
        assoc_map(s.remove(i)) == assoc_map(s).remove(s[i].0),
    decreases s.len(),
{
    let k = s[i].0;
    let rest = s.drop_last();
    lemma_unique_drop_last(s);
    if i == s.len() - 1 {
        assert(s.remove(i) =~= rest);
        lemma_assoc_contains(rest, k);
        assert(forall|j: int| 0 <= j < rest.len() ==> #[trigger] rest[j] == s[j]);
        assert(!assoc_map(rest).contains_key(k));
        assert(assoc_map(rest) =~= assoc_map(rest).insert(k, s[i].1).remove(k));
    } else {
        assert(rest[i] == s[i]);
        lemma_assoc_remove(rest, i);
        assert(s.remove(i).last() == s.last());
        assert(s.remove(i).drop_last() =~= rest.remove(i));
        assert(s.last().0 != k);
        assert(assoc_map(rest).remove(k).insert(s.last().0, s.last().1) =~= assoc_map(
            rest,
        ).insert(s.last().0, s.last().1).remove(k));
    }
}

/// What a backend worker does with a response it routed, or did not.
#[derive(Clone, Copy, Debug, PartialEq, Eq, Structural)]
pub enum RouteOutcome {
    /// A pending entry matched and the reply channel took the response.
    Delivered,
    /// A pending entry matched but its client handler was gone; the
    /// response is dropped, which is harmless.
    ReceiverGone,
    /// No pending entry carries the response's key: a stale or foreign
    /// response, dropped rather than ever delivered to the wrong client.
    Unmatched,
}

/// The pending-request table of one backend worker.
pub struct PendingTable {
    entries: Vec<(u32, flume::Sender<Reply>)>,
}

impl View for PendingTable {
    type V = Map<u32, flume::Sender<Reply>>;

    closed spec fn view(&self) -> Map<u32, flume::Sender<Reply>> {
        assoc_map(self.entries@)
    }
}

impl PendingTable {
    /// The table never holds two entries for one key.
    pub closed spec fn wf(self) -> bool {
        unique_keys(self.entries@)
    }

    /// How many requests are pending.
    pub closed spec fn spec_len(self) -> nat {
        self.entries@.len()
    }

    /// An empty table: no requests pending.
    pub fn new() -> (t: Self)
        ensures
            t.wf(),
            t@ == Map::<u32, flume::Sender<Reply>>::empty(),
            t.spec_len() == 0,
    {
        PendingTable { entries: Vec::new() }
    }

    /// How many requests are pending.
    pub fn len(&self) -> (n: usize)
        ensures
            n == self.spec_len(),
    {
        self.entries.len()
    }

    /// Whether a request with this backend-scoped identifier is pending.
    pub fn contains(&self, key: u32) -> (r: bool)
        requires
            self.wf(),
        ensures
            r == self@.contains_key(key),
    {
        proof {
            lemma_assoc_contains(self.entries@, key);
        }
        match self.find(key) {
            Some(_) => true,
            None => false,
        }
    }

    fn find(&self, key: u32) -> (r: Option<usize>)
        ensures
            match r {
                Some(i) => i < self.entries@.len() && self.entries@[i as int].0 == key,
                None => forall|j: int| 0 <= j < self.entries@.len() ==> self.entries@[j].0 != key,
            },
    {
        let mut i: usize = 0;
        while i < self.entries.len()
            invariant
                i <= self.entries@.len(),
                forall|j: int| 0 <= j < i ==> self.entries@[j].0 != key,
            decreases self.entries@.len() - i,
        {
            if self.entries[i].0 == key {
                return Some(i);
            }
            i = i + 1;
        }
        None
    }

    /// Takes an outbound packet in: records its reply channel under its
    /// backend-scoped identifier — before the caller writes the request to
    /// the backend, so the entry is in place before any response can arrive
    /// — and hands the message back to be written.
    pub fn register(&mut self, packet: MessagePacket) -> (message: WireMessage)
        requires
            old(self).wf(),
        ensures
            final(self).wf(),
            final(self)@ == old(self)@.insert(packet.request_id, packet.tx),
            final(self)@.contains_key(packet.request_id),
            final(self).spec_len() == if old(self)@.contains_key(packet.request_id) {
                old(self).spec_len() as int
            } else {
                old(self).spec_len() as int + 1
            },
            message == packet.message,
    {
        let ghost s0 = self.entries@;
        let MessagePacket { message, request_id, tx } = packet;
        proof {
            lemma_assoc_contains(s0, request_id);
        }
        match self.find(request_id) {
            Some(i) => {
                proof {
                    lemma_assoc_update(s0, i as int, tx);
                }
                self.entries.set(i, (request_id, tx));
                proof {
                    assert forall|a: int, b: int|
                        0 <= a < b < self.entries@.len() implies self.entries@[a].0
                        != self.entries@[b].0 by {
                        assert(a != i as int ==> self.entries@[a] == s0[a]);
                        assert(b != i as int ==> self.entries@[b] == s0[b]);
                    }
                }
            },
            None => {
                self.entries.push((request_id, tx));
                proof {
                    assert(self.entries@.drop_last() =~= s0);
                    assert forall|a: int, b: int|
                        0 <= a < b < self.entries@.len() implies self.entries@[a].0
                        != self.entries@[b].0 by {
                        if b < s0.len() {
                            assert(self.entries@[a] == s0[a]);
                            assert(self.entries@[b] == s0[b]);
                        } else {
                            assert(self.entries@[a] == s0[a]);
                        }
                    }
                }
            },
        }
        message
    }

    /// Routes an inbound response by its response-to field: if a request
    /// with that key is pending, its entry — and only its entry — leaves
    /// the table and the response goes to that entry's reply channel; a
    /// response no one is waiting for is dropped, never delivered to the
    /// wrong client.
    pub fn route_response(&mut self, message: WireMessage) -> (r: RouteOutcome)
        requires
            old(self).wf(),
            message.wf(),
        ensures
            final(self).wf(),
            final(self)@ == old(self)@.remove(message.spec_response_to()),
            (r == RouteOutcome::Unmatched) <==> !old(self)@.contains_key(
                message.spec_response_to(),
            ),
            final(self).spec_len() == if old(self)@.contains_key(message.spec_response_to()) {
                old(self).spec_len() - 1
            } else {
                old(self).spec_len() as int
            },
    {
        let ghost s0 = self.entries@;
        let key: u32 = message.response_to();
        proof {
            lemma_assoc_contains(s0, key);
        }
        match self.find(key) {
            Some(i) => {
                proof {
                    lemma_assoc_value(s0, i as int);
                    lemma_assoc_remove(s0, i as int);
                }
                let entry = self.entries.remove(i);
                proof {
                    assert forall|a: int, b: int|
                        0 <= a < b < self.entries@.len() implies self.entries@[a].0
                        != self.entries@[b].0 by {
                        assert(self.entries@[a] == if a < i as int {
                            s0[a]
                        } else {
                            s0[a + 1]
                        });
                        assert(self.entries@[b] == if b < i as int {
                            s0[b]
                        } else {
                            s0[b + 1]
                        });
                    }
                }
                let delivered: bool = send_reply(&entry.1, Reply::Response(message));
                if delivered {
                    RouteOutcome::Delivered
                } else {
                    RouteOutcome::ReceiverGone
                }
            },
            None => {
                proof {
                    assert(old(self)@.remove(key) =~= old(self)@);
                }
                RouteOutcome::Unmatched
            },
        }
    }

    /// Fails every pending request: each entry leaves the table exactly
    /// once and its reply channel is told the backend is unavailable, so no
    /// client is left waiting on a dead connection. Returns the failed
    /// keys: every key that was pending, each exactly once.
    pub fn fail_all(&mut self) -> (failed: Vec<u32>)
        requires
            old(self).wf(),
        ensures
            final(self).wf(),
            final(self)@ == Map::<u32, flume::Sender<Reply>>::empty(),
            final(self).spec_len() == 0,
            failed@.len() == old(self).spec_len(),
            failed@.no_duplicates(),
            forall|k: u32| failed@.contains(k) <==> old(self)@.contains_key(k),
    {
        let ghost s0 = self.entries@;
        let mut failed: Vec<u32> = Vec::new();
        while self.entries.len() > 0
            invariant
                unique_keys(s0),
                failed@.len() <= s0.len(),
                self.entries@ == s0.subrange(0, s0.len() - failed@.len()),
                forall|j: int|
                    0 <= j < failed@.len() ==> failed@[j] == s0[s0.len() - 1 - j].0,
            decreases self.entries@.len(),
        {
            let ghost f = failed@.len() as int;
            let entry = self.entries.pop().unwrap();
            proof {
                assert(entry == s0[s0.len() - 1 - f]);
                assert(self.entries@ =~= s0.subrange(0, s0.len() - f - 1));
            }
            send_reply(&entry.1, Reply::Failed(ProxyError::BackendUnavailable));
            failed.push(entry.0);
        }
        proof {
            assert(self@ =~= Map::<u32, flume::Sender<Reply>>::empty());
            assert(failed@.len() == s0.len());
            assert(failed@.no_duplicates()) by {
                assert forall|a: int, b: int|
                    0 <= a < b < failed@.len() implies failed@[a] != failed@[b] by {
                    assert(failed@[a] == s0[s0.len() - 1 - a].0);
                    assert(failed@[b] == s0[s0.len() - 1 - b].0);
                }
            }
            assert forall|k: u32| failed@.contains(k) <==> old(self)@.contains_key(k) by {
                lemma_assoc_contains(s0, k);
                if failed@.contains(k) {
                    let j = choose|j: int| 0 <= j < failed@.len() && failed@[j] == k;
                    assert(s0[s0.len() - 1 - j].0 == k);
                }
                if exists|i: int| 0 <= i < s0.len() && s0[i].0 == k {
                    let i = choose|i: int| 0 <= i < s0.len() && s0[i].0 == k;
                    assert(failed@[s0.len() - 1 - i] == k);
                }
            }
        }
        failed
    }
}

/// Correlation isolation: two clients with distinct salts that issue
/// requests under the same original identifier occupy distinct keys in a
/// worker's pending table, so each key still holds its own client's reply
/// channel, and routing by one client's key leaves the other's entry
/// untouched.
pub proof fn lemma_correlation_isolation(
    id: u32,
    salt_a: u32,
    salt_b: u32,
    tx_a: flume::Sender<Reply>,
    tx_b: flume::Sender<Reply>,
    t: Map<u32, flume::Sender<Reply>>,
)
    requires
        salt_a != salt_b,
        t == Map::<u32, flume::Sender<Reply>>::empty().insert(
            spec_rewrite(id, salt_a),
            tx_a,
        ).insert(spec_rewrite(id, salt_b), tx_b),
    ensures
        t[spec_rewrite(id, salt_a)] == tx_a,
        t[spec_rewrite(id, salt_b)] == tx_b,
        t.remove(spec_rewrite(id, salt_a)).contains_key(spec_rewrite(id, salt_b)),
        t.remove(spec_rewrite(id, salt_b)).contains_key(spec_rewrite(id, salt_a)),
{
    lemma_rewrite_distinct_salts(id, salt_a, salt_b);
}

} // verus!

//! The mailbox policies: memory-less (one slot per neighbour, overwritten
//! on arrival) and time-ordered (every message kept, drained most- or
//! least-recent first).

use crate::idmap::distinct_ids;
use crate::idmap::id_entries_map;
use crate::idmap::IdMap;
use crate::mailbox::Mailbox;
use crate::mailbox::Messages;
use crate::message::Message;
use vstd::prelude::*;

verus! {

/// A factory for mailboxes.
pub struct MailboxFactory;

impl MailboxFactory {
    /// A mailbox that keeps, for each neighbour, only the last message
    /// received.
    pub fn memory_less() -> (r: MemoryLessMailbox)
        ensures
            r.store() == Map::<int, Message>::empty(),
    {
        MemoryLessMailbox::new()
    }

    /// A mailbox that keeps every message and drains the most recent one
    /// per neighbour first.
    pub fn most_recent() -> (r: TimeOrderedMailbox)
        ensures
            r.queues() == Map::<int, Seq<Message>>::empty(),
            !r.drains_oldest_first(),
    {
        let r = TimeOrderedMailbox { messages: Vec::new(), pop_first: false };
        proof {
            assert(r.queues() =~= Map::<int, Seq<Message>>::empty());
        }
        r
    }

    /// A mailbox that keeps every message and drains the least recent one
    /// per neighbour first.
    pub fn least_recent() -> (r: TimeOrderedMailbox)
        ensures
            r.queues() == Map::<int, Seq<Message>>::empty(),
            r.drains_oldest_first(),
    {
        let r = TimeOrderedMailbox { messages: Vec::new(), pop_first: true };
        proof {
            assert(r.queues() =~= Map::<int, Seq<Message>>::empty());
        }
        r
    }
}

/// A mailbox holding one message per neighbour: a new message from a source
/// replaces the stored one.
pub struct MemoryLessMailbox {
    messages: Messages,
}

impl MemoryLessMailbox {
    /// The stored message per source.
    pub closed spec fn store(&self) -> Map<int, Message> {
        self.messages@
    }

    /// An empty mailbox.
    pub fn new() -> (r: Self)
        ensures
            r.store() == Map::<int, Message>::empty(),
    {
        MemoryLessMailbox { messages: IdMap::new() }
    }
}

impl Default for MemoryLessMailbox {
    /// The default mailbox is empty.
    fn default() -> (r: Self)
        ensures
            r.store() == Map::<int, Message>::empty(),
    {
        MemoryLessMailbox::new()
    }
}

impl Mailbox for MemoryLessMailbox {
    /// Store the message under its source, replacing any previous one.
    fn enqueue(&mut self, msg: Message)
        ensures
            final(self).store() == old(self).store().insert(msg.source as int, msg),
    {
        self.messages.insert(msg.source, msg);
    }

    /// The stored messages, one per source; the store is unchanged.
    fn messages(&mut self) -> (r: Messages)
        ensures
            final(self).store() == old(self).store(),
            r@.dom() == old(self).store().dom(),
            forall|k: int| r@.contains_key(k) ==> (#[trigger] r@[k]).source == old(
                self,
            ).store()[k].source && r@[k].export@ == old(self).store()[k].export@ && r@[k].timestamp
                == old(self).store()[k].timestamp,
    {
        let r = self.messages.clone();
        proof {
            assert forall|k: int| r@.contains_key(k) implies (#[trigger] r@[k]).source
                == self.store()[k].source && r@[k].export@ == self.store()[k].export@
                && r@[k].timestamp == self.store()[k].timestamp by {
                assert(vstd::pervasive::cloned::<Message>(self.store()[k], r@[k]));
            }
        }
        r
    }
}

/// Strictly increasing timestamps.
pub open spec fn time_sorted(q: Seq<Message>) -> bool {
    forall|i: int, j: int| 0 <= i < j < q.len() ==> q[i].timestamp < q[j].timestamp
}

/// Where a message lands in a time-sorted queue: before the first entry
/// with a later timestamp, replacing an entry with the same one.
pub open spec fn insert_by_time(q: Seq<Message>, m: Message) -> Seq<Message>
    decreases q.len(),
{
    if q.len() == 0 {
        seq![m]
    } else if m.timestamp < q[0].timestamp {
        seq![m] + q
    } else if m.timestamp == q[0].timestamp {
        seq![m] + q.drop_first()
    } else {
        seq![q[0]] + insert_by_time(q.drop_first(), m)
    }
}

/// A mailbox keeping every message per neighbour, ordered by timestamp, and
/// draining one per neighbour at each read: the most recent, or the least
/// recent.
pub struct TimeOrderedMailbox {
    messages: Vec<(i32, Vec<Message>)>,
    pop_first: bool,
}

impl TimeOrderedMailbox {
    #[verifier::type_invariant]
    closed spec fn wf(self) -> bool {
        &&& distinct_ids(self.messages@)
        &&& forall|i: int|
            0 <= i < self.messages@.len() ==> time_sorted(#[trigger] self.messages@[i].1@)
    }

    /// The queue of stored messages per source, oldest first.
    pub closed spec fn queues(&self) -> Map<int, Seq<Message>> {
        Map::new(
            |k: int| id_entries_map(self.messages@).contains_key(k),
            |k: int| id_entries_map(self.messages@)[k]@,
        )
    }

    /// Whether a read drains the least recent message per neighbour (true)
    /// or the most recent one (false).
    pub closed spec fn drains_oldest_first(&self) -> bool {
        self.pop_first
    }
}

impl Mailbox for TimeOrderedMailbox {
    /// File the message in its source's queue at its timestamp's place; a
    /// message with an already-present timestamp replaces the stored one.
    fn enqueue(&mut self, msg: Message)
        ensures
            final(self).drains_oldest_first() == old(self).drains_oldest_first(),
            final(self).queues() == old(self).queues().insert(
                msg.source as int,
                insert_by_time(
                    if old(self).queues().contains_key(msg.source as int) {
                        old(self).queues()[msg.source as int]
                    } else {
                        Seq::empty()
                    },
                    msg,
                ),
            ),
    {
        proof {
            use_type_invariant(&*self);
        }
        let ghost before = self.messages@;
        let source = msg.source;
        let pos = self.position(source);
        let mut es: Vec<(i32, Vec<Message>)> = Vec::new();
        core::mem::swap(&mut es, &mut self.messages);
        match pos {
            Some(i) => {
                let (eid, eq) = es.remove(i);
                proof {
                    crate::idmap::lemma_id_remove_others(before, i as int);
                    crate::idmap::lemma_id_entries_map_at(before, i as int);
                }
                let ghost oldq = eq@;
                let eq2 = insert_message(eq, msg);
                es.push((eid, eq2));
                core::mem::swap(&mut es, &mut self.messages);
                proof {
                    let mid = before.remove(i as int);
                    let after = self.messages@;
                    assert(after.drop_last() =~= mid);
                    assert(distinct_ids(after)) by {
                        assert forall|x: int| 0 <= x < mid.len() implies mid[x].0 != source by {
                            if x < i {
                                assert(mid[x] == before[x]);
                            } else {
                                assert(mid[x] == before[x + 1]);
                            }
                            assert(before[i as int].0 == source);
                        }
                        assert(forall|x: int, y: int|
                            0 <= x < y < after.len() - 1 ==> after[x] == mid[x] && after[y]
                                == mid[y]);
                    }
                    crate::idmap::lemma_id_entries_map(mid);
                    crate::idmap::lemma_id_entries_map(before);
                    assert(id_entries_map(after) == id_entries_map(mid).insert(
                        source as int,
                        after.last().1,
                    ));
                    assert(after.last().1@ == insert_by_time(oldq, msg));
                    assert(old(self).queues().contains_key(source as int));
                    assert(old(self).queues()[source as int] == oldq);
                    assert forall|x: int|
                        0 <= x < after.len() implies time_sorted(#[trigger] after[x].1@) by {
                        if x < after.len() - 1 {
                            assert(after[x] == mid[x]);
                            assert(mid[x] == if x < i { before[x] } else { before[x + 1] });
                        }
                    }
                    assert(self.queues() =~= old(self).queues().insert(
                        source as int,
                        insert_by_time(oldq, msg),
                    )) by {
                        crate::idmap::lemma_id_remove_others(before, i as int);
                        assert forall|k: int|
                            self.queues().contains_key(k) <==> old(self).queues().insert(
                                source as int,
                                insert_by_time(oldq, msg),
                            ).contains_key(k) by {
                            if k != source as int {
                                assert(id_entries_map(after).contains_key(k)
                                    <==> id_entries_map(mid).contains_key(k));
                            }
                        }
                        assert forall|k: int|
                            k != source as int && self.queues().contains_key(k) implies
                            self.queues()[k] == old(self).queues()[k] by {
                            assert(id_entries_map(after)[k] == id_entries_map(mid)[k]);
                            assert(id_entries_map(mid)[k] == id_entries_map(before)[k]);
                        }
                    }
                    assert(self.queues() =~= old(self).queues().insert(
                        msg.source as int,
                        insert_by_time(
                            if old(self).queues().contains_key(msg.source as int) {
                                old(self).queues()[msg.source as int]
                            } else {
                                Seq::empty()
                            },
                            msg,
                        ),
                    ));
                }
            },
            None => {
                let mut q: Vec<Message> = Vec::new();
                q.push(msg);
                es.push((source, q));
                core::mem::swap(&mut es, &mut self.messages);
                proof {
                    crate::idmap::lemma_id_entries_map(before);
                    assert(!old(self).queues().contains_key(source as int));
                    let after = self.messages@;
                    assert(after.drop_last() =~= before);
                    assert(distinct_ids(after)) by {
                        assert(forall|x: int| 0 <= x < before.len() ==> after[x] == before[x]);
                    }
                    assert(after.last().1@ =~= insert_by_time(Seq::empty(), after.last().1@[0]));
                    assert(self.queues() =~= old(self).queues().insert(
                        source as int,
                        insert_by_time(Seq::empty(), after.last().1@[0]),
                    ));
                }
            },
        }
    }

    /// Drain one message per neighbour that has any: the least recent under
    /// the oldest-first policy, the most recent otherwise. The drained
    /// message leaves its queue; empty queues yield nothing.
    fn messages(&mut self) -> (r: Messages)
        ensures
            final(self).drains_oldest_first() == old(self).drains_oldest_first(),
            final(self).queues().dom() == old(self).queues().dom(),
            forall|k: int|
                #[trigger] r@.contains_key(k) <==> (old(self).queues().contains_key(k) && old(
                    self,
                ).queues()[k].len() > 0),
            forall|k: int|
                r@.contains_key(k) ==> #[trigger] r@[k] == if old(self).drains_oldest_first() {
                    old(self).queues()[k].first()
                } else {
                    old(self).queues()[k].last()
                },
            forall|k: int|
                old(self).queues().contains_key(k) && old(self).queues()[k].len() > 0
                    ==> #[trigger] final(self).queues()[k] == if old(
                    self,
                ).drains_oldest_first() {
                    old(self).queues()[k].drop_first()
                } else {
                    old(self).queues()[k].drop_last()
                },
            forall|k: int|
                old(self).queues().contains_key(k) && old(self).queues()[k].len() == 0
                    ==> #[trigger] final(self).queues()[k] == old(self).queues()[k],
    {
        proof {
            use_type_invariant(&*self);
            crate::idmap::lemma_id_entries_map(self.messages@);
        }
        let ghost before = self.messages@;
        let mut es: Vec<(i32, Vec<Message>)> = Vec::new();
        core::mem::swap(&mut es, &mut self.messages);
        let mut kept: Vec<(i32, Vec<Message>)> = Vec::new();
        let mut result: Messages = IdMap::new();
        let n = es.len();
        let mut i: usize = 0;
        while i < n
            invariant
                0 <= i <= n,
                n == before.len(),
                es@ == before.subrange(i as int, n as int),
                distinct_ids(before),
                forall|j: int| 0 <= j < n ==> time_sorted(#[trigger] before[j].1@),
                kept@.len() == i,
                forall|j: int| 0 <= j < i ==> (#[trigger] kept@[j]).0 == before[j].0,
                forall|j: int|
                    0 <= j < i ==> (#[trigger] kept@[j]).1@ == if before[j].1@.len() == 0 {
                        before[j].1@
                    } else if self.pop_first {
                        before[j].1@.drop_first()
                    } else {
                        before[j].1@.drop_last()
                    },
                result@.dom() =~= Set::new(
                    |k: int| exists|j: int|
                        0 <= j < i && (#[trigger] before[j]).0 as int == k && before[j].1@.len()
                            > 0,
                ),
                forall|j: int|
                    0 <= j < i && before[j].1@.len() > 0 ==> result@[#[trigger] before[j].0 as int]
                        == if self.pop_first {
                        before[j].1@.first()
                    } else {
                        before[j].1@.last()
                    },
            decreases n - i,
        {
            proof {
                assert(before.subrange(i as int, n as int)[0] == before[i as int]);
            }
            let (id, q) = es.remove(0);
            proof {
                assert(es@ =~= before.subrange(i + 1, n as int));
                assert((id, q) == before[i as int]);
            }
            let mut q = q;
            let head = if self.pop_first {
                if q.len() > 0 {
                    Some(q.remove(0))
                } else {
                    None
                }
            } else {
                q.pop()
            };
            match head {
                Some(msg) => {
                    result.insert(id, msg);
                },
                None => (),
            }
            kept.push((id, q));
            proof {
                assert(result@.dom() =~= Set::new(
                    |k: int| exists|j: int|
                        0 <= j < i + 1 && (#[trigger] before[j]).0 as int == k
                            && before[j].1@.len() > 0,
                ));
                if before[i as int].1@.len() > 0 && self.pop_first {
                    assert(kept@[i as int].1@ =~= before[i as int].1@.drop_first());
                }
            }
            i += 1;
        }
        core::mem::swap(&mut kept, &mut self.messages);
        proof {
            let after = self.messages@;
            assert(distinct_ids(after)) by {
                assert(forall|x: int, y: int|
                    0 <= x < y < after.len() ==> after[x].0 == before[x].0 && after[y].0
                        == before[y].0);
            }
            assert forall|j: int| 0 <= j < after.len() implies time_sorted(
                #[trigger] after[j].1@,
            ) by {
                assert(time_sorted(before[j].1@));
                assert(after[j].1@.len() <= before[j].1@.len());
                if before[j].1@.len() > 0 {
                    if self.pop_first {
                        assert(forall|x: int|
                            0 <= x < after[j].1@.len() ==> after[j].1@[x] == before[j].1@[x + 1]);
                    } else {
                        assert(forall|x: int|
                            0 <= x < after[j].1@.len() ==> after[j].1@[x] == before[j].1@[x]);
                    }
                }
            }
            crate::idmap::lemma_id_entries_map(after);
            assert(self.queues().dom() =~= old(self).queues().dom()) by {
                assert forall|k: int|
                    id_entries_map(after).contains_key(k) <==> id_entries_map(
                        before,
                    ).contains_key(k) by {
                    if id_entries_map(after).contains_key(k) {
                        let j = choose|j: int| 0 <= j < after.len() && after[j].0 == k;
                        assert(before[j].0 == k);
                    }
                    if id_entries_map(before).contains_key(k) {
                        let j = choose|j: int| 0 <= j < before.len() && before[j].0 == k;
                        assert(after[j].0 == k);
                    }
                }
            }
            assert forall|k: int|
                #[trigger] result@.contains_key(k) <==> (old(self).queues().contains_key(k) && old(
                    self,
                ).queues()[k].len() > 0) by {
                if result@.contains_key(k) {
                    let j = choose|j: int|
                        0 <= j < before.len() && (#[trigger] before[j]).0 as int == k
                            && before[j].1@.len() > 0;
                    crate::idmap::lemma_id_entries_map_at(before, j);
                }
                if old(self).queues().contains_key(k) && old(self).queues()[k].len() > 0 {
                    let j = choose|j: int| 0 <= j < before.len() && before[j].0 == k;
                    crate::idmap::lemma_id_entries_map_at(before, j);
                    assert(result@.dom().contains(k)) by {
                        assert(0 <= j < before.len() && (before[j]).0 as int == k
                            && before[j].1@.len() > 0);
                    }
                }
            }
            assert forall|k: int| result@.contains_key(k) implies #[trigger] result@[k] == if self.pop_first {
                old(self).queues()[k].first()
            } else {
                old(self).queues()[k].last()
            } by {
                let j = choose|j: int|
                    0 <= j < before.len() && (#[trigger] before[j]).0 as int == k
                        && before[j].1@.len() > 0;
                crate::idmap::lemma_id_entries_map_at(before, j);
            }
            assert forall|k: int|
                old(self).queues().contains_key(k) && old(self).queues()[k].len()
                    > 0 implies #[trigger] self.queues()[k] == if self.pop_first {
                old(self).queues()[k].drop_first()
            } else {
                old(self).queues()[k].drop_last()
            } by {
                let j = choose|j: int| 0 <= j < before.len() && before[j].0 == k;
                crate::idmap::lemma_id_entries_map_at(before, j);
                crate::idmap::lemma_id_entries_map_at(after, j);
            }
            assert forall|k: int|
                old(self).queues().contains_key(k) && old(self).queues()[k].len()
                    == 0 implies #[trigger] self.queues()[k] == old(self).queues()[k] by {
                let j = choose|j: int| 0 <= j < before.len() && before[j].0 == k;
                crate::idmap::lemma_id_entries_map_at(before, j);
                crate::idmap::lemma_id_entries_map_at(after, j);
            }
        }
        result
    }
}

impl TimeOrderedMailbox {
    /// The position of `id` among the per-source entries, if present.
    fn position(&self, id: i32) -> (r: Option<usize>)
        ensures
            match r {
                Some(i) => i < self.messages@.len() && self.messages@[i as int].0 == id,
                None => forall|i: int| 0 <= i < self.messages@.len() ==> self.messages@[i].0 != id,
            },
    {
        let n = self.messages.len();
        let mut i: usize = 0;
        while i < n
            invariant
                0 <= i <= n,
                n == self.messages@.len(),
                forall|j: int| 0 <= j < i ==> self.messages@[j].0 != id,
            decreases n - i,
        {
            if self.messages[i].0 == id {
                return Some(i);
            }
            i += 1;
        }
        None
    }
}

/// File `msg` into the time-sorted `q` at its timestamp's place, replacing
/// a stored message with the same timestamp.
fn insert_message(q: Vec<Message>, msg: Message) -> (r: Vec<Message>)
    requires
        time_sorted(q@),
    ensures
        r@ == insert_by_time(q@, msg),
        time_sorted(r@),
{
    let ghost gq = q@;
    let n = q.len();
    let mut i: usize = 0;
    while i < n && q[i].timestamp < msg.timestamp
        invariant
            0 <= i <= n,
            n == gq.len(),
            q@ == gq,
            time_sorted(gq),
            forall|j: int| 0 <= j < i ==> (#[trigger] gq[j]).timestamp < msg.timestamp,
        decreases n - i,
    {
        i += 1;
    }
    let replace = i < n && q[i].timestamp == msg.timestamp;
    let ghost grep = replace;
    let ghost gi = i as int;
    let mut rest = q;
    let mut r: Vec<Message> = Vec::new();
    let mut j: usize = 0;
    while j < i
        invariant
            0 <= j <= i <= n,
            n == gq.len(),
            rest@ == gq.subrange(j as int, n as int),
            r@ == gq.subrange(0, j as int),
        decreases i - j,
    {
        proof {
            assert(gq.subrange(j as int, n as int)[0] == gq[j as int]);
        }
        let x = rest.remove(0);
        r.push(x);
        proof {
            assert(rest@ =~= gq.subrange(j + 1, n as int));
            assert(r@ =~= gq.subrange(0, j + 1));
        }
        j += 1;
    }
    if replace {
        let _ = rest.remove(0);
        proof {
            assert(rest@ =~= gq.subrange(gi + 1, n as int));
        }
    }
    r.push(msg);
    let ghost gtail_start: int = if grep {
        gi + 1
    } else {
        gi
    };
    let mut k: usize = 0;
    let tail_len = rest.len();
    while k < tail_len
        invariant
            0 <= k <= tail_len,
            n == gq.len(),
            tail_len == n - gtail_start,
            0 <= gtail_start <= n,
            rest@ == gq.subrange(gtail_start + k, n as int),
            r@ == gq.subrange(0, gi) + seq![msg] + gq.subrange(gtail_start, gtail_start + k),
        decreases tail_len - k,
    {
        proof {
            assert(gq.subrange(gtail_start + k, n as int)[0] == gq[gtail_start + k]);
        }
        let x = rest.remove(0);
        r.push(x);
        proof {
            assert(rest@ =~= gq.subrange(gtail_start + k + 1, n as int));
            assert(r@ =~= gq.subrange(0, gi) + seq![msg] + gq.subrange(
                gtail_start,
                gtail_start + k + 1,
            ));
        }
        k += 1;
    }
    proof {
        assert(r@ =~= gq.subrange(0, gi) + seq![msg] + gq.subrange(gtail_start, n as int));
        lemma_insert_exact(gq, msg, gi, grep);
    }
    r
}

/// The time-sorted insertion is the prefix of earlier messages, the new
/// message, then the rest (the stored message with the same timestamp, if
/// any, left out).
proof fn lemma_insert_exact(q: Seq<Message>, msg: Message, i: int, replace: bool)
    requires
        time_sorted(q),
        0 <= i <= q.len(),
        forall|j: int| 0 <= j < i ==> (#[trigger] q[j]).timestamp < msg.timestamp,
        i < q.len() ==> q[i].timestamp >= msg.timestamp,
        replace == (i < q.len() && q[i].timestamp == msg.timestamp),
    ensures
        insert_by_time(q, msg) =~= q.subrange(0, i) + seq![msg] + q.subrange(
            i + (if replace { 1int } else { 0 }),
            q.len() as int,
        ),
        time_sorted(
            q.subrange(0, i) + seq![msg] + q.subrange(
                i + (if replace { 1int } else { 0 }),
                q.len() as int,
            ),
        ),
    decreases q.len(),
{
    let res = q.subrange(0, i) + seq![msg] + q.subrange(
        i + (if replace { 1int } else { 0 }),
        q.len() as int,
    );
    assert forall|x: int, y: int| 0 <= x < y < res.len() implies res[x].timestamp
        < res[y].timestamp by {
        let off: int = if replace { 1int } else { 0 };
        if y > i {
            assert(res[y] == q[y - 1 + off]);
            assert(q[y - 1 + off].timestamp > msg.timestamp || (y - 1 + off > i));
        }
        if x > i {
            assert(res[x] == q[x - 1 + off]);
        }
    }
    if q.len() == 0 {
        assert(insert_by_time(q, msg) == seq![msg]);
    } else if msg.timestamp < q[0].timestamp {
        assert(i == 0);
        assert(insert_by_time(q, msg) == seq![msg] + q);
        assert(q.subrange(0, q.len() as int) =~= q);
    } else if msg.timestamp == q[0].timestamp {
        assert(i == 0 && replace);
        assert(insert_by_time(q, msg) == seq![msg] + q.drop_first());
    } else {
        assert(i >= 1);
        let q2 = q.drop_first();
        assert(time_sorted(q2)) by {
            assert(forall|x: int, y: int|
                0 <= x < y < q2.len() ==> q2[x] == q[x + 1] && q2[y] == q[y + 1]);
        }
        assert(forall|j: int| 0 <= j < i - 1 ==> (#[trigger] q2[j]).timestamp < msg.timestamp)
            by {
            assert(forall|j: int| 0 <= j < i - 1 ==> q2[j] == q[j + 1]);
        }
        assert(i - 1 < q2.len() ==> q2[i - 1] == q[i]);
        lemma_insert_exact(q2, msg, i - 1, replace);
        assert(insert_by_time(q, msg) == seq![q[0]] + insert_by_time(q2, msg));
        assert forall|l: int| 0 <= l < res.len() implies res[l] == (seq![q[0]] + insert_by_time(
            q2,
            msg,
        ))[l] by {
            let off: int = if replace { 1int } else { 0 };
            let inner = q2.subrange(0, i - 1) + seq![msg] + q2.subrange(
                i - 1 + off,
                q2.len() as int,
            );
            assert(insert_by_time(q2, msg) =~= inner);
            if l == 0 {
            } else if l < i {
                assert(res[l] == q[l]);
                assert(inner[l - 1] == q2[l - 1]);
                assert(q2[l - 1] == q[l]);
            } else if l == i {
                assert(res[l] == msg);
                assert(inner[l - 1] == msg);
            } else {
                assert(res[l] == q[l - 1 + off]);
                assert(inner[l - 1] == q2[l - 2 + off]);
                assert(q2[l - 2 + off] == q[l - 1 + off]);
            }
        }
        assert(insert_by_time(q, msg) =~= res);
    }
}

} // verus!

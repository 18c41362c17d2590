//! The computational core of one platform cycle: build the machine from the
//! context, run the round, and wrap the resulting export in a message. The
//! host around it gathers the mailbox, publishes the message and sleeps;
//! none of that is decided here.

use crate::context::Context;
use crate::execution::round;
use crate::execution::round_entry;
use crate::message::Message;
use crate::round_vm::callable;
use crate::round_vm::frame_res;
use crate::round_vm::RoundVM;
use crate::slot::Slot;
use crate::value::Val;
use vstd::prelude::*;

verus! {

/// What one cycle publishes: the message carries the device's id, the
/// round's export (the program's value at its root), and the given
/// timestamp.
pub open spec fn single_cycle_post<P: Fn(RoundVM) -> (RoundVM, Val)>(
    context: Context,
    program: P,
    timestamp: u64,
    r: (Message, Val),
) -> bool {
    &&& r.0.source == context.spec_self_id()
    &&& r.0.timestamp == timestamp
    &&& r.0.export@.contains_key(Seq::<Slot>::empty())
    &&& r.0.export@[Seq::<Slot>::empty()] == r.1
    &&& exists|v0: RoundVM, vp: RoundVM, m: RoundVM, v: Val|
        #![trigger round_entry(vp, v0), call_ensures(program, (vp,), (m, v))]
        {
            &&& v0.ctx() == context
            &&& v0.path_v() == Seq::<Slot>::empty()
            &&& v0.idx() == 0
            &&& v0.nbr_v() is None
            &&& !v0.iso()
            &&& v0.exps().len() == 0
            &&& round_entry(vp, v0)
            &&& call_ensures(program, (vp,), (m, v))
            &&& r.1 == v
            &&& m.wf() ==> r.0.export@ == m.export_map().insert(Seq::<Slot>::empty(), v)
        }
}

/// One round of the platform cycle: build a fresh machine over `context`,
/// run `program` on it, and wrap the device's export, with its id and
/// `timestamp`, into the message to publish. The round's value is returned
/// beside it.
pub fn single_cycle<P: Fn(RoundVM) -> (RoundVM, Val)>(
    context: Context,
    program: P,
    timestamp: u64,
) -> (r: (Message, Val))
    requires
        callable(program, context),
        frame_res(program),
    ensures
        single_cycle_post(context, program, timestamp, r),
{
    let self_id = context.self_id();
    let vm = RoundVM::new(context);
    let ghost gv0 = vm;
    let (vm2, res) = round(vm, program);
    let export = vm2.current_export();
    let msg = Message::new(self_id, export, timestamp);
    proof {
        let (vp, m, v) = choose|vp: RoundVM, m: RoundVM, v: Val|
            {
                &&& round_entry(vp, gv0)
                &&& #[trigger] call_ensures(program, (vp,), (m, v))
                &&& res == v
                &&& m.wf() ==> vm2.export_map() == m.export_map().insert(Seq::<Slot>::empty(), v)
                &&& vm2.ctx() == m.ctx()
                &&& vm2.iso() == m.iso()
                &&& vm2.path_v() == m.path_v()
                &&& vm2.idx() == m.idx()
                &&& vm2.nbr_v() == m.nbr_v()
                &&& vm2.stack_v() == m.stack_v()
                &&& vm2.exps().len() == m.exps().len()
            };
        assert(round_entry(vp, gv0) && call_ensures(program, (vp,), (m, res)));
    }
    (msg, res)
}

/// The neighbours not yet subscribed to: those of `nbrs` absent from
/// `discovered`, in order.
pub open spec fn fresh_ids(discovered: Seq<i32>, nbrs: Seq<i32>) -> Seq<i32>
    decreases nbrs.len(),
{
    if nbrs.len() == 0 {
        Seq::empty()
    } else {
        let rest = fresh_ids(discovered, nbrs.drop_last());
        if discovered.contains(nbrs.last()) {
            rest
        } else {
            rest + seq![nbrs.last()]
        }
    }
}

/// The ids among `nbrs` that `discovered` does not hold yet: the
/// subscriptions one platform cycle adds.
pub fn new_subscriptions(discovered: &Vec<i32>, nbrs: &Vec<i32>) -> (r: Vec<i32>)
    ensures
        r@ == fresh_ids(discovered@, nbrs@),
{
    let n = nbrs.len();
    let mut r: Vec<i32> = Vec::new();
    let mut i: usize = 0;
    while i < n
        invariant
            0 <= i <= n,
            n == nbrs@.len(),
            r@ == fresh_ids(discovered@, nbrs@.subrange(0, i as int)),
        decreases n - i,
    {
        let id = nbrs[i];
        if !contains_id(discovered, id) {
            r.push(id);
        }
        proof {
            assert(nbrs@.subrange(0, i + 1).drop_last() =~= nbrs@.subrange(0, i as int));
            assert(nbrs@.subrange(0, i + 1).last() == nbrs@[i as int]);
            if !discovered@.contains(nbrs@[i as int]) {
                assert(r@ =~= fresh_ids(discovered@, nbrs@.subrange(0, i as int)) + seq![
                    nbrs@[i as int],
                ]);
            }
        }
        i += 1;
    }
    proof {
        assert(nbrs@.subrange(0, n as int) =~= nbrs@);
    }
    r
}

/// Whether `v` holds `x`.
fn contains_id(v: &Vec<i32>, x: i32) -> (r: bool)
    ensures
        r == v@.contains(x),
{
    let n = v.len();
    let mut i: usize = 0;
    while i < n
        invariant
            0 <= i <= n,
            n == v@.len(),
            forall|j: int| 0 <= j < i ==> v@[j] != x,
        decreases n - i,
    {
        if v[i] == x {
            return true;
        }
        i += 1;
    }
    proof {
        if v@.contains(x) {
            let j = choose|j: int| 0 <= j < v@.len() && v@[j] == x;
        }
    }
    false
}

} // verus!

//! The round driver: run an aggregate program once against a machine and
//! record its top-level value at the root of the export.

use crate::round_vm::callable;
use crate::round_vm::frame_res;
use crate::round_vm::RoundVM;
use crate::slot::Slot;
use crate::value::Val;
use vstd::prelude::*;

verus! {

/// The machine a program starts on: the given one with one more, empty
/// export pushed onto the export stack.
pub open spec fn round_entry(v: RoundVM, pre: RoundVM) -> bool {
    &&& v.ctx() == pre.ctx()
    &&& v.iso() == pre.iso()
    &&& v.path_v() == pre.path_v()
    &&& v.idx() == pre.idx()
    &&& v.nbr_v() == pre.nbr_v()
    &&& v.stack_v() == pre.stack_v()
    &&& v.exps().len() == pre.exps().len() + 1
    &&& forall|i: int| 0 <= i < pre.exps().len() ==> v.exps()[i] == pre.exps()[i]
    &&& v.exps().last()@ == Map::<Seq<Slot>, Val>::empty()
}

/// What `round` yields: the program's result, also recorded at the root
/// path of the current export.
pub open spec fn round_post<P: Fn(RoundVM) -> (RoundVM, Val)>(
    pre: RoundVM,
    program: P,
    r: (RoundVM, Val),
) -> bool {
    exists|vp: RoundVM, m: RoundVM, v: Val|
        {
            &&& round_entry(vp, pre)
            &&& #[trigger] call_ensures(program, (vp,), (m, v))
            &&& r.1 == v
            &&& m.wf() ==> r.0.export_map() == m.export_map().insert(Seq::empty(), v)
            &&& r.0.ctx() == m.ctx()
            &&& r.0.iso() == m.iso()
            &&& r.0.path_v() == m.path_v()
            &&& r.0.idx() == m.idx()
            &&& r.0.nbr_v() == m.nbr_v()
            &&& r.0.stack_v() == m.stack_v()
            &&& r.0.exps().len() == m.exps().len()
        }
}

/// Run one round: push a fresh export, evaluate the program, and record its
/// value at the root path. The round returns the cursor to where it
/// started: the path, folding neighbour and saved stack are as before the
/// round (on a fresh machine, the initial state), and the export holds the
/// program's value at the root.
pub fn round<P: Fn(RoundVM) -> (RoundVM, Val)>(vm: RoundVM, program: P) -> (r: (RoundVM, Val))
    requires
        callable(program, vm.ctx()),
        frame_res(program),
    ensures
        r.0.wf(),
        r.0.export_map().contains_key(Seq::empty()),
        r.0.export_map()[Seq::empty()] == r.1,
        r.0.ctx() == vm.ctx(),
        r.0.iso() == vm.iso(),
        r.0.path_v() == vm.path_v(),
        r.0.nbr_v() == vm.nbr_v(),
        r.0.stack_v() == vm.stack_v(),
        r.0.idx() >= vm.idx(),
        round_post(vm, program, r),
{
    let ghost pre = vm;
    let mut vm = vm;
    vm.new_export_stack();
    proof {
        assert(round_entry(vm, pre));
    }
    let ghost vp = vm;
    let (mut vm2, res) = program(vm);
    let ghost m = vm2;
    let copy = res.clone();
    vm2.register_root(res);
    proof {
        assert(round_entry(vp, pre) && call_ensures(program, (vp,), (m, copy)));
    }
    (vm2, copy)
}

} // verus!

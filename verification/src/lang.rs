//! The aggregate operators. Each one establishes an alignment slot under
//! the current path, evaluates its body there, records its value in the
//! export when the machine is not acting as a pure neighbour read, and
//! advances the sibling index so the next site gets a distinct slot.

use crate::context::read_export_spec;
use crate::export::get_spec;
use crate::round_vm::aligned_spec;
use crate::round_vm::callable;
use crate::round_vm::callable2;
use crate::round_vm::folded_entry;
use crate::round_vm::frame_res;
use crate::round_vm::frame_res2;
use crate::round_vm::local_entry;
use crate::round_vm::nest_entry;
use crate::round_vm::op_frame;
use crate::round_vm::sat_inc;
use crate::round_vm::with_neighbour;
use crate::round_vm::RoundVM;
use crate::slot::Slot;
use crate::value::Val;
use crate::value::ValKind;
use vstd::prelude::*;

verus! {

/// What a site returns and records, given the machine `m` and value `val`
/// its body produced: when `write` holds and the site's path `p` does not
/// already read back in domain `kind`, the value is recorded at `p` and
/// yielded; a path that already reads back keeps and yields its value.
pub open spec fn site_out(
    p: Seq<Slot>,
    write: bool,
    kind: ValKind,
    m: RoundVM,
    val: Val,
    r: (RoundVM, Val),
) -> bool {
    &&& r.1 == if write {
        match get_spec(m.export_map(), p, kind) {
            Ok(w) => w,
            Err(_) => val,
        }
    } else {
        val
    }
    &&& m.wf() ==> r.0.export_map() == if write && !(get_spec(m.export_map(), p, kind) is Ok) {
        m.export_map().insert(p, val)
    } else {
        m.export_map()
    }
}

/// How the body of `nbr` behaves on machine `vin`: folding over another
/// device whose export reads back at the current path yields that value and
/// leaves the machine unchanged; otherwise the expression runs locally.
pub open spec fn nbr_inner_rel<F: Fn(RoundVM) -> (RoundVM, Val)>(
    vin: RoundVM,
    kind: ValKind,
    expr: F,
    out: (RoundVM, Val),
) -> bool {
    if vin.folding_on_other() {
        match read_export_spec(
            vin.ctx().spec_exports()@,
            vin.nbr_v()->Some_0 as int,
            vin.path_v(),
            kind,
        ) {
            Ok(v) => out.1 == v && out.0 == vin,
            Err(_) => call_ensures(expr, (vin,), out),
        }
    } else {
        call_ensures(expr, (vin,), out)
    }
}

/// What `nbr` yields: its body's behaviour at the site `Nbr(index)` under
/// the current path, recorded in the export unless folding over another
/// device.
pub open spec fn nbr_post<F: Fn(RoundVM) -> (RoundVM, Val)>(
    pre: RoundVM,
    kind: ValKind,
    expr: F,
    r: (RoundVM, Val),
) -> bool {
    let p = pre.path_v().push(Slot::Nbr(pre.idx()));
    exists|ve: RoundVM, m: RoundVM, val: Val|
        {
            &&& nest_entry(ve, pre, Slot::Nbr(pre.idx()))
            &&& #[trigger] nbr_inner_rel(ve, kind, expr, (m, val))
            &&& site_out(p, !pre.folding_on_other(), kind, m, val, r)
        }
}

/// Observe the value of an expression across neighbours.
///
/// Inside its site, folding over another device reads that device's last
/// export at the aligned path, falling back to the local expression when
/// the read fails; otherwise the expression is evaluated locally. The local
/// value is recorded at the site unless the machine is folding over another
/// device.
pub fn nbr<F: Fn(RoundVM) -> (RoundVM, Val) + Copy>(vm: RoundVM, kind: ValKind, expr: F) -> (r: (
    RoundVM,
    Val,
))
    requires
        vm.wf(),
        callable(expr, vm.ctx()),
        frame_res(expr),
    ensures
        op_frame(vm, r.0),
        r.0.idx() == sat_inc(vm.idx()),
        nbr_post(vm, kind, expr, r),
{
    let c: Ghost<crate::context::Context> = Ghost(vm.ctx());
    let ghost pre = vm;
    let idx = vm.index();
    let write = vm.unless_folding_on_others();
    let inner = |vin: RoundVM| -> (out: (RoundVM, Val))
        requires
            vin.wf(),
            vin.ctx() == c@,
            callable(expr, c@),
            frame_res(expr),
        ensures
            op_frame(vin, out.0),
            nbr_inner_rel(vin, kind, expr, out),
        {
            match vin.neighbor() {
                Some(n) => {
                    let self_id = vin.self_id();
                    if n != self_id {
                        match vin.neighbor_val(kind) {
                            Ok(v) => (vin, v),
                            Err(_) => expr(vin),
                        }
                    } else {
                        expr(vin)
                    }
                },
                None => expr(vin),
            }
        };
    let r = vm.nest(Slot::Nbr(idx), write, true, kind, inner);
    proof {
        let (ve, m, val) = choose|ve: RoundVM, m: RoundVM, val: Val|
            {
                &&& nest_entry(ve, pre, Slot::Nbr(pre.idx()))
                &&& #[trigger] call_ensures(inner, (ve,), (m, val))
                &&& r.1 == if write {
                    match get_spec(m.export_map(), m.path_v(), kind) {
                        Ok(w) => w,
                        Err(_) => val,
                    }
                } else {
                    val
                }
                &&& r.0.export_map() == if write && !(get_spec(m.export_map(), m.path_v(), kind)
                    is Ok) {
                    m.export_map().insert(m.path_v(), val)
                } else {
                    m.export_map()
                }
            };
        assert(m.path_v() == ve.path_v());
        assert(nest_entry(ve, pre, Slot::Nbr(pre.idx())) && nbr_inner_rel(ve, kind, expr, (m, val))
            && site_out(
            pre.path_v().push(Slot::Nbr(pre.idx())),
            !pre.folding_on_other(),
            kind,
            m,
            val,
            r,
        ));
    }
    r
}

/// How the body of `rep` behaves on machine `vin`: the previous round's
/// value at the current path, if the device's own last export holds one,
/// else the initial expression's value, is passed to the update function.
pub open spec fn rep_inner_rel<F: Fn(RoundVM) -> (RoundVM, Val), G: Fn(RoundVM, Val) -> (
    RoundVM,
    Val,
)>(vin: RoundVM, kind: ValKind, init: F, fun: G, out: (RoundVM, Val)) -> bool {
    match read_export_spec(
        vin.ctx().spec_exports()@,
        vin.sid() as int,
        vin.path_v(),
        kind,
    ) {
        Ok(prev) => call_ensures(fun, (vin, prev), out),
        Err(_) => exists|vmid: RoundVM, i0: Val|
            #[trigger] call_ensures(init, (vin,), (vmid, i0)) && call_ensures(
                fun,
                (vmid, i0),
                out,
            ),
    }
}

/// What `rep` yields: its body's behaviour at the site `Rep(index)` under
/// the current path, recorded in the export unless folding over another
/// device.
pub open spec fn rep_post<F: Fn(RoundVM) -> (RoundVM, Val), G: Fn(RoundVM, Val) -> (RoundVM, Val)>(
    pre: RoundVM,
    kind: ValKind,
    init: F,
    fun: G,
    r: (RoundVM, Val),
) -> bool {
    let p = pre.path_v().push(Slot::Rep(pre.idx()));
    exists|ve: RoundVM, m: RoundVM, val: Val|
        {
            &&& nest_entry(ve, pre, Slot::Rep(pre.idx()))
            &&& #[trigger] rep_inner_rel(ve, kind, init, fun, (m, val))
            &&& site_out(p, !pre.folding_on_other(), kind, m, val, r)
        }
}

/// Iteratively update a value: each round applies `fun` to the value the
/// device recorded at this site on its previous round, or to `init`'s value
/// on the first round.
pub fn rep<
    F: Fn(RoundVM) -> (RoundVM, Val) + Copy,
    G: Fn(RoundVM, Val) -> (RoundVM, Val) + Copy,
>(
    vm: RoundVM,
    kind: ValKind,
    init: F,
    fun: G,
) -> (r: (RoundVM, Val))
    requires
        vm.wf(),
        callable(init, vm.ctx()),
        frame_res(init),
        callable2(fun, vm.ctx()),
        frame_res2(fun),
    ensures
        op_frame(vm, r.0),
        r.0.idx() == sat_inc(vm.idx()),
        rep_post(vm, kind, init, fun, r),
{
    let c: Ghost<crate::context::Context> = Ghost(vm.ctx());
    let ghost pre = vm;
    let idx = vm.index();
    let write = vm.unless_folding_on_others();
    let inner = |vin: RoundVM| -> (out: (RoundVM, Val))
        requires
            vin.wf(),
            vin.ctx() == c@,
            callable(init, c@),
            frame_res(init),
            callable2(fun, c@),
            frame_res2(fun),
        ensures
            op_frame(vin, out.0),
            rep_inner_rel(vin, kind, init, fun, out),
        {
            let ghost gvin = vin;
            match vin.previous_round_val(kind) {
                Ok(prev) => fun(vin, prev),
                Err(_) => {
                    let (v1, i0) = init(vin);
                    let ghost gv1 = v1;
                    let out = fun(v1, i0);
                    proof {
                        lemma_op_frame_chain(gvin, gv1, out.0);
                    }
                    out
                },
            }
        };
    let r = vm.nest(Slot::Rep(idx), write, true, kind, inner);
    proof {
        let (ve, m, val) = choose|ve: RoundVM, m: RoundVM, val: Val|
            {
                &&& nest_entry(ve, pre, Slot::Rep(pre.idx()))
                &&& #[trigger] call_ensures(inner, (ve,), (m, val))
                &&& r.1 == if write {
                    match get_spec(m.export_map(), m.path_v(), kind) {
                        Ok(w) => w,
                        Err(_) => val,
                    }
                } else {
                    val
                }
                &&& r.0.export_map() == if write && !(get_spec(m.export_map(), m.path_v(), kind)
                    is Ok) {
                    m.export_map().insert(m.path_v(), val)
                } else {
                    m.export_map()
                }
            };
        assert(m.path_v() == ve.path_v());
        assert(nest_entry(ve, pre, Slot::Rep(pre.idx())) && rep_inner_rel(
            ve,
            kind,
            init,
            fun,
            (m, val),
        ) && site_out(
            pre.path_v().push(Slot::Rep(pre.idx())),
            !pre.folding_on_other(),
            kind,
            m,
            val,
            r,
        ));
    }
    r
}

proof fn lemma_op_frame_chain(a: RoundVM, b: RoundVM, c: RoundVM)
    requires
        op_frame(a, b),
        op_frame(b, c),
    ensures
        op_frame(a, c),
{
    crate::round_vm::lemma_op_frame_trans(a, b, c);
}

/// `after` is the machine `folded_eval` leaves from `m`, having entered
/// from `base`: the cursor is restored to `base`'s, everything else is
/// `m`'s.
pub open spec fn restored_from(after: RoundVM, m: RoundVM, base: RoundVM) -> bool {
    &&& after.ctx() == m.ctx()
    &&& after.iso() == m.iso()
    &&& after.exps() == m.exps()
    &&& after.path_v() == base.path_v()
    &&& after.idx() == base.idx()
    &&& after.nbr_v() == base.nbr_v()
    &&& after.stack_v() == base.stack_v()
}

/// One folded evaluation of `expr` over neighbour `id`, leading from machine
/// `before` to machine `after` and contributing `c`.
pub open spec fn contribution_rel<H: Fn(RoundVM) -> (RoundVM, Val)>(
    before: RoundVM,
    id: i32,
    expr: H,
    after: RoundVM,
    c: Val,
) -> bool {
    exists|vf: RoundVM, me: RoundVM|
        folded_entry(vf, before, id) && #[trigger] call_ensures(expr, (vf,), (me, c))
            && restored_from(after, me, before)
}

/// The fold over the aligned neighbours, starting from machine `v1` and
/// value `seed`: one contribution of `expr` per aligned id, combined left to
/// right by `aggr`.
pub open spec fn fold_chain<G: Fn(Val, Val) -> Val, H: Fn(RoundVM) -> (RoundVM, Val)>(
    v1: RoundVM,
    kind: ValKind,
    aggr: G,
    expr: H,
    seed: Val,
    out: (RoundVM, Val),
) -> bool {
    let ids = aligned_spec(v1.ctx(), v1.iso(), v1.path_v(), kind);
    exists|vms: Seq<RoundVM>, cs: Seq<Val>, accs: Seq<Val>|
        {
            &&& vms.len() == ids.len() + 1
            &&& cs.len() == ids.len()
            &&& accs.len() == ids.len() + 1
            &&& vms[0] == v1
            &&& accs[0] == seed
            &&& forall|i: int|
                0 <= i < ids.len() ==> contribution_rel(
                    vms[i],
                    ids[i],
                    expr,
                    #[trigger] vms[i + 1],
                    cs[i],
                )
            &&& forall|i: int|
                0 <= i < ids.len() ==> #[trigger] call_ensures(aggr, (accs[i], cs[i]), accs[i + 1])
            &&& out.0 == vms.last()
            &&& out.1 == accs.last()
        }
}

/// How the body of `foldhood` behaves on machine `vin`: the initial
/// expression is evaluated locally into a seed, and the contributions of
/// `expr` over the aligned neighbours are folded from it.
pub open spec fn foldhood_inner_rel<
    F: Fn(RoundVM) -> (RoundVM, Val),
    G: Fn(Val, Val) -> Val,
    H: Fn(RoundVM) -> (RoundVM, Val),
>(vin: RoundVM, kind: ValKind, init: F, aggr: G, expr: H, out: (RoundVM, Val)) -> bool {
    exists|vl: RoundVM, m0: RoundVM, seed: Val, v1: RoundVM|
        {
            &&& local_entry(vl, vin)
            &&& #[trigger] call_ensures(init, (vl,), (m0, seed))
            &&& with_neighbour(v1, m0, vin.nbr_v())
            &&& #[trigger] fold_chain(v1, kind, aggr, expr, seed, out)
        }
}

/// What `foldhood` yields: the fold of its body at the site
/// `FoldHood(index)` under the current path, always recorded in the export.
pub open spec fn foldhood_post<
    F: Fn(RoundVM) -> (RoundVM, Val),
    G: Fn(Val, Val) -> Val,
    H: Fn(RoundVM) -> (RoundVM, Val),
>(pre: RoundVM, kind: ValKind, init: F, aggr: G, expr: H, r: (RoundVM, Val)) -> bool {
    let p = pre.path_v().push(Slot::FoldHood(pre.idx()));
    exists|ve: RoundVM, m: RoundVM, val: Val|
        {
            &&& nest_entry(ve, pre, Slot::FoldHood(pre.idx()))
            &&& #[trigger] foldhood_inner_rel(ve, kind, init, aggr, expr, (m, val))
            &&& site_out(p, true, kind, m, val, r)
        }
}

/// Aggregate the results of a neighbour computation: evaluate `init`
/// locally into a seed, evaluate `expr` once per aligned neighbour (the
/// device itself first), and fold the contributions left to right from the
/// seed with `aggr`. The fold's value is always recorded at the site.
pub fn foldhood<
    F: Fn(RoundVM) -> (RoundVM, Val) + Copy,
    G: Fn(Val, Val) -> Val + Copy,
    H: Fn(RoundVM) -> (RoundVM, Val) + Copy,
>(vm: RoundVM, kind: ValKind, init: F, aggr: G, expr: H) -> (r: (RoundVM, Val))
    requires
        vm.wf(),
        callable(init, vm.ctx()),
        frame_res(init),
        callable(expr, vm.ctx()),
        frame_res(expr),
        forall|a: Val, b: Val| #[trigger] call_requires(aggr, (a, b)),
    ensures
        op_frame(vm, r.0),
        r.0.idx() == sat_inc(vm.idx()),
        r.0.export_map().contains_key(vm.path_v().push(Slot::FoldHood(vm.idx()))),
        foldhood_post(vm, kind, init, aggr, expr, r),
{
    let c: Ghost<crate::context::Context> = Ghost(vm.ctx());
    let ghost pre = vm;
    let idx = vm.index();
    let inner = |vin: RoundVM| -> (out: (RoundVM, Val))
        requires
            vin.wf(),
            vin.ctx() == c@,
            callable(init, c@),
            frame_res(init),
            callable(expr, c@),
            frame_res(expr),
            forall|a: Val, b: Val| #[trigger] call_requires(aggr, (a, b)),
        ensures
            op_frame(vin, out.0),
            foldhood_inner_rel(vin, kind, init, aggr, expr, out),
        {
            let ghost gvin = vin;
            let (v1, seed) = vin.locally(init);
            let ghost gv1 = v1;
            let ghost gseed = seed;
            proof {
                let (vl, m0, s0) = choose|vl: RoundVM, m0: RoundVM, s0: Val|
                    local_entry(vl, gvin) && #[trigger] call_ensures(init, (vl,), (m0, s0)) && s0
                        == gseed && with_neighbour(gv1, m0, gvin.nbr_v());
                assert(op_frame(vl, m0));
                assert(op_frame(gvin, gv1));
            }
            let ids = v1.aligned_neighbours(kind);
            let ghost gids = ids@;
            let n = ids.len();
            let mut cur = v1;
            let mut acc = seed;
            let ghost mut vms: Seq<RoundVM> = seq![gv1];
            let ghost mut cs: Seq<Val> = Seq::empty();
            let ghost mut accs: Seq<Val> = seq![gseed];
            let mut i: usize = 0;
            while i < n
                invariant
                    0 <= i <= n,
                    n == gids.len(),
                    ids@ == gids,
                    gids == aligned_spec(gv1.ctx(), gv1.iso(), gv1.path_v(), kind),
                    callable(expr, c@),
                    frame_res(expr),
                    forall|a: Val, b: Val| #[trigger] call_requires(aggr, (a, b)),
                    cur.wf(),
                    cur.ctx() == c@,
                    op_frame(gv1, cur),
                    vms.len() == i + 1,
                    cs.len() == i,
                    accs.len() == i + 1,
                    vms[0] == gv1,
                    accs[0] == gseed,
                    cur == vms.last(),
                    acc == accs.last(),
                    forall|j: int|
                        0 <= j < i ==> contribution_rel(
                            vms[j],
                            gids[j],
                            expr,
                            #[trigger] vms[j + 1],
                            cs[j],
                        ),
                    forall|j: int|
                        0 <= j < i ==> #[trigger] call_ensures(aggr, (accs[j], cs[j]), accs[j + 1]),
                decreases n - i,
            {
                let ghost before = cur;
                let id = ids[i];
                let (cur2, opt) = cur.folded_eval(expr, id);
                let contribution = match opt {
                    Some(cv) => cv,
                    None => acc.clone(),
                };
                proof {
                    let (vf, me, a) = choose|vf: RoundVM, me: RoundVM, a: Val|
                        folded_entry(vf, before, id) && #[trigger] call_ensures(
                            expr,
                            (vf,),
                            (me, a),
                        ) && Some(contribution) == Some(a) && cur2.ctx() == me.ctx() && cur2.iso()
                            == me.iso() && cur2.exps() == me.exps() && cur2.path_v()
                            == before.path_v() && cur2.idx() == before.idx() && cur2.nbr_v()
                            == before.nbr_v() && cur2.stack_v() == before.stack_v();
                    assert(contribution_rel(before, id, expr, cur2, contribution));
                    assert(op_frame(vf, me));
                    assert(op_frame(before, cur2));
                    lemma_op_frame_chain(gv1, before, cur2);
                }
                let acc2 = aggr(acc, contribution);
                proof {
                    vms = vms.push(cur2);
                    cs = cs.push(contribution);
                    accs = accs.push(acc2);
                }
                cur = cur2;
                acc = acc2;
                i += 1;
            }
            proof {
                lemma_op_frame_chain(gvin, gv1, cur);
                assert(foldhood_inner_rel(gvin, kind, init, aggr, expr, (cur, acc))) by {
                    let (vl, m0, s0) = choose|vl: RoundVM, m0: RoundVM, s0: Val|
                        local_entry(vl, gvin) && #[trigger] call_ensures(init, (vl,), (m0, s0))
                            && s0 == gseed && with_neighbour(gv1, m0, gvin.nbr_v());
                    assert(fold_chain(gv1, kind, aggr, expr, gseed, (cur, acc))) by {
                        assert(vms.len() == gids.len() + 1 && cs.len() == gids.len() && accs.len()
                            == gids.len() + 1 && vms[0] == gv1 && accs[0] == gseed && (cur, acc).0
                            == vms.last() && (cur, acc).1 == accs.last());
                    }
                }
            }
            (cur, acc)
        };
    let r = vm.nest(Slot::FoldHood(idx), true, true, kind, inner);
    proof {
        let (ve, m, val) = choose|ve: RoundVM, m: RoundVM, val: Val|
            {
                &&& nest_entry(ve, pre, Slot::FoldHood(pre.idx()))
                &&& #[trigger] call_ensures(inner, (ve,), (m, val))
                &&& r.1 == match get_spec(m.export_map(), m.path_v(), kind) {
                    Ok(w) => w,
                    Err(_) => val,
                }
                &&& r.0.export_map() == if !(get_spec(m.export_map(), m.path_v(), kind) is Ok) {
                    m.export_map().insert(m.path_v(), val)
                } else {
                    m.export_map()
                }
            };
        assert(m.path_v() == ve.path_v());
        assert(nest_entry(ve, pre, Slot::FoldHood(pre.idx())) && foldhood_inner_rel(
            ve,
            kind,
            init,
            aggr,
            expr,
            (m, val),
        ) && site_out(
            pre.path_v().push(Slot::FoldHood(pre.idx())),
            true,
            kind,
            m,
            val,
            r,
        ));
        if get_spec(m.export_map(), m.path_v(), kind) is Ok {
            assert(m.export_map().contains_key(pre.path_v().push(Slot::FoldHood(pre.idx()))));
        }
    }
    r
}

/// Componentwise equality of two machines.
pub open spec fn same_vm(a: RoundVM, b: RoundVM) -> bool {
    &&& a.ctx() == b.ctx()
    &&& a.iso() == b.iso()
    &&& a.path_v() == b.path_v()
    &&& a.idx() == b.idx()
    &&& a.nbr_v() == b.nbr_v()
    &&& a.stack_v() == b.stack_v()
    &&& a.exps() == b.exps()
}

/// How the body of `branch` behaves on machine `vin`: the condition is
/// evaluated locally; folding over another device reads that device's
/// export at the current path (a device absent there is outside the taken
/// branch); otherwise exactly the branch the condition selects is evaluated
/// locally, and the other is not evaluated at all.
pub open spec fn branch_inner_rel<
    B: Fn() -> bool,
    TH: Fn(RoundVM) -> (RoundVM, Val),
    EL: Fn(RoundVM) -> (RoundVM, Val),
>(vin: RoundVM, kind: ValKind, cond: B, thn: TH, els: EL, out: (RoundVM, Val)) -> bool {
    exists|tag: bool|
        {
            &&& #[trigger] call_ensures(cond, (), tag)
            &&& if vin.folding_on_other() {
                &&& read_export_spec(
                    vin.ctx().spec_exports()@,
                    vin.nbr_v()->Some_0 as int,
                    vin.path_v(),
                    kind,
                ) == Ok::<Val, crate::export::QueryError>(out.1)
                &&& same_vm(out.0, vin)
            } else {
                if tag {
                    exists|vb: RoundVM, mb: RoundVM|
                        local_entry(vb, vin) && #[trigger] call_ensures(thn, (vb,), (mb, out.1))
                            && with_neighbour(out.0, mb, vin.nbr_v())
                } else {
                    exists|vb: RoundVM, mb: RoundVM|
                        local_entry(vb, vin) && #[trigger] call_ensures(els, (vb,), (mb, out.1))
                            && with_neighbour(out.0, mb, vin.nbr_v())
                }
            }
        }
}

/// What `branch` yields: its body's behaviour at the site `Branch(index)`
/// under the current path, recorded in the export unless folding over
/// another device.
pub open spec fn branch_post<
    B: Fn() -> bool,
    TH: Fn(RoundVM) -> (RoundVM, Val),
    EL: Fn(RoundVM) -> (RoundVM, Val),
>(pre: RoundVM, kind: ValKind, cond: B, thn: TH, els: EL, r: (RoundVM, Val)) -> bool {
    let p = pre.path_v().push(Slot::Branch(pre.idx()));
    exists|ve: RoundVM, m: RoundVM, val: Val|
        {
            &&& nest_entry(ve, pre, Slot::Branch(pre.idx()))
            &&& #[trigger] branch_inner_rel(ve, kind, cond, thn, els, (m, val))
            &&& site_out(p, !pre.folding_on_other(), kind, m, val, r)
        }
}

/// Partition the domain: evaluate the condition locally, then exactly one
/// of the two branches; the untaken branch's paths are absent from the
/// export. Folding over another device instead reads that device's export
/// at the site, which must hold a value there: a neighbour absent at the
/// site is not in the taken branch, and such a read is a programming error.
pub fn branch<
    B: Fn() -> bool + Copy,
    TH: Fn(RoundVM) -> (RoundVM, Val) + Copy,
    EL: Fn(RoundVM) -> (RoundVM, Val) + Copy,
>(vm: RoundVM, kind: ValKind, cond: B, thn: TH, els: EL) -> (r: (RoundVM, Val))
    requires
        vm.wf(),
        call_requires(cond, ()),
        callable(thn, vm.ctx()),
        frame_res(thn),
        callable(els, vm.ctx()),
        frame_res(els),
        vm.folding_on_other() ==> read_export_spec(
            vm.ctx().spec_exports()@,
            vm.nbr_v()->Some_0 as int,
            vm.path_v().push(Slot::Branch(vm.idx())),
            kind,
        ) is Ok,
    ensures
        op_frame(vm, r.0),
        r.0.idx() == sat_inc(vm.idx()),
        branch_post(vm, kind, cond, thn, els, r),
{
    let c: Ghost<crate::context::Context> = Ghost(vm.ctx());
    let ghost pre = vm;
    let idx = vm.index();
    let write = vm.unless_folding_on_others();
    let inner = |vin: RoundVM| -> (out: (RoundVM, Val))
        requires
            vin.wf(),
            vin.ctx() == c@,
            call_requires(cond, ()),
            callable(thn, c@),
            frame_res(thn),
            callable(els, c@),
            frame_res(els),
            vin.folding_on_other() ==> read_export_spec(
                vin.ctx().spec_exports()@,
                vin.nbr_v()->Some_0 as int,
                vin.path_v(),
                kind,
            ) is Ok,
        ensures
            op_frame(vin, out.0),
            branch_inner_rel(vin, kind, cond, thn, els, out),
        {
            let ghost gvin = vin;
            let cond_eval = |v: RoundVM| -> (o: (RoundVM, bool))
                requires
                    call_requires(cond, ()),
                ensures
                    same_vm(o.0, v),
                    call_ensures(cond, (), o.1),
                {
                    let b = cond();
                    (v, b)
                };
            let (v1, tag) = vin.locally(cond_eval);
            let ghost gv1 = v1;
            let ghost gtag = tag;
            proof {
                let (vl, m0, t0) = choose|vl: RoundVM, m0: RoundVM, t0: bool|
                    local_entry(vl, gvin) && #[trigger] call_ensures(cond_eval, (vl,), (m0, t0))
                        && t0 == gtag && with_neighbour(gv1, m0, gvin.nbr_v());
                assert(same_vm(gv1, gvin));
                assert(call_ensures(cond, (), gtag));
            }
            match folding_neighbour(&v1) {
                Some(_) => {
                    match v1.neighbor_val(kind) {
                        Ok(v) => (v1, v),
                        Err(_) => {
                            proof {
                                assert(false);
                            }
                            (v1, Val::Bool(false))
                        },
                    }
                },
                None => {
                    let out = if tag {
                        v1.locally(thn)
                    } else {
                        v1.locally(els)
                    };
                    proof {
                        let branch_taken: bool = gtag;
                        if gtag {
                            let (vb, mb, a) = choose|vb: RoundVM, mb: RoundVM, a: Val|
                                local_entry(vb, gv1) && #[trigger] call_ensures(
                                    thn,
                                    (vb,),
                                    (mb, a),
                                ) && a == out.1 && with_neighbour(out.0, mb, gv1.nbr_v());
                            assert(local_entry(vb, gvin));
                            assert(op_frame(vb, mb));
                            assert(op_frame(gvin, out.0));
                        } else {
                            let (vb, mb, a) = choose|vb: RoundVM, mb: RoundVM, a: Val|
                                local_entry(vb, gv1) && #[trigger] call_ensures(
                                    els,
                                    (vb,),
                                    (mb, a),
                                ) && a == out.1 && with_neighbour(out.0, mb, gv1.nbr_v());
                            assert(local_entry(vb, gvin));
                            assert(op_frame(vb, mb));
                            assert(op_frame(gvin, out.0));
                        }
                    }
                    out
                },
            }
        };
    let r = vm.nest(Slot::Branch(idx), write, true, kind, inner);
    proof {
        let (ve, m, val) = choose|ve: RoundVM, m: RoundVM, val: Val|
            {
                &&& nest_entry(ve, pre, Slot::Branch(pre.idx()))
                &&& #[trigger] call_ensures(inner, (ve,), (m, val))
                &&& r.1 == if write {
                    match get_spec(m.export_map(), m.path_v(), kind) {
                        Ok(w) => w,
                        Err(_) => val,
                    }
                } else {
                    val
                }
                &&& r.0.export_map() == if write && !(get_spec(m.export_map(), m.path_v(), kind)
                    is Ok) {
                    m.export_map().insert(m.path_v(), val)
                } else {
                    m.export_map()
                }
            };
        assert(m.path_v() == ve.path_v());
        assert(nest_entry(ve, pre, Slot::Branch(pre.idx())) && branch_inner_rel(
            ve,
            kind,
            cond,
            thn,
            els,
            (m, val),
        ) && site_out(
            pre.path_v().push(Slot::Branch(pre.idx())),
            !pre.folding_on_other(),
            kind,
            m,
            val,
            r,
        ));
    }
    r
}

/// The folding neighbour of `v` when it is another device; `None` when not
/// folding or folding over the device itself.
fn folding_neighbour(v: &RoundVM) -> (r: Option<i32>)
    ensures
        r is Some <==> v.folding_on_other(),
        r is Some ==> r->Some_0 == v.nbr_v()->Some_0,
{
    match v.neighbor() {
        Some(n) => {
            if n != v.self_id() {
                Some(n)
            } else {
                None
            }
        },
        None => None,
    }
}

/// The id of the current device. No slot is established.
pub fn mid(vm: RoundVM) -> (r: (RoundVM, i32))
    ensures
        r.0 == vm,
        r.1 == vm.sid(),
{
    let id = vm.self_id();
    (vm, id)
}

} // verus!

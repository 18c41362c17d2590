//! The laws of the runtime that relate several functions: determinism of a
//! round, distinctness of sibling sites, the local reading of `nbr`, and
//! the value of `foldhood_plus` on a field of one device. Each is proved
//! from the operators' contracts alone.

use crate::builtins::fp_chain;
use crate::builtins::fp_contribution_rel;
use crate::builtins::fp_expr_rel;
use crate::builtins::fp_post;
use crate::builtins::nbr_mid_rel;
use crate::execution::round_entry;
use crate::execution::round_post;
use crate::export::get_spec;
use crate::lang::nbr_inner_rel;
use crate::lang::nbr_post;
use crate::lang::restored_from;
use crate::lang::same_vm;
use crate::lang::site_out;
use crate::round_vm::aligned_spec;
use crate::round_vm::folded_entry;
use crate::round_vm::frame_res;
use crate::round_vm::local_entry;
use crate::round_vm::nest_entry;
use crate::round_vm::op_frame;
use crate::round_vm::sat_inc;
use crate::round_vm::with_neighbour;
use crate::round_vm::RoundVM;
use crate::slot::Slot;
use crate::value::val_eq;
use crate::value::Val;
use crate::value::ValKind;
use vstd::prelude::*;

verus! {

/// Observational equality of two machines: same context value, same cursor
/// and flags, and export stacks that read the same at every path.
pub open spec fn vm_obs_eq(a: RoundVM, b: RoundVM) -> bool {
    &&& a.ctx() == b.ctx()
    &&& a.iso() == b.iso()
    &&& a.path_v() == b.path_v()
    &&& a.idx() == b.idx()
    &&& a.nbr_v() == b.nbr_v()
    &&& a.stack_v() == b.stack_v()
    &&& a.exps().len() == b.exps().len()
    &&& forall|i: int| 0 <= i < a.exps().len() ==> (#[trigger] a.exps()[i])@ == b.exps()[i]@
}

/// Determinism of a round: two programs that, on observationally equal
/// machines, can only produce one and the same value and observationally
/// equal machines, run on identical contexts through `round`, yield equal
/// values and exports that read the same at every path.
pub proof fn lemma_round_deterministic<
    P1: Fn(RoundVM) -> (RoundVM, Val),
    P2: Fn(RoundVM) -> (RoundVM, Val),
>(
    pre1: RoundVM,
    pre2: RoundVM,
    p1: P1,
    p2: P2,
    r1: (RoundVM, Val),
    r2: (RoundVM, Val),
)
    requires
        vm_obs_eq(pre1, pre2),
        round_post(pre1, p1, r1),
        round_post(pre2, p2, r2),
        forall|v1: RoundVM, v2: RoundVM, o1: (RoundVM, Val), o2: (RoundVM, Val)|
            vm_obs_eq(v1, v2) && #[trigger] call_ensures(p1, (v1,), o1) && #[trigger] call_ensures(
                p2,
                (v2,),
                o2,
            ) ==> o1.1 == o2.1 && vm_obs_eq(o1.0, o2.0),
    ensures
        r1.1 == r2.1,
        r1.0.wf() && r2.0.wf() ==> r1.0.export_map() == r2.0.export_map(),
{
    let (vp1, m1, v1) = choose|vp: RoundVM, m: RoundVM, v: Val|
        {
            &&& round_entry(vp, pre1)
            &&& #[trigger] call_ensures(p1, (vp,), (m, v))
            &&& r1.1 == v
            &&& m.wf() ==> r1.0.export_map() == m.export_map().insert(Seq::empty(), v)
            &&& r1.0.exps().len() == m.exps().len()
        };
    let (vp2, m2, v2) = choose|vp: RoundVM, m: RoundVM, v: Val|
        {
            &&& round_entry(vp, pre2)
            &&& #[trigger] call_ensures(p2, (vp,), (m, v))
            &&& r2.1 == v
            &&& m.wf() ==> r2.0.export_map() == m.export_map().insert(Seq::empty(), v)
            &&& r2.0.exps().len() == m.exps().len()
        };
    assert(vm_obs_eq(vp1, vp2)) by {
        assert(forall|i: int|
            0 <= i < vp1.exps().len() ==> (#[trigger] vp1.exps()[i])@ == vp2.exps()[i]@);
    }
    assert(v1 == v2 && vm_obs_eq(m1, m2));
    if r1.0.wf() && r2.0.wf() {
        assert(m1.exps()[0]@ == m2.exps()[0]@);
        assert(r1.0.export_map() =~= r2.0.export_map());
    }
}

/// Distinct sibling sites: two operator sites fired in sequence at the same
/// nesting level carry distinct slots, whatever their construct kinds, so
/// their alignment paths differ.
pub proof fn lemma_sibling_sites_distinct(path: Seq<Slot>, k1: Slot, k2: Slot)
    requires
        k1.index() < i32::MAX,
        k2.index() == sat_inc(k1.index()),
    ensures
        k1 != k2,
        path.push(k1) != path.push(k2),
{
    assert(path.push(k1).last() == k1);
    assert(path.push(k2).last() == k2);
}

/// The local reading of `nbr`: outside folding over another device, on a
/// site whose path does not already read back, `nbr` yields the local value
/// of its expression and records that value at the site.
pub proof fn lemma_nbr_local<F: Fn(RoundVM) -> (RoundVM, Val)>(
    pre: RoundVM,
    kind: ValKind,
    expr: F,
    r: (RoundVM, Val),
    v0: Val,
)
    requires
        pre.wf(),
        nbr_post(pre, kind, expr, r),
        frame_res(expr),
        !pre.folding_on_other(),
        forall|x: RoundVM, out: (RoundVM, Val)| #[trigger] call_ensures(expr, (x,), out)
            ==> out.1 == v0,
        !(get_spec(pre.export_map(), pre.path_v().push(Slot::Nbr(pre.idx())), kind) is Ok),
    ensures
        r.1 == v0,
        r.0.export_map().contains_key(pre.path_v().push(Slot::Nbr(pre.idx()))),
        r.0.export_map()[pre.path_v().push(Slot::Nbr(pre.idx()))] == v0,
{
    let p = pre.path_v().push(Slot::Nbr(pre.idx()));
    let (ve, m, val) = choose|ve: RoundVM, m: RoundVM, val: Val|
        {
            &&& nest_entry(ve, pre, Slot::Nbr(pre.idx()))
            &&& #[trigger] nbr_inner_rel(ve, kind, expr, (m, val))
            &&& site_out(p, !pre.folding_on_other(), kind, m, val, r)
        };
    assert(call_ensures(expr, (ve,), (m, val)));
    assert(val == v0);
    assert(op_frame(ve, m));
    assert(ve.export_map() == pre.export_map());
    assert(ve.path_v() == p);
    assert(get_spec(m.export_map(), p, kind) == get_spec(pre.export_map(), p, kind)) by {
        if m.export_map().contains_key(p) {
            if !ve.export_map().contains_key(p) {
                assert(ve.path_v().is_prefix_of(p) && p.len() > ve.path_v().len());
            } else {
                assert(!(ve.path_v().is_prefix_of(p) && p.len() > ve.path_v().len()));
                assert(m.export_map()[p] == ve.export_map()[p]);
            }
        } else {
            assert(!pre.export_map().contains_key(p));
        }
    }
}

/// The value of `foldhood_plus` on a field of one device: when only the
/// device itself is aligned at the fold's site, the initial expression is
/// pure and always yields `i0`, the combiner maps `(i0, i0)` back to `i0`,
/// and neither the fold's site nor its first neighbour site already reads
/// back, the fold yields `i0`.
///
/// Without these hypotheses the law fails: with an initial value of one and
/// addition as the combiner, a field of one device folds one own
/// contribution of one onto the seed of one, yielding two.
pub proof fn lemma_foldhood_plus_self_only<
    F: Fn(RoundVM) -> (RoundVM, Val),
    G: Fn(Val, Val) -> Val,
    H: Fn(RoundVM) -> (RoundVM, Val),
>(pre: RoundVM, kind: ValKind, init: F, aggr: G, expr: H, r: (RoundVM, Val), i0: Val)
    requires
        pre.wf(),
        fp_post(pre, kind, init, aggr, expr, r),
        frame_res(expr),
        aligned_spec(pre.ctx(), pre.iso(), pre.path_v().push(Slot::FoldHood(pre.idx())), kind)
            == seq![pre.sid()],
        forall|x: RoundVM, out: (RoundVM, Val)| #[trigger] call_ensures(init, (x,), out)
            ==> out.0 == x && out.1 == i0,
        forall|o: Val| #[trigger] call_ensures(aggr, (i0, i0), o) ==> o == i0,
        !(get_spec(pre.export_map(), pre.path_v().push(Slot::FoldHood(pre.idx())), kind) is Ok),
        !(get_spec(
            pre.export_map(),
            pre.path_v().push(Slot::FoldHood(pre.idx())).push(Slot::Nbr(0)),
            ValKind::Int,
        ) is Ok),
    ensures
        r.1 == i0,
{
    let p = pre.path_v().push(Slot::FoldHood(pre.idx()));
    let (ve, m, val, vl, m0, seed, v1) = choose|
        ve: RoundVM,
        m: RoundVM,
        val: Val,
        vl: RoundVM,
        m0: RoundVM,
        seed: Val,
        v1: RoundVM,
    |
        #![trigger nest_entry(ve, pre, Slot::FoldHood(pre.idx())), call_ensures(init, (vl,), (m0, seed)), fp_chain(v1, kind, init, aggr, expr, seed, (m, val))]
        {
            &&& nest_entry(ve, pre, Slot::FoldHood(pre.idx()))
            &&& local_entry(vl, ve)
            &&& call_ensures(init, (vl,), (m0, seed))
            &&& with_neighbour(v1, m0, ve.nbr_v())
            &&& fp_chain(v1, kind, init, aggr, expr, seed, (m, val))
            &&& site_out(p, true, kind, m, val, r)
        };
    assert(m0 == vl && seed == i0);
    assert(v1.ctx() == pre.ctx() && v1.iso() == pre.iso() && v1.path_v() == p && v1.idx() == 0);
    assert(v1.exps() == pre.exps());
    let ids = aligned_spec(v1.ctx(), v1.iso(), v1.path_v(), kind);
    assert(ids == seq![pre.sid()]);
    let (vms, cs, accs) = choose|vms: Seq<RoundVM>, cs: Seq<Val>, accs: Seq<Val>|
        {
            &&& vms.len() == ids.len() + 1
            &&& cs.len() == ids.len()
            &&& accs.len() == ids.len() + 1
            &&& vms[0] == v1
            &&& accs[0] == seed
            &&& forall|i: int|
                0 <= i < ids.len() ==> fp_contribution_rel(
                    vms[i],
                    ids[i],
                    init,
                    expr,
                    #[trigger] vms[i + 1],
                    cs[i],
                )
            &&& forall|i: int|
                0 <= i < ids.len() ==> #[trigger] call_ensures(aggr, (accs[i], cs[i]), accs[i + 1])
            &&& (m, val).0 == vms.last()
            &&& (m, val).1 == accs.last()
        };
    assert(ids.len() == 1 && ids[0] == pre.sid());
    assert(fp_contribution_rel(vms[0], pre.sid(), init, expr, vms[1], cs[0]));
    let (vf, me) = choose|vf: RoundVM, me: RoundVM|
        folded_entry(vf, v1, pre.sid()) && #[trigger] fp_expr_rel(vf, init, expr, (me, cs[0]))
            && restored_from(vms[1], me, v1);
    assert(vf.sid() == pre.sid() && vf.nbr_v() == Some(pre.sid()));
    assert(!vf.folding_on_other());
    assert(vf.path_v() == p && vf.idx() == 0);
    assert(vf.exps() == pre.exps());
    let (v2, nv, v2c, m4, tv, m5, ev) = choose|
        v2: RoundVM,
        nv: Val,
        v2c: RoundVM,
        m4: RoundVM,
        tv: Val,
        m5: RoundVM,
        ev: Val,
    |
        #![trigger nbr_mid_rel(vf, v2, nv), call_ensures(init, (v2c,), (m4, tv)), call_ensures(expr, (m4,), (m5, ev))]
        {
            &&& nbr_mid_rel(vf, v2, nv)
            &&& same_vm(v2c, v2)
            &&& call_ensures(init, (v2c,), (m4, tv))
            &&& call_ensures(expr, (m4,), (m5, ev))
            &&& (me, cs[0]).0 == m5
            &&& (me, cs[0]).1 == if val_eq(nv, Val::Int(vf.sid())) {
                tv
            } else {
                ev
            }
        };
    let pn = p.push(Slot::Nbr(0));
    assert(vf.export_map() == pre.export_map());
    assert(nv == Val::Int(pre.sid()));
    assert(val_eq(nv, Val::Int(vf.sid())));
    assert(cs[0] == tv && tv == i0);
    assert(accs.len() == 2 && accs[1] == val);
    assert(call_ensures(aggr, (i0, cs[0]), accs[1]));
    assert(val == i0);
    // Nothing along the fold writes at the fold's own site, so the recorded
    // value is the fold's.
    assert(m == vms[1] && m.exps() == me.exps() && me == m5);
    assert(m4 == v2c);
    assert(v2c.exps() == v2.exps());
    assert(op_frame(m4, m5));
    assert(get_spec(m.export_map(), p, kind) == get_spec(pre.export_map(), p, kind)) by {
        assert(v2.export_map() == if get_spec(vf.export_map(), pn, ValKind::Int) is Ok {
            vf.export_map()
        } else {
            vf.export_map().insert(pn, Val::Int(vf.sid()))
        });
        assert(pn.len() > p.len());
        assert(v2.export_map().contains_key(p) == pre.export_map().contains_key(p));
        assert(m4.path_v() == p) by {
            assert(v2.path_v() == vf.path_v());
        }
        if m5.export_map().contains_key(p) {
            if m4.export_map().contains_key(p) {
                assert(!(m4.path_v().is_prefix_of(p) && p.len() > m4.path_v().len()));
                assert(m5.export_map()[p] == m4.export_map()[p]);
                assert(m4.export_map()[p] == pre.export_map()[p]);
            } else {
                assert(m4.path_v().is_prefix_of(p) && p.len() > m4.path_v().len());
            }
        } else {
            assert(!pre.export_map().contains_key(p));
        }
    }
    assert(r.1 == val);
}

} // verus!

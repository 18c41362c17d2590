//! The derived operators, pure compositions of the primitives: `mux`, which
//! evaluates both branches and selects one, and `foldhood_plus`, a fold that
//! excludes the device's own contribution.

use crate::lang::foldhood;
use crate::lang::mid;
use crate::lang::nbr;
use crate::lang::restored_from;
use crate::export::get_spec;
use crate::round_vm::aligned_spec;
use crate::round_vm::callable;
use crate::round_vm::folded_entry;
use crate::round_vm::frame_res;
use crate::round_vm::lemma_op_frame_trans;
use crate::round_vm::local_entry;
use crate::round_vm::nest_entry;
use crate::round_vm::op_frame;
use crate::round_vm::sat_inc;
use crate::round_vm::with_neighbour;
use crate::round_vm::RoundVM;
use crate::lang::site_out;
use crate::lang::same_vm;
use crate::lang::nbr_inner_rel;
use crate::lang::foldhood_inner_rel;
use crate::lang::fold_chain;
use crate::lang::contribution_rel;
use crate::slot::Slot;
use crate::value::val_eq;
use crate::value::Val;
use crate::value::ValKind;
use vstd::prelude::*;

verus! {

/// What `mux` yields: the condition and both branches evaluated in order,
/// and the value of the branch the condition selects.
pub open spec fn mux_post<
    A,
    C: Fn(RoundVM) -> (RoundVM, bool),
    TH: Fn(RoundVM) -> (RoundVM, A),
    EL: Fn(RoundVM) -> (RoundVM, A),
>(pre: RoundVM, cond: C, th: TH, el: EL, r: (RoundVM, A)) -> bool {
    exists|v1: RoundVM, flag: bool, v2: RoundVM, tv: A, v3: RoundVM, ev: A|
        #![trigger call_ensures(cond, (pre,), (v1, flag)), call_ensures(th, (v1,), (v2, tv)), call_ensures(el, (v2,), (v3, ev))]
        {
            &&& call_ensures(cond, (pre,), (v1, flag))
            &&& call_ensures(th, (v1,), (v2, tv))
            &&& call_ensures(el, (v2,), (v3, ev))
            &&& r.0 == v3
            &&& r.1 == if flag {
                tv
            } else {
                ev
            }
        }
}

/// Evaluate the condition and both branches, and return the value of the
/// branch the condition selects. Unlike `branch`, both branches run and
/// record their sites in the export, so both stay aligned across the field.
pub fn mux<
    A,
    C: Fn(RoundVM) -> (RoundVM, bool),
    TH: Fn(RoundVM) -> (RoundVM, A),
    EL: Fn(RoundVM) -> (RoundVM, A),
>(vm: RoundVM, cond: C, th: TH, el: EL) -> (r: (RoundVM, A))
    requires
        vm.wf(),
        callable(cond, vm.ctx()),
        frame_res(cond),
        callable(th, vm.ctx()),
        frame_res(th),
        callable(el, vm.ctx()),
        frame_res(el),
    ensures
        op_frame(vm, r.0),
        mux_post(vm, cond, th, el, r),
{
    let ghost pre = vm;
    let (v1, flag) = cond(vm);
    let ghost gv1 = v1;
    let (v2, th_val) = th(v1);
    let ghost gv2 = v2;
    let (v3, el_val) = el(v2);
    let ghost gv3 = v3;
    proof {
        lemma_op_frame_trans(pre, gv1, gv2);
        lemma_op_frame_trans(pre, gv2, gv3);
    }
    if flag {
        (v3, th_val)
    } else {
        (v3, el_val)
    }
}

/// What `nbr(mid())` yields on machine `vin`: folding over another device
/// reads that device's id entry at the `Nbr` site; otherwise the site
/// yields (and, if absent, records) the device's own id.
pub open spec fn nbr_mid_rel(vin: RoundVM, v2: RoundVM, nv: Val) -> bool {
    let p = vin.path_v().push(Slot::Nbr(vin.idx()));
    &&& v2.ctx() == vin.ctx()
    &&& v2.iso() == vin.iso()
    &&& v2.path_v() == vin.path_v()
    &&& v2.nbr_v() == vin.nbr_v()
    &&& v2.stack_v() == vin.stack_v()
    &&& v2.idx() == sat_inc(vin.idx())
    &&& v2.exps().len() == vin.exps().len()
    &&& if vin.folding_on_other() {
        match crate::context::read_export_spec(
            vin.ctx().spec_exports()@,
            vin.nbr_v()->Some_0 as int,
            p,
            ValKind::Int,
        ) {
            Ok(v) => nv == v && (vin.wf() ==> v2.export_map() == vin.export_map()),
            Err(_) => nv == Val::Int(vin.sid()) && (vin.wf() ==> v2.export_map()
                == vin.export_map()),
        }
    } else {
        &&& vin.wf() ==> nv == match get_spec(vin.export_map(), p, ValKind::Int) {
            Ok(w) => w,
            Err(_) => Val::Int(vin.sid()),
        }
        &&& vin.wf() ==> v2.export_map() == if get_spec(vin.export_map(), p, ValKind::Int) is Ok {
            vin.export_map()
        } else {
            vin.export_map().insert(p, Val::Int(vin.sid()))
        }
    }
}

/// How the per-neighbour expression of `foldhood_plus` behaves on machine
/// `vin`: the folded neighbour's id is observed through `nbr(mid())`; the
/// initial expression and the user expression both run, and the value is
/// the initial expression's when the observed id is the device's own, the
/// user expression's otherwise.
pub open spec fn fp_expr_rel<
    F: Fn(RoundVM) -> (RoundVM, Val),
    H: Fn(RoundVM) -> (RoundVM, Val),
>(vin: RoundVM, init: F, expr: H, out: (RoundVM, Val)) -> bool {
    exists|v2: RoundVM, nv: Val, v2c: RoundVM, m4: RoundVM, tv: Val, m5: RoundVM, ev: Val|
        #![trigger nbr_mid_rel(vin, v2, nv), call_ensures(init, (v2c,), (m4, tv)), call_ensures(expr, (m4,), (m5, ev))]
        {
            &&& nbr_mid_rel(vin, v2, nv)
            &&& same_vm(v2c, v2)
            &&& call_ensures(init, (v2c,), (m4, tv))
            &&& call_ensures(expr, (m4,), (m5, ev))
            &&& out.0 == m5
            &&& out.1 == if val_eq(nv, Val::Int(vin.sid())) {
                tv
            } else {
                ev
            }
        }
}

/// One folded evaluation of the `foldhood_plus` expression over neighbour
/// `id`.
pub open spec fn fp_contribution_rel<
    F: Fn(RoundVM) -> (RoundVM, Val),
    H: Fn(RoundVM) -> (RoundVM, Val),
>(before: RoundVM, id: i32, init: F, expr: H, after: RoundVM, c: Val) -> bool {
    exists|vf: RoundVM, me: RoundVM|
        folded_entry(vf, before, id) && #[trigger] fp_expr_rel(vf, init, expr, (me, c))
            && restored_from(after, me, before)
}

/// The fold of `foldhood_plus` over the aligned neighbours.
pub open spec fn fp_chain<
    F: Fn(RoundVM) -> (RoundVM, Val),
    G: Fn(Val, Val) -> Val,
    H: Fn(RoundVM) -> (RoundVM, Val),
>(v1: RoundVM, kind: ValKind, init: F, aggr: G, expr: H, seed: Val, out: (RoundVM, Val)) -> bool {
    let ids = aligned_spec(v1.ctx(), v1.iso(), v1.path_v(), kind);
    exists|vms: Seq<RoundVM>, cs: Seq<Val>, accs: Seq<Val>|
        {
            &&& vms.len() == ids.len() + 1
            &&& cs.len() == ids.len()
            &&& accs.len() == ids.len() + 1
            &&& vms[0] == v1
            &&& accs[0] == seed
            &&& forall|i: int|
                0 <= i < ids.len() ==> fp_contribution_rel(
                    vms[i],
                    ids[i],
                    init,
                    expr,
                    #[trigger] vms[i + 1],
                    cs[i],
                )
            &&& forall|i: int|
                0 <= i < ids.len() ==> #[trigger] call_ensures(aggr, (accs[i], cs[i]), accs[i + 1])
            &&& out.0 == vms.last()
            &&& out.1 == accs.last()
        }
}

/// What `foldhood_plus` yields: a fold like `foldhood`'s at the site
/// `FoldHood(index)`, whose per-neighbour expression substitutes the initial
/// expression's value for the device's own contribution.
pub open spec fn fp_post<
    F: Fn(RoundVM) -> (RoundVM, Val),
    G: Fn(Val, Val) -> Val,
    H: Fn(RoundVM) -> (RoundVM, Val),
>(pre: RoundVM, kind: ValKind, init: F, aggr: G, expr: H, r: (RoundVM, Val)) -> bool {
    let p = pre.path_v().push(Slot::FoldHood(pre.idx()));
    exists|ve: RoundVM, m: RoundVM, val: Val, vl: RoundVM, m0: RoundVM, seed: Val, v1: RoundVM|
        #![trigger nest_entry(ve, pre, Slot::FoldHood(pre.idx())), call_ensures(init, (vl,), (m0, seed)), fp_chain(v1, kind, init, aggr, expr, seed, (m, val))]
        {
            &&& nest_entry(ve, pre, Slot::FoldHood(pre.idx()))
            &&& local_entry(vl, ve)
            &&& call_ensures(init, (vl,), (m0, seed))
            &&& with_neighbour(v1, m0, ve.nbr_v())
            &&& fp_chain(v1, kind, init, aggr, expr, seed, (m, val))
            &&& site_out(p, true, kind, m, val, r)
        }
}

/// A fold over the neighbourhood that excludes the device itself: each
/// contribution observes the folded neighbour's id through `nbr(mid())`,
/// and the device's own contribution is replaced by the initial
/// expression's value.
pub fn foldhood_plus<
    F: Fn(RoundVM) -> (RoundVM, Val) + Copy,
    G: Fn(Val, Val) -> Val + Copy,
    H: Fn(RoundVM) -> (RoundVM, Val) + Copy,
>(vm: RoundVM, kind: ValKind, init: F, aggr: G, expr: H) -> (r: (RoundVM, Val))
    requires
        vm.wf(),
        callable(init, vm.ctx()),
        frame_res(init),
        callable(expr, vm.ctx()),
        frame_res(expr),
        forall|a: Val, b: Val| #[trigger] call_requires(aggr, (a, b)),
    ensures
        op_frame(vm, r.0),
        r.0.idx() == sat_inc(vm.idx()),
        r.0.export_map().contains_key(vm.path_v().push(Slot::FoldHood(vm.idx()))),
        fp_post(vm, kind, init, aggr, expr, r),
{
    let c: Ghost<crate::context::Context> = Ghost(vm.ctx());
    let ghost pre = vm;
    let plus_expr = |vm1: RoundVM| -> (out: (RoundVM, Val))
        requires
            vm1.wf(),
            vm1.ctx() == c@,
            callable(init, c@),
            frame_res(init),
            callable(expr, c@),
            frame_res(expr),
        ensures
            op_frame(vm1, out.0),
            fp_expr_rel(vm1, init, expr, out),
        {
            let ghost gvm1 = vm1;
            let (v1m, self_id) = mid(vm1);
            let mid_val = |v: RoundVM| -> (o: (RoundVM, Val))
                ensures
                    o.0 == v,
                    o.1 == Val::Int(v.sid()),
                {
                    let (vv, m) = mid(v);
                    (vv, Val::Int(m))
                };
            proof {
                assert(callable(mid_val, c@)) by {
                    assert forall|v: RoundVM| v.wf() && v.ctx() == c@ implies #[trigger]
                        call_requires(mid_val, (v,)) by {}
                }
                assert(frame_res(mid_val)) by {
                    assert forall|v: RoundVM, o: (RoundVM, Val)| #[trigger]
                        call_ensures(mid_val, (v,), o) implies op_frame(v, o.0) by {}
                }
            }
            let (v2, nbr_val) = nbr(v1m, ValKind::Int, mid_val);
            let ghost gv2 = v2;
            let ghost gnv = nbr_val;
            proof {
                let (ve2, m2, val2) = choose|ve2: RoundVM, m2: RoundVM, val2: Val|
                    {
                        &&& nest_entry(ve2, gvm1, Slot::Nbr(gvm1.idx()))
                        &&& #[trigger] nbr_inner_rel(ve2, ValKind::Int, mid_val, (m2, val2))
                        &&& site_out(
                            gvm1.path_v().push(Slot::Nbr(gvm1.idx())),
                            !gvm1.folding_on_other(),
                            ValKind::Int,
                            m2,
                            val2,
                            (gv2, gnv),
                        )
                    };
                assert(nbr_mid_rel(gvm1, gv2, gnv));
            }
            let nbr_is_self = nbr_val == Val::Int(self_id);
            let ghost gflag = nbr_is_self;
            let cond_c = |v: RoundVM| -> (o: (RoundVM, bool))
                ensures
                    o.0 == v,
                    o.1 == gflag,
                {
                    (v, nbr_is_self)
                };
            proof {
                assert(callable(cond_c, c@)) by {
                    assert forall|v: RoundVM| v.wf() && v.ctx() == c@ implies #[trigger]
                        call_requires(cond_c, (v,)) by {}
                }
                assert(frame_res(cond_c)) by {
                    assert forall|v: RoundVM, o: (RoundVM, bool)| #[trigger]
                        call_ensures(cond_c, (v,), o) implies op_frame(v, o.0) by {}
                }
            }
            let out = mux(v2, cond_c, init, expr);
            proof {
                let (v2c, flag, m4, tv, m5, ev) = choose|
                    v2c: RoundVM,
                    flag: bool,
                    m4: RoundVM,
                    tv: Val,
                    m5: RoundVM,
                    ev: Val,
                |
                    #![trigger call_ensures(cond_c, (gv2,), (v2c, flag)), call_ensures(init, (v2c,), (m4, tv)), call_ensures(expr, (m4,), (m5, ev))]
                    {
                        &&& call_ensures(cond_c, (gv2,), (v2c, flag))
                        &&& call_ensures(init, (v2c,), (m4, tv))
                        &&& call_ensures(expr, (m4,), (m5, ev))
                        &&& out.0 == m5
                        &&& out.1 == if flag {
                            tv
                        } else {
                            ev
                        }
                    };
                assert(same_vm(v2c, gv2));
                assert(flag == val_eq(gnv, Val::Int(gvm1.sid())));
                assert(fp_expr_rel(gvm1, init, expr, out));
                assert(op_frame(v2c, m4));
                assert(op_frame(gv2, m4)) by {
                    assert(v2c.export_map() == gv2.export_map());
                }
                lemma_op_frame_trans(gvm1, gv2, m4);
                lemma_op_frame_trans(gvm1, m4, out.0);
            }
            out
        };
    let r = foldhood(vm, kind, init, aggr, plus_expr);
    proof {
        let (ve, m, val) = choose|ve: RoundVM, m: RoundVM, val: Val|
            {
                &&& nest_entry(ve, pre, Slot::FoldHood(pre.idx()))
                &&& #[trigger] foldhood_inner_rel(ve, kind, init, aggr, plus_expr, (m, val))
                &&& site_out(
                    pre.path_v().push(Slot::FoldHood(pre.idx())),
                    true,
                    kind,
                    m,
                    val,
                    r,
                )
            };
        let (vl, m0, seed, v1) = choose|vl: RoundVM, m0: RoundVM, seed: Val, v1: RoundVM|
            {
                &&& local_entry(vl, ve)
                &&& #[trigger] call_ensures(init, (vl,), (m0, seed))
                &&& with_neighbour(v1, m0, ve.nbr_v())
                &&& #[trigger] fold_chain(v1, kind, aggr, plus_expr, seed, (m, val))
            };
        let ids = aligned_spec(v1.ctx(), v1.iso(), v1.path_v(), kind);
        let (vms, cs, accs) = choose|vms: Seq<RoundVM>, cs: Seq<Val>, accs: Seq<Val>|
            {
                &&& vms.len() == ids.len() + 1
                &&& cs.len() == ids.len()
                &&& accs.len() == ids.len() + 1
                &&& vms[0] == v1
                &&& accs[0] == seed
                &&& forall|i: int|
                    0 <= i < ids.len() ==> contribution_rel(
                        vms[i],
                        ids[i],
                        plus_expr,
                        #[trigger] vms[i + 1],
                        cs[i],
                    )
                &&& forall|i: int|
                    0 <= i < ids.len() ==> #[trigger] call_ensures(
                        aggr,
                        (accs[i], cs[i]),
                        accs[i + 1],
                    )
                &&& (m, val).0 == vms.last()
                &&& (m, val).1 == accs.last()
            };
        assert forall|i: int| 0 <= i < ids.len() implies fp_contribution_rel(
            vms[i],
            ids[i],
            init,
            expr,
            #[trigger] vms[i + 1],
            cs[i],
        ) by {
            assert(contribution_rel(vms[i], ids[i], plus_expr, vms[i + 1], cs[i]));
            let (vf, me) = choose|vf: RoundVM, me: RoundVM|
                folded_entry(vf, vms[i], ids[i]) && #[trigger] call_ensures(
                    plus_expr,
                    (vf,),
                    (me, cs[i]),
                ) && restored_from(vms[i + 1], me, vms[i]);
            assert(fp_expr_rel(vf, init, expr, (me, cs[i])));
        }
        assert(fp_chain(v1, kind, init, aggr, expr, seed, (m, val)));
        assert(fp_post(vm, kind, init, aggr, expr, r));
    }
    r
}

} // verus!

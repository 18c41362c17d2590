use rufi::builtins::mux;
use rufi::context::{Context, NbrSensors, SensorMap};
use rufi::execution::round;
use rufi::export::Export;
use rufi::idmap::IdMap;
use rufi::lang::{branch, foldhood, mid, nbr, rep};
use rufi::path::Path;
use rufi::round_vm::RoundVM;
use rufi::sensor_id::sensor;
use rufi::slot::Slot::{FoldHood, Nbr, Rep};
use rufi::value::{Val, ValKind};

fn as_int(v: &Val) -> i32 {
    match v {
        Val::Int(i) => *i,
        _ => panic!("not an integer value"),
    }
}

fn vadd(a: Val, b: Val) -> Val {
    Val::Int(as_int(&a) + as_int(&b))
}

fn empty_context(self_id: i32) -> Context {
    Context::new(self_id, SensorMap::new(), SensorMap::new(), IdMap::new())
}

fn init_with_ctx(ctx: Context) -> RoundVM {
    let mut vm = RoundVM::new(ctx);
    vm.new_export_stack();
    vm
}

fn init_vm() -> RoundVM {
    init_with_ctx(empty_context(1))
}

fn push_to_ctx(mut ctx: Context, path: Path, val: Val) -> Context {
    let mut export = Export::new();
    export.put(path, val);
    let id = ctx.self_id();
    ctx.put_export(id, export);
    ctx
}

fn combine<F, G, H>(expr1: F, expr2: G, comb: H) -> impl Fn(RoundVM) -> (RoundVM, Val)
where
    F: Fn(RoundVM) -> (RoundVM, Val),
    G: Fn(RoundVM) -> (RoundVM, Val),
    H: Fn(Val, Val) -> Val,
{
    move |vm| {
        let (vm_, res1) = expr1(vm);
        let (vm__, res2) = expr2(vm_);
        (vm__, comb(res1, res2))
    }
}

#[test]
fn test_multiple_rounds() {
    let vm = init_vm();
    let program = |vm1| {
        rep(
            vm1,
            ValKind::Int,
            |vm| (vm, Val::Int(0)),
            |vm2, a| {
                let ai = as_int(&a);
                let (avm, res) = nbr(vm2, ValKind::Int, move |_vm| (_vm, Val::Int(ai)));
                (avm, Val::Int(as_int(&res) + 1))
            },
        )
    };
    // first round
    let (vm_, res) = round(vm, program);
    assert_eq!(Val::Int(1), res);
    // add to the context the result of the previous round
    let ctx_ = push_to_ctx(vm_.context().clone(), Path::from(vec![Rep(0)]), res);
    // second round
    let (_vm__, res_) = round(init_with_ctx(ctx_), program);
    assert_eq!(Val::Int(2), res_);
}

#[test]
fn test_local_value() {
    let result = round(init_with_ctx(empty_context(0)), |vm| (vm, Val::Int(10)));
    assert_eq!(Val::Int(10), result.1);
}

#[test]
fn test_alignment() {
    // No neighbour is aligned.
    // Program: rep(0, foldhood(0)(_ + _)(1))
    let program = |vm1| {
        rep(
            vm1,
            ValKind::Int,
            |vm| (vm, Val::Int(0)),
            |vm2, _| {
                foldhood(
                    vm2,
                    ValKind::Int,
                    |vm| (vm, Val::Int(0)),
                    |a, b| vadd(a, b),
                    |vm3| (vm3, Val::Int(1)),
                )
            },
        )
    };
    let result = round(init_with_ctx(empty_context(0)), program);
    assert_eq!(Val::Int(1), result.1);

    // One neighbour is aligned.
    let mut export_dev_1 = Export::new();
    export_dev_1.put(Path::from(vec![Rep(0)]), Val::Int(1));
    export_dev_1.put(Path::from(vec![Rep(0), FoldHood(0)]), Val::Int(1));
    let mut exports: IdMap<Export> = IdMap::new();
    exports.insert(1, export_dev_1);
    let context = Context::new(0, SensorMap::new(), SensorMap::new(), exports);
    let vm = init_with_ctx(context);
    let result = round(vm, program);
    assert_eq!(Val::Int(2), result.1);
}

#[test]
fn export_should_compose() {
    fn ctx() -> Context {
        let mut local_sensor: SensorMap<Val> = SensorMap::new();
        local_sensor.insert(sensor("sensor"), Val::Int(5));
        Context::new(0, local_sensor, SensorMap::new(), IdMap::new())
    }

    let expr_1 = |vm: RoundVM| (vm, Val::Int(1));
    let expr_2 = |vm| {
        rep(
            vm,
            ValKind::Int,
            |vm1| (vm1, Val::Int(7)),
            |vm2, val| (vm2, Val::Int(as_int(&val) + 1)),
        )
    };
    let expr_3 = |vm| {
        foldhood(
            vm,
            ValKind::Int,
            |vm1| (vm1, Val::Int(0)),
            |a, b| vadd(a, b),
            |vm2| {
                nbr(vm2, ValKind::Int, |vm3: RoundVM| {
                    let val = as_int(vm3.local_sense(&sensor("sensor")).unwrap());
                    (vm3, Val::Int(val))
                })
            },
        )
    };

    let (mut vm_, _) = round(init_vm(), combine(expr_1, expr_1, |a, b| vadd(a, b)));
    assert_eq!(Val::Int(2), vm_.export_data().root(ValKind::Int));

    let (mut vm_, _) = round(init_vm(), combine(expr_2, expr_2, |a, b| vadd(a, b)));
    assert_eq!(Val::Int(16), vm_.export_data().root(ValKind::Int));

    let (mut vm_, _) = round(init_with_ctx(ctx()), combine(expr_3, expr_3, |a, b| vadd(a, b)));
    assert_eq!(Val::Int(10), vm_.export_data().root(ValKind::Int));

    let (mut vm_, _) = round(init_vm(), |vm| {
        rep(
            vm,
            ValKind::Int,
            |vm1| (vm1, Val::Int(0)),
            |vm2, _| {
                rep(
                    vm2,
                    ValKind::Int,
                    |vm3| (vm3, Val::Int(0)),
                    |vm4, _| expr_1(vm4),
                )
            },
        )
    });
    assert_eq!(Val::Int(1), vm_.export_data().root(ValKind::Int));

    let (mut vm_, _) = round(init_vm(), |vm| {
        rep(
            vm,
            ValKind::Int,
            |vm1| (vm1, Val::Int(0)),
            |vm2, _| {
                rep(
                    vm2,
                    ValKind::Int,
                    |vm3| (vm3, Val::Int(0)),
                    |vm4, _| expr_2(vm4),
                )
            },
        )
    });
    assert_eq!(Val::Int(8), vm_.export_data().root(ValKind::Int));

    let (mut vm_, _) = round(init_with_ctx(ctx()), |vm| {
        rep(
            vm,
            ValKind::Int,
            |vm1| (vm1, Val::Int(0)),
            |vm2, _| {
                rep(
                    vm2,
                    ValKind::Int,
                    |vm3| (vm3, Val::Int(0)),
                    |vm4, _| expr_3(vm4),
                )
            },
        )
    });
    assert_eq!(Val::Int(5), vm_.export_data().root(ValKind::Int));
}

#[test]
fn test_foldhood_basic() {
    // Export of device 2: Export(/ -> 1, FoldHood(0) -> 1)
    let mut export_dev_2 = Export::new();
    export_dev_2.put(Path::new(), Val::Int(1));
    export_dev_2.put(Path::from(vec![FoldHood(0)]), Val::Int(1));
    // Export of device 4: Export(/ -> 3, FoldHood(0) -> 3)
    let mut export_dev_4 = Export::new();
    export_dev_4.put(Path::new(), Val::Int(3));
    export_dev_4.put(Path::from(vec![FoldHood(0)]), Val::Int(3));
    let mut exports: IdMap<Export> = IdMap::new();
    exports.insert(2, export_dev_2);
    exports.insert(4, export_dev_4);
    let context = Context::new(0, SensorMap::new(), SensorMap::new(), exports);
    // Program: foldhood(1)(_ + _)(2)
    let program = |vm| {
        foldhood(
            vm,
            ValKind::Int,
            |vm1| (vm1, Val::Int(1)),
            |a, b| vadd(a, b),
            |vm1| (vm1, Val::Int(2)),
        )
    };
    let result = round(init_with_ctx(context), program);
    assert_eq!(Val::Int(7), result.1);
}

#[test]
fn test_foldhood_advanced() {
    let mut export_dev_2 = Export::new();
    export_dev_2.put(Path::new(), Val::Int(1));
    export_dev_2.put(Path::from(vec![FoldHood(0)]), Val::Int(1));
    export_dev_2.put(Path::from(vec![FoldHood(0), Nbr(0)]), Val::Int(4));
    let mut export_dev_4 = Export::new();
    export_dev_4.put(Path::new(), Val::Int(3));
    export_dev_4.put(Path::from(vec![FoldHood(0)]), Val::Int(3));
    export_dev_4.put(Path::from(vec![FoldHood(0), Nbr(0)]), Val::Int(19));
    let mut exports: IdMap<Export> = IdMap::new();
    exports.insert(2, export_dev_2);
    exports.insert(4, export_dev_4);
    let context = Context::new(0, SensorMap::new(), SensorMap::new(), exports);
    // Program: foldhood(-5)(_ + _)(nbr(2))
    let program = |vm| {
        foldhood(
            vm,
            ValKind::Int,
            |vm1| (vm1, Val::Int(-5)),
            |a, b| vadd(a, b),
            |vm1| nbr(vm1, ValKind::Int, |vm2| (vm2, Val::Int(2))),
        )
    };
    let result = round(init_with_ctx(context), program);
    assert_eq!(Val::Int(20), result.1);
}

#[test]
fn test_nbr() {
    fn create_exports_nbr_test() -> IdMap<Export> {
        let mut export_dev_1 = Export::new();
        export_dev_1.put(Path::new(), Val::Str("any".to_string()));
        export_dev_1.put(Path::from(vec![FoldHood(0)]), Val::Int(1));
        export_dev_1.put(Path::from(vec![FoldHood(0), Nbr(0)]), Val::Int(1));
        let mut export_dev_2 = Export::new();
        export_dev_2.put(Path::new(), Val::Str("any".to_string()));
        export_dev_2.put(Path::from(vec![FoldHood(0)]), Val::Int(2));
        export_dev_2.put(Path::from(vec![FoldHood(0), Nbr(0)]), Val::Int(2));
        let mut exports: IdMap<Export> = IdMap::new();
        exports.insert(1, export_dev_1);
        exports.insert(2, export_dev_2);
        exports
    }

    // 1 - NBR needs not to be nested into fold
    let result = round(init_with_ctx(empty_context(0)), |vm| {
        nbr(vm, ValKind::Int, |vm1| (vm1, Val::Int(7)))
    });
    assert_eq!(Val::Int(7), result.1);

    // 2 - NBR should support interaction between aligned devices
    let context = Context::new(
        0,
        SensorMap::new(),
        SensorMap::new(),
        create_exports_nbr_test(),
    );
    // Program: foldhood(0)(_ + _)(if (nbr(mid()) == mid()) 0 else 1)
    let program = |vm| {
        foldhood(
            vm,
            ValKind::Int,
            |vm1| (vm1, Val::Int(0)),
            |a, b| vadd(a, b),
            |vm1| {
                let (vm2, res) = nbr(vm1, ValKind::Int, |vm3| {
                    let (vm4, m) = mid(vm3);
                    (vm4, Val::Int(m))
                });
                if as_int(&res) == vm2.self_id() {
                    (vm2, Val::Int(0))
                } else {
                    (vm2, Val::Int(1))
                }
            },
        )
    };
    let result = round(init_with_ctx(context), program);
    assert_eq!(Val::Int(2), result.1);
}

#[test]
fn test_rep() {
    // Program: rep(9)(_ * 2)
    let program = |vm| {
        rep(
            vm,
            ValKind::Int,
            |vm1| (vm1, Val::Int(9)),
            |vm2, a| (vm2, Val::Int(as_int(&a) * 2)),
        )
    };
    // Check if rep uses the initial value
    let result = round(init_with_ctx(empty_context(0)), program);
    assert_eq!(Val::Int(18), result.1);

    // Export: Map(0 -> Export(Rep(0) -> 7))
    let mut export_dev_0 = Export::new();
    export_dev_0.put(Path::from(vec![Rep(0)]), Val::Int(7));
    let mut exports: IdMap<Export> = IdMap::new();
    exports.insert(0, export_dev_0);
    let context = Context::new(0, SensorMap::new(), SensorMap::new(), exports);
    // Rep should build upon previous state.
    let result = round(init_with_ctx(context), program);
    assert_eq!(Val::Int(14), result.1);
}

#[test]
fn test_branch() {
    // Program: rep(0) { x => branch(x % 2 == 0)(7)(rep(4)(_ => 4)); x + 1 }
    let program = |vm| {
        rep(
            vm,
            ValKind::Int,
            |vm1| (vm1, Val::Int(0)),
            |vm1, x| {
                let xi = as_int(&x);
                let res = branch(
                    vm1,
                    ValKind::Int,
                    move || xi % 2 == 0,
                    |vm3| (vm3, Val::Int(7)),
                    |vm4| {
                        rep(
                            vm4,
                            ValKind::Int,
                            |vm| (vm, Val::Int(4)),
                            |vm5, _| (vm5, Val::Int(4)),
                        )
                    },
                );
                (res.0, Val::Int(xi + 1))
            },
        )
    };
    let result = round(init_with_ctx(empty_context(0)), program);
    assert_eq!(Val::Int(1), result.1);

    // Export: Map(0 -> Export(Rep(0) -> 1))
    let mut export_dev_0 = Export::new();
    export_dev_0.put(Path::from(vec![Rep(0)]), Val::Int(1));
    let mut exports: IdMap<Export> = IdMap::new();
    exports.insert(0, export_dev_0);
    let context = Context::new(0, SensorMap::new(), SensorMap::new(), exports);
    let result = round(init_with_ctx(context), program);
    assert_eq!(Val::Int(2), result.1);
}

#[test]
fn test_sense() {
    // Sense should simply evaluate to the last value read by sensor
    fn ctx() -> Context {
        let mut local_sensor: SensorMap<Val> = SensorMap::new();
        local_sensor.insert(sensor("a"), Val::Int(7));
        local_sensor.insert(sensor("b"), Val::Str("right".to_string()));
        Context::new(0, local_sensor, SensorMap::new(), IdMap::new())
    }

    let (_, res) = round(init_with_ctx(ctx()), |vm: RoundVM| {
        let val = vm.local_sense(&sensor("a")).unwrap().clone();
        (vm, val)
    });
    assert_eq!(Val::Int(7), res);

    let (_, res) = round(init_with_ctx(ctx()), |vm: RoundVM| {
        let val = vm.local_sense(&sensor("b")).unwrap().clone();
        (vm, val)
    });
    assert_eq!(Val::Str("right".to_string()), res);
}

#[test]
fn test_mux_evaluates_both_branches() {
    // Unlike branch, mux records both branches' sites in the export.
    let (mut vm_, res) = round(init_vm(), |vm| {
        mux(
            vm,
            |v| (v, true),
            |v| nbr(v, ValKind::Int, |v1| (v1, Val::Int(1))),
            |v| nbr(v, ValKind::Int, |v1| (v1, Val::Int(2))),
        )
    });
    assert_eq!(Val::Int(1), res);
    let export = vm_.export_data();
    assert_eq!(
        export.get(&Path::from(vec![Nbr(0)]), ValKind::Int).unwrap(),
        Val::Int(1)
    );
    assert_eq!(
        export.get(&Path::from(vec![Nbr(1)]), ValKind::Int).unwrap(),
        Val::Int(2)
    );
}

#[test]
fn test_branch_restricts_domain() {
    // The untaken branch leaves no path in the export.
    let (mut vm_, res) = round(init_vm(), |vm| {
        branch(
            vm,
            ValKind::Int,
            || true,
            |v| nbr(v, ValKind::Int, |v1| (v1, Val::Int(1))),
            |v| nbr(v, ValKind::Int, |v1| (v1, Val::Int(2))),
        )
    });
    assert_eq!(Val::Int(1), res);
    let export = vm_.export_data();
    // three entries: the root, the branch site, and the taken nbr site
    assert_eq!(export.paths().len(), 3);
    assert_eq!(
        export
            .get(&Path::from(vec![rufi::slot::Slot::Branch(0), Nbr(0)]), ValKind::Int)
            .unwrap(),
        Val::Int(1)
    );
}

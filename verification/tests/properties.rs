use rufi::builtins::foldhood_plus;
use rufi::context::{Context, SensorMap};
use rufi::execution::round;
use rufi::export::Export;
use rufi::idmap::IdMap;
use rufi::lang::{foldhood, mid, nbr, rep};
use rufi::path::Path;
use rufi::platform::{new_subscriptions, single_cycle};
use rufi::round_vm::RoundVM;
use rufi::slot::Slot::{FoldHood, Nbr, Rep};
use rufi::value::{Val, ValKind};

fn as_int(v: &Val) -> i32 {
    match v {
        Val::Int(i) => *i,
        _ => panic!("not an integer value"),
    }
}

fn vadd(a: Val, b: Val) -> Val {
    Val::Int(as_int(&a) + as_int(&b))
}

fn empty_context(self_id: i32) -> Context {
    Context::new(self_id, SensorMap::new(), SensorMap::new(), IdMap::new())
}

fn init_with_ctx(ctx: Context) -> RoundVM {
    let mut vm = RoundVM::new(ctx);
    vm.new_export_stack();
    vm
}

// After a round, the export holds the program's value at the root path.
#[test]
fn test_round_records_root() {
    let (mut vm_, res) = round(init_with_ctx(empty_context(0)), |vm| {
        nbr(vm, ValKind::Int, |v| (v, Val::Int(7)))
    });
    assert_eq!(res, Val::Int(7));
    assert_eq!(vm_.export_data().root(ValKind::Int), res);
}

// The non-root paths of the export are exactly the operator sites the
// program fired.
#[test]
fn test_round_records_exactly_the_fired_sites() {
    let (mut vm_, _res) = round(init_with_ctx(empty_context(0)), |vm| {
        rep(
            vm,
            ValKind::Int,
            |v| (v, Val::Int(0)),
            |v, a| {
                let (v1, b) = nbr(v, ValKind::Int, |x| (x, Val::Int(1)));
                (v1, vadd(a, b))
            },
        )
    });
    let export = vm_.export_data();
    let paths = export.paths();
    assert_eq!(paths.len(), 3);
    for expected in [
        Path::new(),
        Path::from(vec![Rep(0)]),
        Path::from(vec![Rep(0), Nbr(0)]),
    ] {
        assert!(paths.iter().any(|p| p.matches(&expected)));
    }
}

// Two structurally identical programs on identical contexts produce equal
// exports.
#[test]
fn test_round_deterministic() {
    let program = |vm| {
        rep(
            vm,
            ValKind::Int,
            |v| (v, Val::Int(3)),
            |v, a| (v, Val::Int(as_int(&a) * 2)),
        )
    };
    let (mut vm1, r1) = round(init_with_ctx(empty_context(4)), program);
    let (mut vm2, r2) = round(init_with_ctx(empty_context(4)), program);
    assert_eq!(r1, r2);
    assert_eq!(vm1.export_data(), vm2.export_data());
}

// A round leaves the cursor where it started: root path, no neighbour,
// empty stack.
#[test]
fn test_round_restores_status() {
    let (vm_, _res) = round(init_with_ctx(empty_context(0)), |vm| {
        foldhood(
            vm,
            ValKind::Int,
            |v| (v, Val::Int(0)),
            |a, b| vadd(a, b),
            |v| nbr(v, ValKind::Int, |x| (x, Val::Int(1))),
        )
    });
    assert!(vm_.status().path().is_root());
    assert_eq!(vm_.status().neighbour(), None);
    assert_eq!(vm_.status().stack().len(), 0);
}

// Sibling sites at one nesting level take distinct indices in source order,
// starting from zero.
#[test]
fn test_sibling_sites_take_distinct_indices() {
    let (mut vm_, _res) = round(init_with_ctx(empty_context(0)), |vm| {
        let (v1, a) = nbr(vm, ValKind::Int, |x| (x, Val::Int(10)));
        let (v2, b) = nbr(v1, ValKind::Int, |x| (x, Val::Int(20)));
        let (v3, c) = rep(v2, ValKind::Int, |x| (x, Val::Int(30)), |x, v| (x, v));
        (v3, vadd(vadd(a, b), c))
    });
    let export = vm_.export_data();
    assert_eq!(
        export.get(&Path::from(vec![Nbr(0)]), ValKind::Int).unwrap(),
        Val::Int(10)
    );
    assert_eq!(
        export.get(&Path::from(vec![Nbr(1)]), ValKind::Int).unwrap(),
        Val::Int(20)
    );
    assert_eq!(
        export.get(&Path::from(vec![Rep(2)]), ValKind::Int).unwrap(),
        Val::Int(30)
    );
}

// On a field of one device, foldhood_plus yields its initial value.
#[test]
fn test_foldhood_plus_alone_yields_init() {
    let (_vm, res) = round(init_with_ctx(empty_context(0)), |vm| {
        foldhood_plus(
            vm,
            ValKind::Int,
            |v| (v, Val::Int(0)),
            |a, b| vadd(a, b),
            |v| nbr(v, ValKind::Int, |x| (x, Val::Int(5))),
        )
    });
    assert_eq!(res, Val::Int(0));
}

// On a three-clique, foldhood_plus over the neighbours' ids sums the other
// two devices' ids: the device's own contribution is replaced by the init.
#[test]
fn test_foldhood_plus_excludes_self() {
    let ids = [10, 20, 30];
    // every device has already published an export aligned at the fold and
    // nbr sites, carrying its id
    let mut published: IdMap<Export> = IdMap::new();
    for id in ids {
        let mut export = Export::new();
        export.put(Path::new(), Val::Int(id));
        export.put(Path::from(vec![FoldHood(0)]), Val::Int(id));
        export.put(Path::from(vec![FoldHood(0), Nbr(0)]), Val::Int(id));
        export.put(Path::from(vec![FoldHood(0), Nbr(1)]), Val::Int(id));
        published.insert(id, export);
    }
    let program = |vm| {
        foldhood_plus(
            vm,
            ValKind::Int,
            |v| (v, Val::Int(0)),
            |a, b| vadd(a, b),
            |v| {
                nbr(v, ValKind::Int, |x| {
                    let (x1, m) = mid(x);
                    (x1, Val::Int(m))
                })
            },
        )
    };
    let context = Context::new(10, SensorMap::new(), SensorMap::new(), published);
    let (_vm, res) = round(init_with_ctx(context), program);
    assert_eq!(res, Val::Int(20 + 30));
}

// nbr outside a fold returns the expression's local value and records it at
// the site.
#[test]
fn test_nbr_outside_fold_is_local() {
    let (mut vm_, res) = round(init_with_ctx(empty_context(3)), |vm| {
        nbr(vm, ValKind::Int, |v| (v, Val::Int(42)))
    });
    assert_eq!(res, Val::Int(42));
    assert_eq!(
        vm_.export_data().get(&Path::from(vec![Nbr(0)]), ValKind::Int).unwrap(),
        Val::Int(42)
    );
}

// mid yields the device's own id.
#[test]
fn test_mid() {
    let (_vm, res) = round(init_with_ctx(empty_context(77)), |vm| {
        let (v, m) = mid(vm);
        (v, Val::Int(m))
    });
    assert_eq!(res, Val::Int(77));
}

// One platform cycle wraps the round's export into a message under the
// device's id and timestamp.
#[test]
fn test_single_cycle() {
    let (msg, res) = single_cycle(
        empty_context(5),
        |vm| nbr(vm, ValKind::Int, |v| (v, Val::Int(9))),
        1234,
    );
    assert_eq!(msg.source, 5);
    assert_eq!(msg.timestamp, 1234);
    assert_eq!(res, Val::Int(9));
    assert_eq!(msg.export.root(ValKind::Int), Val::Int(9));
    assert_eq!(
        msg.export.get(&Path::from(vec![Nbr(0)]), ValKind::Int).unwrap(),
        Val::Int(9)
    );
}

// A cycle subscribes only to the neighbours not seen before.
#[test]
fn test_new_subscriptions() {
    let discovered = vec![1, 2, 3];
    let nbrs = vec![2, 3, 4, 5];
    assert_eq!(new_subscriptions(&discovered, &nbrs), vec![4, 5]);
    assert_eq!(new_subscriptions(&Vec::new(), &nbrs), vec![2, 3, 4, 5]);
}

// rep on an isolated device counts the rounds.
#[test]
fn test_rep_counts_rounds() {
    let program = |vm| {
        rep(
            vm,
            ValKind::Int,
            |v| (v, Val::Int(0)),
            |v, x| (v, Val::Int(as_int(&x) + 1)),
        )
    };
    let mut ctx = empty_context(0);
    for k in 1..=4 {
        let (vm_, res) = round(init_with_ctx(ctx), program);
        assert_eq!(res, Val::Int(k));
        let mut next = vm_.context().clone();
        next.put_export(0, vm_.current_export());
        ctx = next;
    }
}

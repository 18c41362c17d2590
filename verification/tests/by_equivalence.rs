use rand::Rng;
use rufi::context::{Context, SensorMap};
use rufi::execution::round;
use rufi::export::Export;
use rufi::idmap::IdMap;
use rufi::lang::{foldhood, mid, nbr, rep};
use rufi::round_vm::RoundVM;
use rufi::value::{Val, ValKind};

fn as_int(v: &Val) -> i32 {
    match v {
        Val::Int(i) => *i,
        _ => panic!("not an integer value"),
    }
}

fn vadd(a: Val, b: Val) -> Val {
    Val::Int(as_int(&a) + as_int(&b))
}

fn mid_val(vm: RoundVM) -> (RoundVM, Val) {
    let (vm1, m) = mid(vm);
    (vm1, Val::Int(m))
}

fn vm_for(self_id: i32, nbrs: &[i32]) -> RoundVM {
    let mut exports: IdMap<Export> = IdMap::new();
    for n in nbrs {
        exports.insert(*n, Export::new());
    }
    let context = Context::new(self_id, SensorMap::new(), SensorMap::new(), exports);
    let mut vm = RoundVM::new(context);
    vm.new_export_stack();
    vm
}

/// Run the two programs round by round over a fully connected topology of
/// devices 0, 1 and 2 in the given execution order, and check that they
/// yield the same value at every round.
fn assert_equivalence<F, G>(exec_order: Vec<i32>, program_1: F, program_2: G)
where
    F: Fn(RoundVM) -> (RoundVM, Val) + Copy,
    G: Fn(RoundVM) -> (RoundVM, Val) + Copy,
{
    let devices = [0, 1, 2];
    let mut states_1: Vec<RoundVM> = devices.iter().map(|d| vm_for(*d, &devices)).collect();
    let mut states_2: Vec<RoundVM> = devices.iter().map(|d| vm_for(*d, &devices)).collect();
    for curr in exec_order {
        let vm_1 = states_1.remove(curr as usize);
        let vm_2 = states_2.remove(curr as usize);
        let (vm_1_, res_1) = round(vm_1, program_1);
        let (vm_2_, res_2) = round(vm_2, program_2);
        if res_1 != res_2 {
            panic!("Programs are not equivalent: {:?} != {:?}", res_1, res_2);
        }
        states_1.insert(curr as usize, vm_1_);
        states_2.insert(curr as usize, vm_2_);
    }
}

fn random_exec_order() -> Vec<i32> {
    let mut rng = rand::thread_rng();
    std::iter::repeat_with(|| rng.gen_range(0..3)).take(100).collect()
}

#[test]
fn foldhood_multiple_nbrs() {
    let program_1 = |vm: RoundVM| {
        foldhood(
            vm,
            ValKind::Int,
            |vm1| (vm1, Val::Int(0)),
            |a, b| vadd(a, b),
            |vm1| {
                let (v1, nbr_1) = nbr(vm1, ValKind::Int, |v| (v, Val::Int(1)));
                let (v2, nbr_2) = nbr(v1, ValKind::Int, |v| (v, Val::Int(2)));
                let (v3, nbr_3) = nbr(v2, ValKind::Int, mid_val);
                (v3, Val::Int(as_int(&nbr_1) + as_int(&nbr_2) + as_int(&nbr_3)))
            },
        )
    };

    let program_2 = |vm: RoundVM| {
        foldhood(
            vm,
            ValKind::Int,
            |vm1| (vm1, Val::Int(0)),
            |a, b| vadd(a, b),
            |vm1| {
                nbr(vm1, ValKind::Int, |v| {
                    let (v1, m) = mid(v);
                    (v1, Val::Int(1 + 2 + m))
                })
            },
        )
    };

    assert_equivalence(random_exec_order(), program_1, program_2);
}

#[test]
fn nbr_nbr_ignored() {
    let program_1 = |vm: RoundVM| {
        foldhood(
            vm,
            ValKind::Int,
            |vm1| (vm1, Val::Int(0)),
            |a, b| vadd(a, b),
            |vm1| {
                nbr(vm1, ValKind::Int, |v| {
                    let (v1, mid_1) = mid(v);
                    let (v2, nbr_1) = nbr(v1, ValKind::Int, mid_val);
                    (v2, Val::Int(mid_1 + as_int(&nbr_1)))
                })
            },
        )
    };

    let program_2 = |vm: RoundVM| {
        let (v, res) = foldhood(
            vm,
            ValKind::Int,
            |vm1| (vm1, Val::Int(0)),
            |a, b| vadd(a, b),
            |vm1| nbr(vm1, ValKind::Int, mid_val),
        );
        (v, Val::Int(2 * as_int(&res)))
    };

    assert_equivalence(random_exec_order(), program_1, program_2);
}

#[test]
fn rep_nbr_ignored_first_argument() {
    let program_1 = |vm: RoundVM| {
        foldhood(
            vm,
            ValKind::Int,
            |vm1| (vm1, Val::Int(0)),
            |a, b| vadd(a, b),
            |vm1| {
                rep(
                    vm1,
                    ValKind::Int,
                    |v| nbr(v, ValKind::Int, mid_val),
                    |v, a| (v, a),
                )
            },
        )
    };

    let program_2 = |vm: RoundVM| {
        foldhood(
            vm,
            ValKind::Int,
            |vm1| (vm1, Val::Int(0)),
            |a, b| vadd(a, b),
            |vm1| rep(vm1, ValKind::Int, mid_val, |v, a| (v, a)),
        )
    };

    assert_equivalence(random_exec_order(), program_1, program_2);
}

#[test]
fn rep_nbr_ignored_overall() {
    let program_1 = |vm: RoundVM| {
        foldhood(
            vm,
            ValKind::Int,
            |vm1| (vm1, Val::Int(0)),
            |a, b| vadd(a, b),
            |vm1| {
                rep(
                    vm1,
                    ValKind::Int,
                    |v| nbr(v, ValKind::Int, mid_val),
                    |v, a| {
                        let ai = as_int(&a);
                        let (v1, nbr_1) = nbr(v, ValKind::Int, move |x| (x, Val::Int(ai)));
                        let (v2, nbr_2) = nbr(v1, ValKind::Int, mid_val);
                        (v2, Val::Int(ai + as_int(&nbr_1) + as_int(&nbr_2)))
                    },
                )
            },
        )
    };

    let program_2 = |vm: RoundVM| {
        foldhood(
            vm,
            ValKind::Int,
            |vm1| (vm1, Val::Int(0)),
            |a, b| vadd(a, b),
            |vm1| {
                rep(vm1, ValKind::Int, mid_val, |v, a| {
                    let ai = as_int(&a);
                    let (v1, nbr_1) = nbr(v, ValKind::Int, mid_val);
                    (v1, Val::Int(ai * 2 + as_int(&nbr_1)))
                })
            },
        )
    };

    assert_equivalence(random_exec_order(), program_1, program_2);
}

#[test]
fn fold_init_nbr_ignored() {
    let program_1 = |vm: RoundVM| {
        foldhood(
            vm,
            ValKind::Int,
            |vm1| (vm1, Val::Int(0)),
            |a, b| vadd(a, b),
            |vm1| {
                foldhood(
                    vm1,
                    ValKind::Int,
                    |v| nbr(v, ValKind::Int, mid_val),
                    |a, b| vadd(a, b),
                    |v| (v, Val::Int(1)),
                )
            },
        )
    };

    let program_2 = |vm: RoundVM| {
        let (v1, res_1) = foldhood(
            vm,
            ValKind::Int,
            |v| (v, Val::Int(0)),
            |a, b| vadd(a, b),
            |v| (v, Val::Int(1)),
        );
        let (v2, res_2) = foldhood(
            v1,
            ValKind::Int,
            mid_val,
            |a, b| vadd(a, b),
            |v| (v, Val::Int(1)),
        );
        (v2, Val::Int(as_int(&res_1) * as_int(&res_2)))
    };

    assert_equivalence(random_exec_order(), program_1, program_2);
}

#[test]
fn fold_fold_work() {
    let program_1 = |vm: RoundVM| {
        foldhood(
            vm,
            ValKind::Int,
            |vm1| (vm1, Val::Int(0)),
            |a, b| vadd(a, b),
            |vm1| {
                foldhood(
                    vm1,
                    ValKind::Int,
                    |v| (v, Val::Int(0)),
                    |a, b| vadd(a, b),
                    |v| (v, Val::Int(1)),
                )
            },
        )
    };

    let program_2 = |vm: RoundVM| {
        let (v, res) = foldhood(
            vm,
            ValKind::Int,
            |vm1| (vm1, Val::Int(0)),
            |a, b| vadd(a, b),
            |vm1| (vm1, Val::Int(1)),
        );
        let r = as_int(&res);
        (v, Val::Int(r * r))
    };

    assert_equivalence(random_exec_order(), program_1, program_2);
}

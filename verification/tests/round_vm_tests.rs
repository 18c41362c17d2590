use rufi::context::{Context, NbrSensors, SensorMap};
use rufi::export::Export;
use rufi::idmap::IdMap;
use rufi::path::Path;
use rufi::round_vm::RoundVM;
use rufi::sensor_id::{sensor, SensorId};
use rufi::slot::Slot::{Nbr, Rep};
use rufi::value::{Val, ValKind};

// One export at the path with head Nbr(0) over Rep(0).
fn export_at_nbr0_rep0(v: Val) -> Export {
    let mut export = Export::new();
    export.put(Path::from(vec![Rep(0), Nbr(0)]), v);
    export
}

fn round_vm_builder() -> RoundVM {
    let mut local_sensor: SensorMap<Val> = SensorMap::new();
    local_sensor.insert(sensor("sensor1"), Val::Int(10));
    let mut per_nbr: IdMap<Val> = IdMap::new();
    per_nbr.insert(0, Val::Int(4));
    let mut nbr_sensor: NbrSensors = SensorMap::new();
    nbr_sensor.insert(sensor("sensor1"), per_nbr);
    let mut exports: IdMap<Export> = IdMap::new();
    exports.insert(7, export_at_nbr0_rep0(Val::Int(10)));
    exports.insert(0, export_at_nbr0_rep0(Val::Int(2)));

    let context = Context::new(7, local_sensor, nbr_sensor, exports);
    let mut vm = RoundVM::new(context);
    vm.new_export_stack();
    vm.export_data().put(Path::new(), Val::Int(0));
    vm.status_mut().fold_into(Some(0));
    vm
}

fn expr(vm: RoundVM) -> (RoundVM, i32) {
    (vm, 5 * 3)
}

#[test]
fn test_export_data() {
    let mut vm = round_vm_builder();
    assert_eq!(vm.export_data().root(ValKind::Int), Val::Int(0))
}

#[test]
fn test_register_root() {
    let mut vm = round_vm_builder();
    vm.register_root(Val::Int(5 * 3));
    assert_eq!(vm.export_data().root(ValKind::Int), Val::Int(15))
}

#[test]
fn test_folded_eval() {
    let vm = round_vm_builder();
    let (vm_, result) = vm.folded_eval(expr, 7);
    let fresh = round_vm_builder();
    assert!(vm_.status().path().matches(fresh.status().path()));
    assert_eq!(vm_.status().index(), fresh.status().index());
    assert_eq!(vm_.status().neighbour(), fresh.status().neighbour());
    assert_eq!(vm_.status().stack().len(), fresh.status().stack().len());
    assert_eq!(result.unwrap(), 15)
}

#[test]
fn test_previous_round_val() {
    let mut vm = round_vm_builder();
    vm.status_mut().nest(Rep(0));
    vm.status_mut().nest(Nbr(0));
    assert_eq!(
        vm.previous_round_val(ValKind::Int).unwrap(),
        Val::Int(10)
    )
}

#[test]
fn test_neighbor_val() {
    let mut vm = round_vm_builder();
    vm.status_mut().nest(Rep(0));
    vm.status_mut().nest(Nbr(0));
    assert_eq!(vm.neighbor_val(ValKind::Int).unwrap(), Val::Int(2))
}

#[test]
fn round_vm_test_local_sense() {
    let vm = round_vm_builder();
    assert_eq!(
        vm.local_sense(&SensorId::new("sensor1".to_string())).unwrap(),
        &Val::Int(10)
    )
}

#[test]
fn round_vm_test_nbr_sense() {
    let vm = round_vm_builder();
    assert_eq!(
        vm.nbr_sense(&SensorId::new("sensor1".to_string())).unwrap(),
        &Val::Int(4)
    )
}

#[test]
fn test_aligned_neighbours() {
    let vm = round_vm_builder();
    assert_eq!(vm.aligned_neighbours(ValKind::Int), vec![7, 0])
}

#[test]
fn test_isolate() {
    let vm = round_vm_builder();
    let before = vm.aligned_neighbours(ValKind::Int);
    let (vm_, result) = vm.isolate(|v| {
        // isolation empties the neighbourhood for the duration
        assert_eq!(v.aligned_neighbours(ValKind::Int), Vec::<i32>::new());
        (v, 5 * 3)
    });
    // and restores it on exit
    assert_eq!(vm_.aligned_neighbours(ValKind::Int), before);
    assert_eq!(result, 15)
}

#[test]
fn test_locally_clears_neighbour() {
    let vm = round_vm_builder();
    assert_eq!(vm.neighbor(), Some(0));
    let (vm_, seen) = vm.locally(|v| {
        let n = v.neighbor();
        (v, n)
    });
    assert_eq!(seen, None);
    assert_eq!(vm_.neighbor(), Some(0));
}

#[test]
fn test_unless_folding_on_others() {
    let mut vm = round_vm_builder();
    assert!(!vm.unless_folding_on_others());
    vm.status_mut().fold_into(None);
    assert!(vm.unless_folding_on_others());
    vm.status_mut().fold_into(Some(7));
    assert!(vm.unless_folding_on_others());
}

#[test]
fn test_only_when_folding_on_self() {
    let mut vm = round_vm_builder();
    assert!(!vm.only_when_folding_on_self());
    vm.status_mut().fold_into(None);
    assert!(!vm.only_when_folding_on_self());
    vm.status_mut().fold_into(Some(7));
    assert!(vm.only_when_folding_on_self());
}

#[test]
fn test_neighbor_val_errors_outside_folding() {
    let mut vm = round_vm_builder();
    vm.status_mut().fold_into(None);
    assert!(vm.neighbor_val(ValKind::Int).is_err());
}

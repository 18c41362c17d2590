use rufi::context::{Context, NbrSensors, SensorMap};
use rufi::export::Export;
use rufi::idmap::IdMap;
use rufi::path::Path;
use rufi::sensor_id::{sensor, SensorId};
use rufi::slot::Slot::{Branch, Nbr, Rep};
use rufi::value::{Val, ValKind};

fn context_builder() -> Context {
    let mut local_sensor: SensorMap<Val> = SensorMap::new();
    local_sensor.insert(sensor("test"), Val::Int(10));
    let mut per_nbr: IdMap<Val> = IdMap::new();
    per_nbr.insert(0, Val::Int(10));
    let mut nbr_sensor: NbrSensors = SensorMap::new();
    nbr_sensor.insert(sensor("test"), per_nbr);
    let mut export = Export::new();
    export.put(Path::from(vec![Rep(0), Nbr(0)]), Val::Int(10));
    let mut exports: IdMap<Export> = IdMap::new();
    exports.insert(0, export);
    Context::new(7, local_sensor, nbr_sensor, exports)
}

#[test]
fn assert_on_fields() {
    let context = context_builder();
    assert_eq!(context.self_id(), 7);
    assert_eq!(context.exports().len(), 1);
    assert_eq!(context.local_sensors().len(), 1);
    assert_eq!(context.nbr_sensors().len(), 1);
}

#[test]
fn test_put_export() {
    let mut context = context_builder();
    assert_eq!(context.exports().len(), 1);
    let mut add_export = Export::new();
    add_export.put(Path::from(vec![Branch(0), Nbr(0)]), Val::Int(5));
    context.put_export(1, add_export);
    assert_eq!(context.exports().len(), 2)
}

#[test]
fn test_read_export_value() {
    let context = context_builder();
    assert_eq!(
        context
            .read_export_value(0, &Path::from(vec![Rep(0), Nbr(0)]), ValKind::Int)
            .unwrap(),
        Val::Int(10)
    );
    assert!(context
        .read_export_value(1, &Path::new(), ValKind::Int)
        .is_err());
    assert!(context
        .read_export_value(0, &Path::new(), ValKind::Int)
        .is_err());
}

#[test]
fn context_test_local_sense() {
    let context = context_builder();
    assert_eq!(
        context
            .local_sense(&SensorId::new("test".to_string()))
            .unwrap(),
        &Val::Int(10)
    );
}

#[test]
fn context_test_nbr_sense() {
    let context = context_builder();
    assert_eq!(
        context
            .nbr_sense(&SensorId::new("test".to_string()), 0)
            .unwrap(),
        &Val::Int(10)
    );
}

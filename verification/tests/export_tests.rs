use rufi::export::{Export, QueryError};
use rufi::path::Path;
use rufi::slot::Slot::{Nbr, Rep};
use rufi::value::{Val, ValKind};

// `Path::from` takes the slots root-outwards: the head is the last element.
fn path_rep0_nbr0() -> Path {
    // head Nbr(0), below it Rep(0)
    Path::from(vec![Rep(0), Nbr(0)])
}

fn export_one(path: Path, v: Val) -> Export {
    let mut export = Export::new();
    export.put(path, v);
    export
}

#[test]
fn test_new_empty() {
    let export: Export = Export::new();
    assert!(export.paths().is_empty())
}

#[test]
fn export_test_new() {
    let export = export_one(path_rep0_nbr0(), Val::Int(10));
    assert_eq!(export.paths().len(), 1);
}

#[test]
fn test_put() {
    let mut export = export_one(Path::from(vec![Rep(0)]), Val::Int(10));
    export.put(path_rep0_nbr0(), Val::Int(20));
    export.put(Path::from(vec![Nbr(0)]), Val::Str("foo".to_string()));
    assert_eq!(export.paths().len(), 3);
}

#[test]
fn test_get() {
    let export = export_one(path_rep0_nbr0(), Val::Int(10));
    assert_eq!(
        export.get(&path_rep0_nbr0(), ValKind::Int).unwrap(),
        Val::Int(10)
    );
}

#[test]
fn test_get_none() {
    let export = export_one(path_rep0_nbr0(), Val::Int(10));
    assert!(export.get(&path_rep0_nbr0(), ValKind::Str).is_err());
}

#[test]
fn test_root() {
    let export = export_one(Path::new(), Val::Int(10));
    assert_eq!(export.root(ValKind::Int), Val::Int(10));
}

#[test]
#[should_panic]
fn test_root_panic() {
    let export = export_one(Path::new(), Val::Int(10));
    assert_eq!(export.root(ValKind::Str), Val::Str("foo".to_string()));
}

#[test]
fn test_paths() {
    let export = export_one(Path::new(), Val::Int(10));
    let paths = export.paths();
    assert_eq!(paths.len(), 1);
    assert!(paths[0].is_root());
}

#[test]
fn test_empty_state() {
    let export: Export = Export::new();
    let path = path_rep0_nbr0();
    assert!(export.get(&Path::new(), ValKind::Int).is_err());
    assert!(export.get(&path, ValKind::Int).is_err());
}

#[test]
fn test_root_path() {
    let mut export: Export = Export::new();
    export.put(Path::new(), Val::Str(String::from("foo")));
    assert_eq!(
        export.get(&Path::new(), ValKind::Str).unwrap(),
        export.root(ValKind::Str)
    );
    assert_eq!(
        export.get(&Path::new(), ValKind::Str).unwrap(),
        Val::Str("foo".to_string())
    );
}

#[test]
fn test_non_root_path() {
    let mut export: Export = Export::new();
    let path = path_rep0_nbr0();
    export.put(path.clone(), Val::Str(String::from("bar")));
    assert_eq!(
        export.get(&path, ValKind::Str).unwrap(),
        Val::Str(String::from("bar"))
    );
}

#[test]
fn test_overwriting_with_different_type() {
    let mut export: Export = Export::new();
    export.put(Path::new(), Val::Str(String::from("foo")));
    assert_eq!(
        export.get(&Path::new(), ValKind::Str).unwrap(),
        Val::Str("foo".to_string())
    );
    export.put(Path::new(), Val::Int(77));
    assert_eq!(export.get(&Path::new(), ValKind::Int).unwrap(), Val::Int(77));
}

#[test]
fn test_put_lazy() {
    let mut export: Export = Export::new();
    export.put_lazy(Path::from(vec![Nbr(0)]), || Val::Int(10));
    assert_eq!(
        export.get(&Path::from(vec![Nbr(0)]), ValKind::Int).unwrap(),
        Val::Int(10)
    );
}

#[test]
fn test_put_lazy_and_return() {
    let mut export: Export = Export::new();
    let value = export.put_lazy_and_return(Path::from(vec![Nbr(0)]), || Val::Int(10));
    assert_eq!(value, Val::Int(10));
    assert_eq!(
        export.get(&Path::from(vec![Nbr(0)]), ValKind::Int).unwrap(),
        Val::Int(10)
    );
}

#[test]
fn test_partial_eq() {
    let export1 = export_one(path_rep0_nbr0(), Val::Int(10));
    let export2 = export_one(path_rep0_nbr0(), Val::Int(10));
    assert_eq!(export1, export2);

    let export3 = export_one(path_rep0_nbr0(), Val::Int(100));
    assert_ne!(export1, export3);
}

#[test]
fn test_eq_across_string_form() {
    // a value stored in string form reads back equal to its typed form
    let export1 = export_one(Path::new(), Val::Int(12));
    let export2 = export_one(Path::new(), Val::Str("12".to_string()));
    assert_eq!(export1, export2);
}

#[test]
fn test_parse_on_read() {
    let mut export: Export = Export::new();
    export.put(Path::new(), Val::Str("42".to_string()));
    assert_eq!(export.get(&Path::new(), ValKind::Int).unwrap(), Val::Int(42));
    export.put(Path::new(), Val::Str("true".to_string()));
    assert_eq!(
        export.get(&Path::new(), ValKind::Bool).unwrap(),
        Val::Bool(true)
    );
}

#[test]
fn test_eq_needs_same_key_count() {
    let mut export1 = export_one(Path::new(), Val::Int(1));
    let export2 = export_one(Path::new(), Val::Int(1));
    export1.put(Path::from(vec![Nbr(0)]), Val::Int(2));
    assert_ne!(export1, export2);
}

#[test]
fn test_real_domain_round_trips() {
    let mut export = Export::new();
    export.put(Path::new(), Val::Real(1.5f64.to_bits()));
    assert_eq!(
        export.get(&Path::new(), ValKind::Real).unwrap(),
        Val::Real(1.5f64.to_bits())
    );
    assert!(export.get(&Path::new(), ValKind::Int).is_err());
}

#[test]
fn test_query_errors() {
    let mut export: Export = Export::new();
    assert_eq!(
        export.get(&Path::new(), ValKind::Int),
        Err(QueryError::NoValue)
    );
    export.put(Path::new(), Val::Str("abc".to_string()));
    assert_eq!(
        export.get(&Path::new(), ValKind::Int),
        Err(QueryError::CannotParse)
    );
    export.put(Path::new(), Val::Bool(true));
    assert_eq!(
        export.get(&Path::new(), ValKind::Int),
        Err(QueryError::NoValue)
    );
}

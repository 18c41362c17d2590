use rufi::path::Path;
use rufi::sensor_id::SensorId;
use rufi::slot::Slot::{Branch, Exchange, FoldHood, Nbr, Rep};
use rufi::text::{i32_to_string, parse_bool, parse_i32};

#[test]
fn test_is_root() {
    let empty_path = Path::from(Vec::new());
    let not_empty_path = Path::from(vec![Rep(0), Nbr(0), Nbr(1), Branch(0)]);
    assert!(empty_path.is_root());
    assert!(!not_empty_path.is_root())
}

#[test]
fn test_not_empty_head() {
    let path = Path::from(vec![Rep(0), Nbr(0), Nbr(1), Branch(0)]);
    assert_eq!(path.head().unwrap(), Branch(0))
}

#[test]
fn test_empty_head() {
    let path = Path::new();
    assert!(path.head().is_none())
}

#[test]
fn test_push() {
    // head first: Nbr(1), then Nbr(0), then Rep(0)
    let mut path = Path::from(vec![Rep(0), Nbr(0), Nbr(1)]);
    path.push(Branch(0));
    let expected = Path::from(vec![Rep(0), Nbr(0), Nbr(1), Branch(0)]);
    assert!(path.matches(&expected))
}

#[test]
fn test_not_empty_pull() {
    let mut path = Path::from(vec![Rep(0), Nbr(0), Nbr(1), Branch(0)]);
    path.pull();
    assert!(path.matches(&Path::from(vec![Rep(0), Nbr(0), Nbr(1)])))
}

#[test]
fn test_empty_pull() {
    let mut path = Path::new();
    assert!(path.pull().is_none());
}

#[test]
fn test_to_str() {
    // head first: Branch(0), Nbr(1), Nbr(0), Rep(0)
    let path = Path::from(vec![Rep(0), Nbr(0), Nbr(1), Branch(0)]);
    assert_eq!(path.to_str(), "P://Branch(0)/Nbr(1)/Nbr(0)/Rep(0)")
}

#[test]
fn test_matches() {
    let path = Path::from(vec![Rep(0), Nbr(0), Nbr(1), Branch(0)]);
    assert!(path.matches(&Path::from(vec![Rep(0), Nbr(0), Nbr(1), Branch(0)])));
    assert!(!path.matches(&Path::from(vec![Nbr(0), Nbr(1), Branch(0)])))
}

#[test]
fn test_slot_creation() {
    let nbr = Nbr(0);
    let rep = Rep(0);
    let foldhood = FoldHood(0);
    let branch = Branch(0);
    let exchange = Exchange(0);
    assert_eq!(nbr, Nbr(0));
    assert_eq!(rep, Rep(0));
    assert_eq!(foldhood, FoldHood(0));
    assert_eq!(branch, Branch(0));
    assert_eq!(exchange, Exchange(0));
}

#[test]
fn test_slot_to_string() {
    let nbr = Nbr(0);
    let rep = Rep(0);
    let branch = Branch(0);
    let exchange = Exchange(0);
    assert_eq!(nbr.to_str(), "Nbr(0)");
    assert_eq!(rep.to_str(), "Rep(0)");
    assert_eq!(branch.to_str(), "Branch(0)");
    assert_eq!(exchange.to_str(), "Exchange(0)");
}

#[test]
fn sensor_id_test_new() {
    let sensor_id = SensorId::new("foo".to_string());
    assert_eq!(sensor_id.name, "foo".to_string())
}

#[test]
fn test_decimal_rendering() {
    assert_eq!(i32_to_string(0), "0");
    assert_eq!(i32_to_string(42), "42");
    assert_eq!(i32_to_string(-7), "-7");
    assert_eq!(i32_to_string(i32::MAX), "2147483647");
    assert_eq!(i32_to_string(i32::MIN), "-2147483648");
}

#[test]
fn test_decimal_parsing() {
    assert_eq!(parse_i32("0"), Some(0));
    assert_eq!(parse_i32("42"), Some(42));
    assert_eq!(parse_i32("+42"), Some(42));
    assert_eq!(parse_i32("-7"), Some(-7));
    assert_eq!(parse_i32("2147483647"), Some(i32::MAX));
    assert_eq!(parse_i32("2147483648"), None);
    assert_eq!(parse_i32("-2147483648"), Some(i32::MIN));
    assert_eq!(parse_i32("-2147483649"), None);
    assert_eq!(parse_i32(""), None);
    assert_eq!(parse_i32("-"), None);
    assert_eq!(parse_i32("12a"), None);
    assert_eq!(parse_i32("4 2"), None);
}

#[test]
fn test_bool_parsing() {
    assert_eq!(parse_bool("true"), Some(true));
    assert_eq!(parse_bool("false"), Some(false));
    assert_eq!(parse_bool("True"), None);
    assert_eq!(parse_bool(""), None);
}

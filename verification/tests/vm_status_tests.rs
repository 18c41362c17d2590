use rufi::path::Path;
use rufi::slot::Slot::{Nbr, Rep};
use rufi::vm_status::VMStatus;

#[test]
fn test_empty() {
    let status = VMStatus::new();
    assert!(status.path().matches(&Path::new()));
    assert_eq!(status.index(), 0);
    assert_eq!(status.neighbour(), None)
}

#[test]
fn test_fold_unfold() {
    let mut status_1 = VMStatus::new();
    let mut status_2 = VMStatus::new();
    assert_eq!(status_1.neighbour(), None);
    assert!(!status_1.is_folding());
    status_1.fold_into(Some(7));
    status_2.fold_into(Some(8));
    assert_eq!(status_1.neighbour(), Some(7));
    assert!(status_1.is_folding());
    assert_eq!(status_2.neighbour(), Some(8));
    assert!(status_2.is_folding())
}

#[test]
fn test_as_stack() {
    let mut status = VMStatus::new();
    status.push();
    let mut s2 = status.clone();
    s2.fold_into(Some(7));
    s2.nest(Nbr(2));
    s2.push();
    let mut s3 = s2.clone();
    s3.fold_into(Some(8));
    s3.nest(Rep(4));
    s3.inc_index();
    s3.push();
    let mut s4 = s3.clone();
    s4.pop();
    let mut s5 = s4.clone();
    s5.pop();
    let mut s6 = s5.clone();
    s6.pop();
    assert_eq!(s4.index(), 1);
    assert_eq!(s4.neighbour(), Some(8));
    assert!(s4.path().matches(&Path::from(vec![Nbr(2), Rep(4)])));
    assert_eq!(s5.index(), 0);
    assert_eq!(s5.neighbour(), Some(7));
    assert!(s5.path().matches(&Path::from(vec![Nbr(2)])));
    assert_eq!(s6.index(), 0);
    assert_eq!(s6.neighbour(), None);
    assert!(s6.path().matches(&Path::new()));
}

#[test]
fn test_index() {
    let mut status = VMStatus::new();
    assert_eq!(status.index(), 0);
    status.inc_index();
    assert_eq!(status.index(), 1);
    status.inc_index();
    status.inc_index();
    assert_eq!(status.index(), 3);
    status.nest(Nbr(0));
    assert_eq!(status.index(), 0);
    status.inc_index();
    assert_eq!(status.index(), 1);
}

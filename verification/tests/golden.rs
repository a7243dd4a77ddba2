use revision::testkit::golden::{golden_verdict, same_bytes, Golden};

#[test]
fn an_identical_render_matches() {
    assert_eq!(golden_verdict(Some(&[1, 2, 3]), &[1, 2, 3], false), Golden::Matches);
    assert_eq!(golden_verdict(Some(&[1, 2, 3]), &[1, 2, 3], true), Golden::Matches);
}

#[test]
fn a_missing_reference_fails_even_when_blessing() {
    assert_eq!(golden_verdict(None, &[1], false), Golden::Missing);
    assert_eq!(golden_verdict(None, &[1], true), Golden::Missing);
}

#[test]
fn a_different_render_fails_unless_blessed() {
    assert_eq!(golden_verdict(Some(&[1, 2, 3]), &[1, 2, 4], false), Golden::Differs);
    assert_eq!(golden_verdict(Some(&[1, 2, 3]), &[1, 2], false), Golden::Differs);
    assert_eq!(golden_verdict(Some(&[1, 2, 3]), &[1, 2, 4], true), Golden::Blessed);
}

#[test]
fn bytes_compare_exactly() {
    assert!(same_bytes(&[], &[]));
    assert!(!same_bytes(&[0], &[]));
    assert!(!same_bytes(&[0, 1], &[0, 2]));
}

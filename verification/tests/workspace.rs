#[test]
fn workspace_builds() {
    assert_eq!(2 + 2, 4);
}

#[test]
fn cgtest() {}

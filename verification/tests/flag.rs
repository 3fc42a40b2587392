use deno_unsync::Flag;

#[test]
fn test_raise_lower() {
    let mut flag = Flag::default();
    assert!(!flag.is_raised());
    flag.raise();
    assert!(flag.is_raised());
    flag.raise();
    assert!(flag.is_raised());
    flag.lower();
    assert!(!flag.is_raised());
    flag.lower();
    assert!(!flag.is_raised());
}

#[test]
fn lower_tells_whether_the_flag_was_raised() {
    let mut flag = Flag::raised();
    assert!(flag.is_raised());
    assert!(flag.lower());
    assert!(!flag.lower());
    flag.raise();
    assert!(flag.lower());
}

use eudalloc::epscript::Lib;

#[test]
fn boolean_parameters_chain() {
    let mut lib = Lib::new();
    lib.set_param().boolean("strict", true).boolean("debug", false);
    let params = &lib.params;
    assert_eq!(params.len(), 2);
    let (name0, value0) = params.get(0);
    assert_eq!(name0.as_str(), "strict");
    assert!(value0);
    let (name1, value1) = params.get(1);
    assert_eq!(name1.as_str(), "debug");
    assert!(!value1);
}

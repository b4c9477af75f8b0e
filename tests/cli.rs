use rebos::cli::CLIBoolean;

#[test]
fn cli_boolean_values() {
    assert!(CLIBoolean::Yes.bool());
    assert!(!CLIBoolean::No.bool());
}

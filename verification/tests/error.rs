use muharrir::Error;

#[test]
fn error_messages() {
    assert_eq!(Error::Expr("bad".into()).to_string(), "expression error: bad");
    assert_eq!(Error::History("gone".into()).to_string(), "history error: gone");
    assert_eq!(Error::Command("failed".into()).to_string(), "command error: failed");
    assert_eq!(Error::Serde("eof".into()).to_string(), "serialization error: eof");
}

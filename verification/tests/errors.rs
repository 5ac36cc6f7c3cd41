use valv::cli::{check_inputs, decrypt_failure, writes_destination};
use valv::crypto::DecryptError;
use valv::ValvError;

#[test]
fn exit_codes() {
    assert_eq!(ValvError::InvalidPassword.exit_code(), 2);
    assert_eq!(ValvError::Message("x".to_string(), 7).exit_code(), 7);
    assert_eq!(ValvError::Decrypt(DecryptError::InvalidPassword).exit_code(), 2);
    assert_eq!(ValvError::Decrypt(DecryptError::CorruptHeader("c")).exit_code(), 1);
    assert_eq!(ValvError::from(std::io::Error::new(std::io::ErrorKind::Other, "e")).exit_code(), 1);
}

#[test]
fn decrypt_errors_convert() {
    assert!(matches!(ValvError::from(DecryptError::InvalidPassword), ValvError::InvalidPassword));
    assert!(matches!(
        ValvError::from(DecryptError::Io(std::io::Error::new(std::io::ErrorKind::Other, "e"))),
        ValvError::Io(_)
    ));
    let e = ValvError::from(DecryptError::CorruptHeader("Invalid JSON metadata"));
    assert!(matches!(e, ValvError::Decrypt(DecryptError::CorruptHeader("Invalid JSON metadata"))));
    assert_eq!(e.exit_code(), 1);
    assert_eq!(e.message(), "Corrupt file header: Invalid JSON metadata");
}

#[test]
fn error_texts() {
    assert_eq!(ValvError::InvalidPassword.message(), "Incorrect password");
    assert_eq!(ValvError::Message("No input files specified.".to_string(), 1).message(), "No input files specified.");
    assert_eq!(ValvError::Io(std::io::Error::new(std::io::ErrorKind::Other, "boom")).message(), "boom");
}

#[test]
fn command_decisions() {
    match check_inputs(&Vec::new()) {
        Err(ValvError::Message(m, 1)) => assert_eq!(m, "No input files specified."),
        _ => panic!("an empty file list must be refused"),
    }
    assert!(check_inputs(&vec!["a".to_string()]).is_ok());

    assert!(writes_destination(false, false));
    assert!(writes_destination(false, true));
    assert!(writes_destination(true, true));
    assert!(!writes_destination(true, false));

    let wrong = decrypt_failure(DecryptError::InvalidPassword, "Failed to read x.valv");
    assert!(matches!(wrong, ValvError::InvalidPassword));
    assert_eq!(wrong.exit_code(), 2);
    let corrupt = decrypt_failure(DecryptError::CorruptHeader("Missing initial newline"), "Failed to read x.valv");
    assert_eq!(corrupt.exit_code(), 1);
    assert_eq!(corrupt.message(), "Failed to read x.valv: Corrupt file header: Missing initial newline");
}

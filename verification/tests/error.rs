use rusted::error::Error;

#[test]
fn descriptions() {
    assert_eq!(Error::InvalidAddress.description(), "Invalid address");
    assert_eq!(Error::InvalidCommand.description(), "Invalid command");
    assert_eq!(Error::NoCommand.description(), "No command provided");
    assert_eq!(Error::NoFilename.description(), "No current filename");
    assert_eq!(Error::Io.description(), "I/O error");
}

use compacto::Error;

#[test]
fn an_io_failure_is_told_by_the_name_of_its_kind() {
    let error = Error::from(std::io::Error::from(std::io::ErrorKind::NotFound));
    assert!(matches!(error, Error::IO(std::io::ErrorKind::NotFound)));
    assert_eq!(error.to_string(), "NotFound");
    assert_eq!(
        Error::IO(std::io::ErrorKind::PermissionDenied).to_string(),
        "PermissionDenied"
    );
}

#[test]
fn the_other_errors_are_told_by_their_message() {
    assert_eq!(Error::JSONError("bad".to_string()).to_string(), "bad");
    assert_eq!(
        Error::UnknownJSONValueRef("[1]".to_string()).to_string(),
        "[1]"
    );
}

#[test]
fn an_error_can_end_a_function_that_returns_result() {
    fn read() -> compacto::Result<String> {
        let text = compacto::compress_json("[")?;
        Ok(text)
    }
    assert!(matches!(read(), Err(Error::JSONError(_))));
}

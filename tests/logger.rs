use radicle_httpd::logger::{init, LoggerError};

#[test]
fn logger_installs_once() {
    assert_eq!(init(), Ok(()));
    assert_eq!(init(), Err(LoggerError::AlreadyInstalled));
}

use libgpiod::request;
use libgpiod::{Error as ChipError, OperationType};

#[test]
fn request_config_default() {
    let rconfig = request::Config::new().unwrap();

    assert_eq!(rconfig.event_buffer_size(), 0);
    assert_eq!(
        rconfig.consumer().unwrap_err(),
        ChipError::OperationFailed(OperationType::RequestConfigGetConsumer, errno::Errno(0))
    );
}

#[test]
fn initialized() {
    let mut rconfig = request::Config::new().unwrap();
    rconfig.set_consumer("foobar").unwrap();
    rconfig.set_event_buffer_size(64);

    assert_eq!(rconfig.event_buffer_size(), 64);
    assert_eq!(rconfig.consumer().unwrap(), "foobar");
}

#[test]
fn long_consumer_is_truncated() {
    let mut rconfig = request::Config::new().unwrap();
    rconfig.set_consumer("abcdefghijklmnopqrstuvwxyz-abcdefghijklm").unwrap();
    assert_eq!(rconfig.consumer().unwrap(), "abcdefghijklmnopqrstuvwxyz-abcd");
}

#[test]
fn nul_consumer_is_rejected() {
    let mut rconfig = request::Config::new().unwrap();
    assert_eq!(rconfig.set_consumer("a\0b").unwrap_err(), ChipError::InvalidString);
}

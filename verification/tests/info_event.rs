use std::time::Duration;

use libgpiod::chip::Chip;
use libgpiod::sim::Sim;
use libgpiod::{Error as ChipError, OperationType};

#[test]
fn line_info() {
    let mut sim = Sim::new(Some(8), None, true).unwrap();
    let chip = Chip::open(&sim).unwrap();

    assert_eq!(
        chip.watch_line_info(&mut sim, 8).unwrap_err(),
        ChipError::OperationFailed(OperationType::ChipWatchLineInfo, errno::Errno(libc::EINVAL))
    );

    let info = chip.watch_line_info(&mut sim, 7).unwrap();
    assert_eq!(info.offset(), 7);

    // No events available
    assert!(!chip.wait_info_event(&sim, Some(Duration::from_millis(100))).unwrap());
}

#[test]
fn read_without_event_fails() {
    let mut sim = Sim::new(Some(8), None, true).unwrap();
    let chip = Chip::open(&sim).unwrap();
    chip.watch_line_info(&mut sim, 7).unwrap();
    assert_eq!(
        chip.read_info_event(&mut sim).unwrap_err(),
        ChipError::OperationFailed(OperationType::ChipReadInfoEvent, errno::Errno(libc::EAGAIN))
    );
}

#[test]
fn reconfigure() {
    let mut sim = Sim::new(Some(8), None, true).unwrap();
    let chip = Chip::open(&sim).unwrap();
    let info = chip.watch_line_info(&mut sim, 7).unwrap();
    assert_eq!(info.direction().unwrap(), libgpiod::line::Direction::Input);

    // Request the watched line
    let rconfig = libgpiod::request::Config::new().unwrap();
    let mut lconfig1 = libgpiod::line::Config::new().unwrap();
    lconfig1
        .add_line_settings(&[7], libgpiod::line::Settings::new().unwrap())
        .unwrap();
    let mut request = chip.request_lines(&mut sim, Some(&rconfig), &lconfig1).unwrap();

    // Line requested event
    assert!(chip.wait_info_event(&sim, Some(Duration::from_secs(1))).unwrap());
    let event = chip.read_info_event(&mut sim).unwrap();
    let ts_req = event.timestamp();
    assert_eq!(
        event.event_type().unwrap(),
        libgpiod::line::InfoChangeKind::LineRequested
    );
    assert_eq!(
        event.line_info().unwrap().direction().unwrap(),
        libgpiod::line::Direction::Input
    );

    // Reconfigure the line to an output
    let mut lconfig2 = libgpiod::line::Config::new().unwrap();
    let mut lsettings = libgpiod::line::Settings::new().unwrap();
    lsettings.set_direction(libgpiod::line::Direction::Output).unwrap();
    lconfig2.add_line_settings(&[7], lsettings).unwrap();
    request.reconfigure_lines(&mut sim, &lconfig2).unwrap();

    // Line changed event
    assert!(chip.wait_info_event(&sim, Some(Duration::from_secs(1))).unwrap());
    let event = chip.read_info_event(&mut sim).unwrap();
    let ts_rec = event.timestamp();
    assert_eq!(
        event.event_type().unwrap(),
        libgpiod::line::InfoChangeKind::LineConfigChanged
    );
    assert_eq!(
        event.line_info().unwrap().direction().unwrap(),
        libgpiod::line::Direction::Output
    );

    // Release the line
    request.release(&mut sim);

    // Line released event
    assert!(chip.wait_info_event(&sim, Some(Duration::from_secs(1))).unwrap());
    let event = chip.read_info_event(&mut sim).unwrap();
    let ts_rel = event.timestamp();
    assert_eq!(
        event.event_type().unwrap(),
        libgpiod::line::InfoChangeKind::LineReleased
    );

    // No events available
    assert!(!chip.wait_info_event(&sim, Some(Duration::from_millis(100))).unwrap());

    // Check timestamps are really monotonic.
    assert!(ts_rel > ts_rec);
    assert!(ts_rec > ts_req);
}

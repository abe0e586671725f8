use std::time::Duration;

use libgpiod::chip::Chip;
use libgpiod::line::{Direction, Drive, EventClock};
use libgpiod::sim::{Direction as SimDirection, Sim};
use libgpiod::{Error as ChipError, OperationType};

#[test]
fn line_info_default() {
    let mut sim = Sim::new(Some(8), None, false).unwrap();
    sim.set_line_name(4, "four").unwrap();
    sim.hog_line(4, "hog4", SimDirection::OutputLow).unwrap();
    sim.enable().unwrap();

    let chip = Chip::open(&sim).unwrap();

    let info4 = chip.line_info(&sim, 4).unwrap();
    assert_eq!(info4.offset(), 4);
    assert_eq!(info4.name().unwrap(), "four");
    assert!(info4.is_used());
    assert_eq!(info4.consumer().unwrap(), "hog4");
    assert_eq!(info4.direction().unwrap(), Direction::Output);
    assert!(!info4.is_active_low());
    assert_eq!(info4.bias().unwrap(), None);
    assert_eq!(info4.drive().unwrap(), Drive::PushPull);
    assert_eq!(info4.edge_detection().unwrap(), None);
    assert_eq!(info4.event_clock().unwrap(), EventClock::Monotonic);
    assert!(!info4.is_debounced());
    assert_eq!(info4.debounce_period(), Duration::from_millis(0));

    assert_eq!(
        chip.line_info(&sim, 8).unwrap_err(),
        ChipError::OperationFailed(OperationType::ChipGetLineInfo, errno::Errno(libc::EINVAL))
    );
}

#[test]
fn name_and_offset() {
    let mut sim = Sim::new(Some(8), None, false).unwrap();

    // Line 0 has no name
    for i in 1..8u32 {
        sim.set_line_name(i, &i.to_string()).unwrap();
    }
    sim.enable().unwrap();

    let chip = Chip::open(&sim).unwrap();
    let info = chip.line_info(&sim, 0).unwrap();

    assert_eq!(info.offset(), 0);
    assert_eq!(info.name().unwrap_err(), ChipError::NullString("GPIO line's name"));

    for i in 1..8u32 {
        let info = chip.line_info(&sim, i).unwrap();
        assert_eq!(info.offset(), i);
        assert_eq!(info.name().unwrap(), &i.to_string());
    }
}

#[test]
fn is_used() {
    let mut sim = Sim::new(Some(8), None, false).unwrap();
    sim.hog_line(0, "hog", SimDirection::OutputHigh).unwrap();
    sim.enable().unwrap();

    let chip = Chip::open(&sim).unwrap();

    let info = chip.line_info(&sim, 0).unwrap();
    assert!(info.is_used());

    let info = chip.line_info(&sim, 1).unwrap();
    assert!(!info.is_used());
}

#[test]
fn consumer() {
    let mut sim = Sim::new(Some(8), None, false).unwrap();
    sim.hog_line(0, "hog", SimDirection::OutputHigh).unwrap();
    sim.enable().unwrap();

    let chip = Chip::open(&sim).unwrap();

    let info = chip.line_info(&sim, 0).unwrap();
    assert_eq!(info.consumer().unwrap(), "hog");

    let info = chip.line_info(&sim, 1).unwrap();
    assert_eq!(
        info.consumer().unwrap_err(),
        ChipError::NullString("GPIO line's consumer name")
    );
}

#[test]
fn line_info_direction() {
    let mut sim = Sim::new(Some(8), None, false).unwrap();
    sim.hog_line(0, "hog", SimDirection::Input).unwrap();
    sim.hog_line(1, "hog", SimDirection::OutputHigh).unwrap();
    sim.hog_line(2, "hog", SimDirection::OutputLow).unwrap();
    sim.enable().unwrap();

    let chip = Chip::open(&sim).unwrap();

    let info = chip.line_info(&sim, 0).unwrap();
    assert_eq!(info.direction().unwrap(), Direction::Input);

    let info = chip.line_info(&sim, 1).unwrap();
    assert_eq!(info.direction().unwrap(), Direction::Output);

    let info = chip.line_info(&sim, 2).unwrap();
    assert_eq!(info.direction().unwrap(), Direction::Output);
}

#[test]
fn cloned_info_outlives_event() {
    let mut sim = Sim::new(Some(1), None, false).unwrap();
    sim.set_line_name(0, "Test line").unwrap();
    sim.enable().unwrap();

    let chip = Chip::open(&sim).unwrap();
    chip.watch_line_info(&mut sim, 0).unwrap();

    let info = chip.line_info(&sim, 0).unwrap();
    let owned = info.try_clone().unwrap();
    drop(info);
    assert_eq!(owned.name().unwrap(), "Test line");
}

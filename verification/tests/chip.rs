use libgpiod::chip::Chip;
use libgpiod::line::Direction;
use libgpiod::sim::{Direction as SimDirection, Pull, Sim, Value as SimValue};
use libgpiod::{Error as ChipError, OperationType};

#[test]
fn gpiosim_file() {
    let sim = Sim::new(None, None, true).unwrap();
    assert!(Chip::open(&sim).is_ok());
}

#[test]
fn basic_helpers() {
    let mut sim = Sim::new(Some(16), None, true).unwrap();
    sim.disable().unwrap();
    sim.set_label("foobar").unwrap();
    sim.enable().unwrap();
    let chip = Chip::open(&sim).unwrap();
    let info = chip.info().unwrap();

    assert_eq!(info.label().unwrap(), "foobar");
    assert_eq!(info.name().unwrap(), sim.chip_name());
    assert_eq!(chip.path().unwrap(), sim.dev_path().as_str());
    assert_eq!(info.num_lines(), 16);
}

#[test]
fn find_line() {
    let mut sim = Sim::new(Some(16), None, false).unwrap();
    sim.set_line_name(0, "zero").unwrap();
    sim.set_line_name(2, "two").unwrap();
    sim.set_line_name(3, "three").unwrap();
    sim.set_line_name(5, "five").unwrap();
    sim.set_line_name(10, "ten").unwrap();
    sim.set_line_name(11, "ten").unwrap();
    sim.enable().unwrap();

    let chip = Chip::open(&sim).unwrap();

    // Success case
    assert_eq!(chip.line_offset_from_name(&sim, "zero").unwrap(), 0);
    assert_eq!(chip.line_offset_from_name(&sim, "two").unwrap(), 2);
    assert_eq!(chip.line_offset_from_name(&sim, "three").unwrap(), 3);
    assert_eq!(chip.line_offset_from_name(&sim, "five").unwrap(), 5);

    // Success with duplicate names, should return first entry
    assert_eq!(chip.line_offset_from_name(&sim, "ten").unwrap(), 10);

    // Failure
    assert_eq!(
        chip.line_offset_from_name(&sim, "nonexistent").unwrap_err(),
        ChipError::OperationFailed(
            OperationType::ChipGetLineOffsetFromName,
            errno::Errno(libc::ENOENT),
        )
    );
}

#[test]
fn closed_device_file() {
    let sim = Sim::new(None, None, false).unwrap();
    assert_eq!(
        Chip::open(&sim).unwrap_err(),
        ChipError::OperationFailed(OperationType::ChipOpen, errno::Errno(libc::ENOENT))
    );
}

#[test]
fn pull_drives_input_level() {
    let mut sim = Sim::new(Some(4), None, true).unwrap();
    assert_eq!(sim.val(1).unwrap(), SimValue::InActive);
    sim.set_pull(1, Pull::Up).unwrap();
    assert_eq!(sim.val(1).unwrap(), SimValue::Active);
    sim.set_pull(1, Pull::Down).unwrap();
    assert_eq!(sim.val(1).unwrap(), SimValue::InActive);
}

#[test]
fn hogged_line_reports_direction() {
    let mut sim = Sim::new(Some(8), None, false).unwrap();
    sim.hog_line(0, "hog", SimDirection::Input).unwrap();
    sim.hog_line(1, "hog", SimDirection::OutputHigh).unwrap();
    sim.hog_line(2, "hog", SimDirection::OutputLow).unwrap();
    sim.enable().unwrap();

    let chip = Chip::open(&sim).unwrap();
    assert_eq!(chip.line_info(&sim, 0).unwrap().direction().unwrap(), Direction::Input);
    assert_eq!(chip.line_info(&sim, 1).unwrap().direction().unwrap(), Direction::Output);
    assert_eq!(chip.line_info(&sim, 2).unwrap().direction().unwrap(), Direction::Output);
    assert_eq!(sim.val(1).unwrap(), SimValue::Active);
    assert_eq!(sim.val(2).unwrap(), SimValue::InActive);
}

use std::time::Duration;

use libgpiod::chip::Chip;
use libgpiod::line::{Bias, Config, Direction, Edge, Settings, SettingVal, Value, ValueMap};
use libgpiod::request;
use libgpiod::sim::{Pull, Sim, Value as SimValue};
use libgpiod::{Error as ChipError, OperationType};

#[test]
fn no_offsets() {
    let mut sim = Sim::new(Some(8), None, true).unwrap();
    let chip = Chip::open(&sim).unwrap();
    let rconfig = request::Config::new().unwrap();
    let lconfig = Config::new().unwrap();

    assert_eq!(
        chip.request_lines(&mut sim, Some(&rconfig), &lconfig).unwrap_err(),
        ChipError::OperationFailed(OperationType::ChipRequestLines, errno::Errno(libc::EINVAL))
    );
}

#[test]
fn out_of_bound_offsets() {
    let mut sim = Sim::new(Some(8), None, true).unwrap();
    let chip = Chip::open(&sim).unwrap();
    let rconfig = request::Config::new().unwrap();
    let mut lconfig = Config::new().unwrap();
    lconfig.add_line_settings(&[2, 0, 8, 4], Settings::new().unwrap()).unwrap();

    assert_eq!(
        chip.request_lines(&mut sim, Some(&rconfig), &lconfig).unwrap_err(),
        ChipError::OperationFailed(OperationType::ChipRequestLines, errno::Errno(libc::EINVAL))
    );
}

#[test]
fn dir_out_edge_failure() {
    let mut sim = Sim::new(Some(8), None, true).unwrap();
    let chip = Chip::open(&sim).unwrap();
    let rconfig = request::Config::new().unwrap();
    let mut lsettings = Settings::new().unwrap();
    lsettings.set_prop(&[
        SettingVal::Direction(Direction::Output),
        SettingVal::EdgeDetection(Some(Edge::Both)),
    ])
    .unwrap();
    let mut lconfig = Config::new().unwrap();
    lconfig.add_line_settings(&[0], lsettings).unwrap();

    assert_eq!(
        chip.request_lines(&mut sim, Some(&rconfig), &lconfig).unwrap_err(),
        ChipError::OperationFailed(OperationType::ChipRequestLines, errno::Errno(libc::EINVAL))
    );
}

#[test]
fn custom_consumer() {
    let mut sim = Sim::new(Some(8), None, true).unwrap();
    let chip = Chip::open(&sim).unwrap();
    let mut rconfig = request::Config::new().unwrap();
    rconfig.set_consumer("foobar").unwrap();
    let mut lconfig = Config::new().unwrap();
    lconfig.add_line_settings(&[2], Settings::new().unwrap()).unwrap();
    let _request = chip.request_lines(&mut sim, Some(&rconfig), &lconfig).unwrap();

    let info = chip.line_info(&sim, 2).unwrap();
    assert!(info.is_used());
    assert_eq!(info.consumer().unwrap(), "foobar");
}

#[test]
fn empty_consumer() {
    let mut sim = Sim::new(Some(8), None, true).unwrap();
    let chip = Chip::open(&sim).unwrap();
    let rconfig = request::Config::new().unwrap();
    let mut lconfig = Config::new().unwrap();
    lconfig.add_line_settings(&[2], Settings::new().unwrap()).unwrap();
    let _request = chip.request_lines(&mut sim, Some(&rconfig), &lconfig).unwrap();

    let info = chip.line_info(&sim, 2).unwrap();
    assert!(info.is_used());
    assert_eq!(info.consumer().unwrap(), "?");
}

#[test]
fn read_values() {
    let offsets = [7u32, 1, 0, 6, 2];
    let pulls = [Pull::Up, Pull::Up, Pull::Down, Pull::Up, Pull::Down];
    let mut sim = Sim::new(Some(8), None, true).unwrap();
    for i in 0..offsets.len() {
        sim.set_pull(offsets[i], pulls[i]).unwrap();
    }
    let chip = Chip::open(&sim).unwrap();
    let rconfig = request::Config::new().unwrap();
    let mut lsettings = Settings::new().unwrap();
    lsettings.set_prop(&[SettingVal::Direction(Direction::Input)]).unwrap();
    let mut lconfig = Config::new().unwrap();
    lconfig.add_line_settings(&offsets, lsettings).unwrap();
    let mut request = chip.request_lines(&mut sim, Some(&rconfig), &lconfig).unwrap();

    // Single values read properly
    assert_eq!(request.value(&sim, 7).unwrap(), Value::Active);

    // Values read properly
    let map = request.values(&sim).unwrap();
    for i in 0..offsets.len() {
        assert_eq!(
            *map.get(offsets[i]).unwrap(),
            match pulls[i] {
                Pull::Down => Value::InActive,
                _ => Value::Active,
            }
        );
    }

    // Subset of values read properly
    let map = request.values_subset(&sim, &[2, 0, 6]).unwrap();
    assert_eq!(*map.get(2).unwrap(), Value::InActive);
    assert_eq!(*map.get(0).unwrap(), Value::InActive);
    assert_eq!(*map.get(6).unwrap(), Value::Active);

    // Value read properly after reconfigure
    let mut lsettings = Settings::new().unwrap();
    lsettings.set_active_low(true);
    let mut lconfig = Config::new().unwrap();
    lconfig.add_line_settings(&offsets, lsettings).unwrap();
    request.reconfigure_lines(&mut sim, &lconfig).unwrap();
    assert_eq!(request.value(&sim, 7).unwrap(), Value::InActive);
}

#[test]
fn set_output_values() {
    let offsets = [0u32, 1, 3, 4];
    let mut sim = Sim::new(Some(8), None, true).unwrap();
    let chip = Chip::open(&sim).unwrap();
    let rconfig = request::Config::new().unwrap();
    let mut lsettings = Settings::new().unwrap();
    lsettings.set_prop(&[
        SettingVal::Direction(Direction::Output),
        SettingVal::OutputValue(Value::Active),
    ])
    .unwrap();
    let mut lconfig = Config::new().unwrap();
    lconfig.add_line_settings(&offsets, lsettings).unwrap();
    let _request = chip.request_lines(&mut sim, Some(&rconfig), &lconfig).unwrap();

    assert_eq!(sim.val(0).unwrap(), SimValue::Active);
    assert_eq!(sim.val(1).unwrap(), SimValue::Active);
    assert_eq!(sim.val(3).unwrap(), SimValue::Active);
    assert_eq!(sim.val(4).unwrap(), SimValue::Active);

    // Default
    assert_eq!(sim.val(2).unwrap(), SimValue::InActive);
}

#[test]
fn update_output_values() {
    let offsets = [0u32, 1, 3, 4];
    let mut sim = Sim::new(Some(8), None, true).unwrap();
    let chip = Chip::open(&sim).unwrap();
    let rconfig = request::Config::new().unwrap();
    let mut lsettings = Settings::new().unwrap();
    lsettings.set_prop(&[
        SettingVal::Direction(Direction::Output),
        SettingVal::OutputValue(Value::InActive),
    ])
    .unwrap();
    let mut lconfig = Config::new().unwrap();
    lconfig.add_line_settings(&offsets, lsettings).unwrap();
    let mut request = chip.request_lines(&mut sim, Some(&rconfig), &lconfig).unwrap();

    // Set single value
    request.set_value(&mut sim, 1, Value::Active).unwrap();
    assert_eq!(sim.val(0).unwrap(), SimValue::InActive);
    assert_eq!(sim.val(1).unwrap(), SimValue::Active);
    assert_eq!(sim.val(3).unwrap(), SimValue::InActive);
    assert_eq!(sim.val(4).unwrap(), SimValue::InActive);
    request.set_value(&mut sim, 1, Value::InActive).unwrap();
    assert_eq!(sim.val(1).unwrap(), SimValue::InActive);

    // Set values of subset
    let mut map = ValueMap::new();
    map.insert(4, Value::Active);
    map.insert(3, Value::Active);
    request.set_values_subset(&mut sim, map).unwrap();
    assert_eq!(sim.val(0).unwrap(), SimValue::InActive);
    assert_eq!(sim.val(1).unwrap(), SimValue::InActive);
    assert_eq!(sim.val(3).unwrap(), SimValue::Active);
    assert_eq!(sim.val(4).unwrap(), SimValue::Active);

    let mut map = ValueMap::new();
    map.insert(4, Value::InActive);
    map.insert(3, Value::InActive);
    request.set_values_subset(&mut sim, map).unwrap();
    assert_eq!(sim.val(3).unwrap(), SimValue::InActive);
    assert_eq!(sim.val(4).unwrap(), SimValue::InActive);

    // Set all values
    request
        .set_values(&mut sim, &[Value::Active, Value::InActive, Value::Active, Value::InActive])
        .unwrap();
    assert_eq!(sim.val(0).unwrap(), SimValue::Active);
    assert_eq!(sim.val(1).unwrap(), SimValue::InActive);
    assert_eq!(sim.val(3).unwrap(), SimValue::Active);
    assert_eq!(sim.val(4).unwrap(), SimValue::InActive);
    request
        .set_values(&mut sim, &[Value::InActive, Value::InActive, Value::InActive, Value::InActive])
        .unwrap();
    assert_eq!(sim.val(0).unwrap(), SimValue::InActive);
    assert_eq!(sim.val(1).unwrap(), SimValue::InActive);
    assert_eq!(sim.val(3).unwrap(), SimValue::InActive);
    assert_eq!(sim.val(4).unwrap(), SimValue::InActive);
}

#[test]
fn wrong_length_set_values() {
    let mut sim = Sim::new(Some(8), None, true).unwrap();
    let chip = Chip::open(&sim).unwrap();
    let rconfig = request::Config::new().unwrap();
    let mut lsettings = Settings::new().unwrap();
    lsettings.set_direction(Direction::Output).unwrap();
    let mut lconfig = Config::new().unwrap();
    lconfig.add_line_settings(&[0, 1], lsettings).unwrap();
    let mut request = chip.request_lines(&mut sim, Some(&rconfig), &lconfig).unwrap();

    assert_eq!(
        request.set_values(&mut sim, &[Value::Active]).unwrap_err(),
        ChipError::InvalidArguments
    );
    assert!(request.set_values(&mut sim, &[Value::Active, Value::InActive]).is_ok());
}

#[test]
fn set_bias() {
    let mut sim = Sim::new(Some(8), None, true).unwrap();
    let chip = Chip::open(&sim).unwrap();
    let rconfig = request::Config::new().unwrap();
    let mut lsettings = Settings::new().unwrap();
    lsettings.set_prop(&[
        SettingVal::Direction(Direction::Input),
        SettingVal::Bias(Some(Bias::PullUp)),
    ])
    .unwrap();
    let mut lconfig = Config::new().unwrap();
    lconfig.add_line_settings(&[3], lsettings).unwrap();
    let _request = chip.request_lines(&mut sim, Some(&rconfig), &lconfig).unwrap();

    assert_eq!(sim.val(3).unwrap(), SimValue::Active);
}

#[test]
fn no_events() {
    let mut sim = Sim::new(Some(8), None, true).unwrap();
    let chip = Chip::open(&sim).unwrap();
    let rconfig = request::Config::new().unwrap();
    let mut lsettings = Settings::new().unwrap();
    lsettings.set_edge_detection(Some(Edge::Both)).unwrap();
    let mut lconfig = Config::new().unwrap();
    lconfig.add_line_settings(&[0], lsettings).unwrap();
    let request = chip.request_lines(&mut sim, Some(&rconfig), &lconfig).unwrap();

    // No events available
    assert!(!request.wait_edge_events(&sim, Some(Duration::from_millis(100))).unwrap());
}

#[test]
fn e2big() {
    let offsets = [0u32, 1, 2, 3, 4, 5, 6, 7, 8, 9];
    let mut sim = Sim::new(Some(16), None, true).unwrap();
    let chip = Chip::open(&sim).unwrap();
    let rconfig = request::Config::new().unwrap();
    let mut lconfig0 = Config::new().unwrap();
    lconfig0.add_line_settings(&offsets, Settings::new().unwrap()).unwrap();
    let mut request = chip.request_lines(&mut sim, Some(&rconfig), &lconfig0).unwrap();

    // Reconfigure
    let mut lsettings = Settings::new().unwrap();
    lsettings.set_direction(Direction::Input).unwrap();
    let mut lconfig = Config::new().unwrap();

    // The kernel ABI has only 10 attribute slots, this should pass.
    for offset in offsets {
        lsettings.set_debounce_period(Duration::from_millis((100 + offset).into()));
        lconfig
            .add_line_settings(&[offset], lsettings.settings_clone().unwrap())
            .unwrap();
    }

    assert!(request.reconfigure_lines(&mut sim, &lconfig).is_ok());

    // The kernel ABI has only 10 attribute slots, and this is the 11th entry.
    // This should fail with E2BIG.
    lsettings.set_debounce_period(Duration::from_millis(100 + 11));
    lconfig.add_line_settings(&[11], lsettings).unwrap();

    assert_eq!(
        request.reconfigure_lines(&mut sim, &lconfig).unwrap_err(),
        ChipError::OperationFailed(
            OperationType::LineRequestReconfigLines,
            errno::Errno(libc::E2BIG),
        )
    );
}

#[test]
fn line_request_bias() {
    let mut sim = Sim::new(Some(8), None, true).unwrap();
    let chip = Chip::open(&sim).unwrap();
    let rconfig = request::Config::new().unwrap();
    let mut lconfig = Config::new().unwrap();
    lconfig.add_line_settings(&[0], Settings::new().unwrap()).unwrap();
    let mut request = chip.request_lines(&mut sim, Some(&rconfig), &lconfig).unwrap();
    let info = chip.line_info(&sim, 0).unwrap();
    assert_eq!(info.bias().unwrap(), None);

    // Reconfigure
    let mut lconfig = Config::new().unwrap();
    let mut lsettings = Settings::new().unwrap();
    lsettings
        .set_prop(&[
            SettingVal::Direction(Direction::Input),
            SettingVal::Bias(Some(Bias::PullUp)),
        ])
        .unwrap();
    lconfig.add_line_settings(&[0], lsettings).unwrap();
    request.reconfigure_lines(&mut sim, &lconfig).unwrap();
    let info = chip.line_info(&sim, 0).unwrap();
    assert_eq!(info.bias().unwrap(), Some(Bias::PullUp));

    let mut lconfig = Config::new().unwrap();
    let mut lsettings = Settings::new().unwrap();
    lsettings
        .set_prop(&[
            SettingVal::Direction(Direction::Input),
            SettingVal::Bias(Some(Bias::Disabled)),
        ])
        .unwrap();
    lconfig.add_line_settings(&[0], lsettings).unwrap();
    request.reconfigure_lines(&mut sim, &lconfig).unwrap();
    let info = chip.line_info(&sim, 0).unwrap();
    assert_eq!(info.bias().unwrap(), Some(Bias::Disabled));
}

#[test]
fn line_request_debounce() {
    let mut sim = Sim::new(Some(8), None, true).unwrap();
    let chip = Chip::open(&sim).unwrap();
    let rconfig = request::Config::new().unwrap();
    let mut lconfig = Config::new().unwrap();
    lconfig.add_line_settings(&[0], Settings::new().unwrap()).unwrap();
    let mut request = chip.request_lines(&mut sim, Some(&rconfig), &lconfig).unwrap();
    let info = chip.line_info(&sim, 0).unwrap();
    assert!(!info.is_debounced());
    assert_eq!(info.debounce_period(), Duration::from_millis(0));

    // Reconfigure
    let mut lconfig = Config::new().unwrap();
    let mut lsettings = Settings::new().unwrap();
    lsettings
        .set_prop(&[
            SettingVal::Direction(Direction::Input),
            SettingVal::DebouncePeriod(Duration::from_millis(100)),
        ])
        .unwrap();
    lconfig.add_line_settings(&[0], lsettings).unwrap();
    request.reconfigure_lines(&mut sim, &lconfig).unwrap();
    let info = chip.line_info(&sim, 0).unwrap();
    assert!(info.is_debounced());
    assert_eq!(info.debounce_period(), Duration::from_millis(100));
}

use libgpiod::chip::Chip;
use libgpiod::line::{Bias, Config, Direction, Drive, Edge, EventClock, SettingKind, SettingVal, Settings, Value};
use libgpiod::sim::{Sim, Value as SimValue};

#[test]
fn settings() {
    let mut lsettings1 = Settings::new().unwrap();
    lsettings1.set_direction(Direction::Input).unwrap();
    lsettings1.set_edge_detection(Some(Edge::Both)).unwrap();
    lsettings1.set_bias(Some(Bias::PullDown)).unwrap();
    lsettings1.set_drive(Drive::PushPull).unwrap();

    let mut lsettings2 = Settings::new().unwrap();
    lsettings2.set_direction(Direction::Output).unwrap();
    lsettings2.set_active_low(true);
    lsettings2.set_event_clock(EventClock::Realtime).unwrap();
    lsettings2.set_output_value(Value::Active).unwrap();

    // Add settings for multiple lines
    let mut lconfig = Config::new().unwrap();
    lconfig.add_line_settings(&[0, 1, 2], lsettings1).unwrap();
    lconfig.add_line_settings(&[4, 5], lsettings2).unwrap();

    let settings_map = lconfig.line_settings().unwrap();

    // Retrieve settings
    let lsettings = settings_map.get(1).unwrap();
    assert_eq!(
        lsettings.prop(SettingKind::Direction).unwrap(),
        SettingVal::Direction(Direction::Input)
    );
    assert_eq!(
        lsettings.prop(SettingKind::EdgeDetection).unwrap(),
        SettingVal::EdgeDetection(Some(Edge::Both))
    );
    assert_eq!(
        lsettings.prop(SettingKind::Bias).unwrap(),
        SettingVal::Bias(Some(Bias::PullDown))
    );
    assert_eq!(
        lsettings.prop(SettingKind::Drive).unwrap(),
        SettingVal::Drive(Drive::PushPull)
    );

    let lsettings = settings_map.get(5).unwrap();
    assert_eq!(
        lsettings.prop(SettingKind::Direction).unwrap(),
        SettingVal::Direction(Direction::Output)
    );
    assert_eq!(
        lsettings.prop(SettingKind::ActiveLow).unwrap(),
        SettingVal::ActiveLow(true)
    );
    assert_eq!(
        lsettings.prop(SettingKind::EventClock).unwrap(),
        SettingVal::EventClock(EventClock::Realtime)
    );
    assert_eq!(
        lsettings.prop(SettingKind::OutputValue).unwrap(),
        SettingVal::OutputValue(Value::Active)
    );
}

#[test]
fn read_back_global_output_values() {
    let mut settings = Settings::new().unwrap();
    settings.set_direction(Direction::Output).unwrap();
    settings.set_output_value(Value::Active).unwrap();

    let mut config = Config::new().unwrap();
    config.add_line_settings(&[0, 1, 2, 3], settings).unwrap();
    config
        .set_output_values(&[Value::Active, Value::InActive, Value::Active, Value::InActive])
        .unwrap();

    assert_eq!(
        config.line_settings().unwrap().get(1).unwrap().output_value().unwrap(),
        Value::InActive
    );
}

#[test]
fn output_values_length_must_match() {
    let mut settings = Settings::new().unwrap();
    settings.set_direction(Direction::Output).unwrap();

    let mut config = Config::new().unwrap();
    config.add_line_settings(&[0, 1], settings).unwrap();
    assert!(config.set_output_values(&[Value::Active]).is_err());
    assert!(config.set_output_values(&[Value::Active, Value::InActive]).is_ok());
}

#[test]
fn set_global_output_values() {
    let mut sim = Sim::new(Some(4), None, true).unwrap();
    let mut settings = Settings::new().unwrap();
    settings.set_direction(Direction::Output).unwrap();

    let mut config = Config::new().unwrap();
    config.add_line_settings(&[0, 1, 2, 3], settings).unwrap();
    config
        .set_output_values(&[Value::Active, Value::InActive, Value::Active, Value::InActive])
        .unwrap();

    let chip = Chip::open(&sim).unwrap();
    let rconfig = libgpiod::request::Config::new().unwrap();
    let _request = chip.request_lines(&mut sim, Some(&rconfig), &config);

    assert_eq!(sim.val(0).unwrap(), SimValue::Active);
    assert_eq!(sim.val(1).unwrap(), SimValue::InActive);
    assert_eq!(sim.val(2).unwrap(), SimValue::Active);
    assert_eq!(sim.val(3).unwrap(), SimValue::InActive);
}

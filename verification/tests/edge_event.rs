use std::time::Duration;

use libgpiod::chip::Chip;
use libgpiod::line::{Config, Edge, EdgeKind, Settings, SettingVal, Direction};
use libgpiod::request;
use libgpiod::sim::{Pull, Sim};

#[test]
fn both_edges() {
    let mut sim = Sim::new(Some(8), None, true).unwrap();
    let chip = Chip::open(&sim).unwrap();
    let rconfig = request::Config::new().unwrap();
    let mut lsettings = Settings::new().unwrap();
    lsettings.set_prop(&[SettingVal::EdgeDetection(Some(Edge::Both))]).unwrap();
    let mut lconfig = Config::new().unwrap();
    lconfig.add_line_settings(&[2], lsettings).unwrap();
    let request = chip.request_lines(&mut sim, Some(&rconfig), &lconfig).unwrap();
    let mut buf = request::Buffer::new(0).unwrap();

    // Rising event
    sim.set_pull(2, Pull::Up).unwrap();
    assert!(request.wait_edge_events(&sim, Some(Duration::from_secs(1))).unwrap());
    let mut events = request.read_edge_events(&mut sim, &mut buf).unwrap();
    assert_eq!(events.len(), 1);
    let event = events.next().unwrap().unwrap();
    let ts_rising = event.timestamp();
    assert_eq!(event.event_type().unwrap(), EdgeKind::Rising);
    assert_eq!(event.line_offset(), 2);

    // Falling event
    sim.set_pull(2, Pull::Down).unwrap();
    assert!(request.wait_edge_events(&sim, Some(Duration::from_secs(1))).unwrap());
    let mut events = request.read_edge_events(&mut sim, &mut buf).unwrap();
    assert_eq!(events.len(), 1);
    let event = events.next().unwrap().unwrap();
    let ts_falling = event.timestamp();
    assert_eq!(event.event_type().unwrap(), EdgeKind::Falling);
    assert_eq!(event.line_offset(), 2);

    // No events available
    assert!(!request.wait_edge_events(&sim, Some(Duration::from_millis(100))).unwrap());

    assert!(ts_falling > ts_rising);
}

#[test]
fn rising_edge() {
    let mut sim = Sim::new(Some(8), None, true).unwrap();
    let chip = Chip::open(&sim).unwrap();
    let rconfig = request::Config::new().unwrap();
    let mut lsettings = Settings::new().unwrap();
    lsettings.set_edge_detection(Some(Edge::Rising)).unwrap();
    let mut lconfig = Config::new().unwrap();
    lconfig.add_line_settings(&[6], lsettings).unwrap();
    let request = chip.request_lines(&mut sim, Some(&rconfig), &lconfig).unwrap();
    let mut buf = request::Buffer::new(0).unwrap();

    sim.set_pull(6, Pull::Up).unwrap();
    sim.set_pull(6, Pull::Down).unwrap();
    assert!(request.wait_edge_events(&sim, Some(Duration::from_secs(1))).unwrap());
    let mut events = request.read_edge_events(&mut sim, &mut buf).unwrap();
    assert_eq!(events.len(), 1);
    let event = events.next().unwrap().unwrap();
    assert_eq!(event.event_type().unwrap(), EdgeKind::Rising);
    assert_eq!(event.line_offset(), 6);

    // No events available
    assert!(!request.wait_edge_events(&sim, Some(Duration::from_millis(100))).unwrap());
}

#[test]
fn falling_edge() {
    let mut sim = Sim::new(Some(8), None, true).unwrap();
    let chip = Chip::open(&sim).unwrap();
    let rconfig = request::Config::new().unwrap();
    let mut lsettings = Settings::new().unwrap();
    lsettings.set_edge_detection(Some(Edge::Falling)).unwrap();
    let mut lconfig = Config::new().unwrap();
    lconfig.add_line_settings(&[7], lsettings).unwrap();
    let request = chip.request_lines(&mut sim, Some(&rconfig), &lconfig).unwrap();
    let mut buf = request::Buffer::new(0).unwrap();

    sim.set_pull(7, Pull::Up).unwrap();
    sim.set_pull(7, Pull::Down).unwrap();
    assert!(request.wait_edge_events(&sim, Some(Duration::from_secs(1))).unwrap());
    let mut events = request.read_edge_events(&mut sim, &mut buf).unwrap();
    assert_eq!(events.len(), 1);
    let event = events.next().unwrap().unwrap();
    assert_eq!(event.event_type().unwrap(), EdgeKind::Falling);
    assert_eq!(event.line_offset(), 7);

    // No events available
    assert!(!request.wait_edge_events(&sim, Some(Duration::from_millis(100))).unwrap());
}

#[test]
fn edge_sequence() {
    let mut sim = Sim::new(Some(8), None, true).unwrap();
    let chip = Chip::open(&sim).unwrap();
    let rconfig = request::Config::new().unwrap();
    let mut lsettings = Settings::new().unwrap();
    lsettings.set_edge_detection(Some(Edge::Both)).unwrap();
    let mut lconfig = Config::new().unwrap();
    lconfig.add_line_settings(&[0, 1], lsettings).unwrap();
    let request = chip.request_lines(&mut sim, Some(&rconfig), &lconfig).unwrap();

    // Rising event on line 0
    sim.set_pull(0, Pull::Up).unwrap();
    let mut buf = request::Buffer::new(0).unwrap();
    assert!(request.wait_edge_events(&sim, Some(Duration::from_secs(1))).unwrap());
    let mut events = request.read_edge_events(&mut sim, &mut buf).unwrap();
    assert_eq!(events.len(), 1);
    let event = events.next().unwrap().unwrap();
    assert_eq!(event.event_type().unwrap(), EdgeKind::Rising);
    assert_eq!(event.line_offset(), 0);
    assert_eq!(event.global_seqno(), 1);
    assert_eq!(event.line_seqno(), 1);

    // Rising event on line 1
    sim.set_pull(1, Pull::Up).unwrap();
    assert!(request.wait_edge_events(&sim, Some(Duration::from_secs(1))).unwrap());
    let mut events = request.read_edge_events(&mut sim, &mut buf).unwrap();
    assert_eq!(events.len(), 1);
    let event = events.next().unwrap().unwrap();
    assert_eq!(event.event_type().unwrap(), EdgeKind::Rising);
    assert_eq!(event.line_offset(), 1);
    assert_eq!(event.global_seqno(), 2);
    assert_eq!(event.line_seqno(), 1);

    // No events available
    assert!(!request.wait_edge_events(&sim, Some(Duration::from_millis(100))).unwrap());
}

#[test]
fn multiple_events() {
    let mut sim = Sim::new(Some(8), None, true).unwrap();
    let chip = Chip::open(&sim).unwrap();
    let rconfig = request::Config::new().unwrap();
    let mut lsettings = Settings::new().unwrap();
    lsettings.set_edge_detection(Some(Edge::Both)).unwrap();
    let mut lconfig = Config::new().unwrap();
    lconfig.add_line_settings(&[1], lsettings).unwrap();
    let request = chip.request_lines(&mut sim, Some(&rconfig), &lconfig).unwrap();
    let mut buf = request::Buffer::new(0).unwrap();

    sim.set_pull(1, Pull::Up).unwrap();
    sim.set_pull(1, Pull::Down).unwrap();
    sim.set_pull(1, Pull::Up).unwrap();

    assert!(request.wait_edge_events(&sim, Some(Duration::from_secs(1))).unwrap());
    let mut events = request.read_edge_events(&mut sim, &mut buf).unwrap();
    assert_eq!(events.len(), 3);

    let mut global_seqno = 1;
    let mut line_seqno = 1;

    // Verify sequence number of events
    while let Some(event) = events.next() {
        let event = event.unwrap();
        assert_eq!(event.line_offset(), 1);
        assert_eq!(event.global_seqno(), global_seqno);
        assert_eq!(event.line_seqno(), line_seqno);

        global_seqno += 1;
        line_seqno += 1;
    }
    assert_eq!(global_seqno, 4);
}

#[test]
fn over_capacity() {
    let mut sim = Sim::new(Some(8), None, true).unwrap();
    let chip = Chip::open(&sim).unwrap();
    let rconfig = request::Config::new().unwrap();
    let mut lsettings = Settings::new().unwrap();
    lsettings.set_edge_detection(Some(Edge::Both)).unwrap();
    let mut lconfig = Config::new().unwrap();
    lconfig.add_line_settings(&[2], lsettings).unwrap();
    let request = chip.request_lines(&mut sim, Some(&rconfig), &lconfig).unwrap();
    let mut buf = request::Buffer::new(2).unwrap();

    sim.set_pull(2, Pull::Up).unwrap();
    sim.set_pull(2, Pull::Down).unwrap();
    sim.set_pull(2, Pull::Up).unwrap();

    assert!(request.wait_edge_events(&sim, Some(Duration::from_secs(1))).unwrap());
    let events = request.read_edge_events(&mut sim, &mut buf).unwrap();
    assert_eq!(events.len(), 2);
}

#[test]
fn cloned_event_survives_overwrite() {
    let mut sim = Sim::new(Some(8), None, true).unwrap();
    let chip = Chip::open(&sim).unwrap();
    let rconfig = request::Config::new().unwrap();
    let mut lsettings = Settings::new().unwrap();
    lsettings.set_edge_detection(Some(Edge::Both)).unwrap();
    let mut lconfig = Config::new().unwrap();
    lconfig.add_line_settings(&[5], lsettings).unwrap();
    let request = chip.request_lines(&mut sim, Some(&rconfig), &lconfig).unwrap();
    let mut buf = request::Buffer::new(0).unwrap();

    sim.set_pull(5, Pull::Up).unwrap();
    let mut events = request.read_edge_events(&mut sim, &mut buf).unwrap();
    let event = events.next().unwrap().unwrap();
    let copy = request::Event::event_clone(event).unwrap();
    let kind = event.event_type().unwrap();
    let ts = event.timestamp();
    let gseq = event.global_seqno();
    let lseq = event.line_seqno();

    // Overwrite the buffer with a fresh read
    sim.set_pull(5, Pull::Down).unwrap();
    let _ = request.read_edge_events(&mut sim, &mut buf).unwrap();

    assert_eq!(copy.event_type().unwrap(), kind);
    assert_eq!(copy.timestamp(), ts);
    assert_eq!(copy.line_offset(), 5);
    assert_eq!(copy.global_seqno(), gseq);
    assert_eq!(copy.line_seqno(), lseq);
}

#[test]
fn two_edges_in_order() {
    let mut sim = Sim::new(Some(8), None, true).unwrap();
    let chip = Chip::open(&sim).unwrap();
    let rconfig = request::Config::new().unwrap();
    let mut lsettings = Settings::new().unwrap();
    lsettings.set_prop(&[
        SettingVal::Direction(Direction::Input),
        SettingVal::EdgeDetection(Some(Edge::Both)),
    ])
    .unwrap();
    let mut lconfig = Config::new().unwrap();
    lconfig.add_line_settings(&[2], lsettings).unwrap();
    let request = chip.request_lines(&mut sim, Some(&rconfig), &lconfig).unwrap();
    let mut buf = request::Buffer::new(0).unwrap();

    // External stimulus pulls the line high then low
    sim.set_pull(2, Pull::Up).unwrap();
    sim.set_pull(2, Pull::Down).unwrap();

    let mut events = request.read_edge_events(&mut sim, &mut buf).unwrap();
    assert_eq!(events.len(), 2);
    let first = events.next().unwrap().unwrap();
    assert_eq!(first.event_type().unwrap(), EdgeKind::Rising);
    assert_eq!(first.line_offset(), 2);
    let ts_rising = first.timestamp();
    let second = events.next().unwrap().unwrap();
    assert_eq!(second.event_type().unwrap(), EdgeKind::Falling);
    assert_eq!(second.line_offset(), 2);
    assert!(second.timestamp() > ts_rising);

    // No further event pending
    assert!(!request.wait_edge_events(&sim, Some(Duration::from_millis(100))).unwrap());
}

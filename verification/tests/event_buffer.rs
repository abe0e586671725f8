use libgpiod::request;

#[test]
fn default_capacity() {
    assert_eq!(request::Buffer::new(0).unwrap().capacity(), 64);
}

#[test]
fn user_defined_capacity() {
    assert_eq!(request::Buffer::new(123).unwrap().capacity(), 123);
}

#[test]
fn max_capacity() {
    assert_eq!(request::Buffer::new(1024 * 2).unwrap().capacity(), 1024);
}

#[test]
fn cloned_event_keeps_fields() {
    let ev = request::Event {
        kind: libgpiod::line::EdgeKind::Rising,
        timestamp_ns: 17,
        line: 2,
        global_seq: 1,
        line_seq: 1,
    };
    let copy = request::Event::event_clone(&ev).unwrap();
    drop(ev);
    assert_eq!(copy.event_type().unwrap(), libgpiod::line::EdgeKind::Rising);
    assert_eq!(copy.timestamp(), std::time::Duration::from_nanos(17));
    assert_eq!(copy.line_offset(), 2);
    assert_eq!(copy.global_seqno(), 1);
    assert_eq!(copy.line_seqno(), 1);
}

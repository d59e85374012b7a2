use m8_kbd::event::Event;

#[test]
fn event_position_and_kind() {
    let e = Event::Press(1, 2);
    assert_eq!(e.coord(), (1, 2));
    assert!(e.is_press());
    assert!(!e.is_release());
    let r = Event::Release(2, 0);
    assert_eq!(r.coord(), (2, 0));
    assert!(r.is_release());
    assert!(!r.is_press());
}

#[test]
fn events_compare_by_kind_and_position() {
    assert_eq!(Event::Press(0, 0), Event::Press(0, 0));
    assert_ne!(Event::Press(0, 0), Event::Release(0, 0));
    assert_ne!(Event::Press(0, 1), Event::Press(1, 0));
}

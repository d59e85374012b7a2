use m8_kbd::chord::{ChordDef, ChordError, Chording};
use m8_kbd::debounce::{MatrixDebouncer, RawMatrix};
use m8_kbd::event::Event;
use m8_kbd::key_code;
use m8_kbd::keymap::{standard_keymap, Action, CustomAction, Keymap};
use m8_kbd::layout::{CustomEvent, Layout};
use m8_kbd::maintenance::{handle_custom, Maintenance};
use m8_kbd::report::HidReport;
use m8_kbd::scheduler::{
    next_deadline, standard_chords, Keypad, PeriodOutcome, ReportTask, ScanTask, SetupError,
    BASE_LAYERS, DEBOUNCE_THRESHOLD, TICK_PERIOD,
};
use m8_kbd::transport::UsbDeviceState;

const OPEN: RawMatrix = [[false; 3]; 3];

fn with(cells: &[(usize, usize)]) -> RawMatrix {
    let mut m = OPEN;
    for &(r, c) in cells {
        m[r][c] = true;
    }
    m
}

fn run(pad: &mut Keypad, raw: RawMatrix, now: u64) -> PeriodOutcome {
    pad.period(raw, now, UsbDeviceState::Configured, true).unwrap()
}

#[test]
fn period_is_one_millisecond_of_microsecond_ticks() {
    assert_eq!(TICK_PERIOD, 1000);
    assert_eq!(DEBOUNCE_THRESHOLD, 5);
    assert_eq!(next_deadline(0), 1000);
    assert_eq!(next_deadline(123_456), 124_456);
    assert_eq!(next_deadline(u64::MAX - 1000), u64::MAX);
}

#[test]
fn deadlines_are_absolute() {
    let start = 7_000_017u64;
    let mut t = start;
    for n in 1..=1000u64 {
        t = next_deadline(t);
        assert_eq!(t, start + n * 1000);
    }
}

#[test]
fn standard_chord_is_left_and_down_for_the_layer_key() {
    let chords = standard_chords();
    assert_eq!(chords.len(), 1);
    assert_eq!(chords[0].trigger, (2, 0));
    assert_eq!(chords[0].members, vec![(1, 0), (1, 1)]);
}

#[test]
fn scan_task_debounces_then_detects_chords() {
    let mut scan = ScanTask::new(2, standard_chords()).unwrap();
    let both = with(&[(1, 0), (1, 1), (0, 0)]);
    assert_eq!(scan.tick(both), vec![]);
    assert_eq!(scan.tick(both), vec![Event::Press(0, 0), Event::Press(2, 0)]);
    assert_eq!(scan.tick(both), vec![]);
    let one = with(&[(1, 0), (0, 0)]);
    assert_eq!(scan.tick(one), vec![]);
    assert_eq!(scan.tick(one), vec![Event::Release(2, 0)]);
}

#[test]
fn scan_task_refuses_bad_chords() {
    let made = ScanTask::new(5, vec![ChordDef { trigger: (0, 0), members: vec![(1, 1)] }]);
    assert_eq!(made.err(), Some(ChordError::TooFewMembers(0)));
}

#[test]
fn report_task_sends_changes_only() {
    let mut task = ReportTask::new(standard_keymap(), 0).unwrap();
    let out = task.tick(UsbDeviceState::Configured, false);
    assert!(!out.wakeup);
    assert_eq!(out.maintenance, None);
    assert!(out.transmit.is_none());

    task.handle_event(Event::Press(0, 1));
    let out = task.tick(UsbDeviceState::Configured, false);
    assert_eq!(out.transmit.map(|r| r.as_bytes()), Some([0, 0, key_code::Z, 0, 0, 0, 0, 0]));
    let out = task.tick(UsbDeviceState::Configured, false);
    assert!(out.transmit.is_none());

    task.handle_event(Event::Release(0, 1));
    let out = task.tick(UsbDeviceState::Configured, false);
    assert_eq!(out.transmit.map(|r| r.as_bytes()), Some([0u8; 8]));
}

#[test]
fn report_task_wakes_a_suspended_host_and_sends_after_it_is_configured() {
    let mut task = ReportTask::new(standard_keymap(), 0).unwrap();
    task.handle_event(Event::Press(2, 1));
    let out = task.tick(UsbDeviceState::Suspend, true);
    assert!(out.wakeup);
    assert!(out.transmit.is_none());
    let out = task.tick(UsbDeviceState::Suspend, false);
    assert!(!out.wakeup);
    let out = task.tick(UsbDeviceState::Configured, true);
    assert!(!out.wakeup);
    assert_eq!(out.transmit.map(|r| r.as_bytes()), Some([0x02, 0, 0, 0, 0, 0, 0, 0]));
}

#[test]
fn report_task_needs_an_existing_base_layer() {
    assert!(ReportTask::new(standard_keymap(), 3).is_none());
}

#[test]
fn store_default_layer_goes_on_and_still_sends() {
    let mut task = ReportTask::new(standard_keymap(), 1).unwrap();
    task.handle_event(Event::Press(0, 0));
    task.handle_event(Event::Press(2, 0));
    task.handle_event(Event::Press(1, 2));
    let out = task.tick(UsbDeviceState::Configured, true);
    assert_eq!(out.maintenance, Some(Maintenance::StoreDefaultLayer(1)));
    assert_eq!(out.transmit.map(|r| r.as_bytes()), Some([0, 0, key_code::UP, 0, 0, 0, 0, 0]));
}

#[test]
fn request_that_ends_the_run_keeps_the_report_back() {
    let mut task = ReportTask::new(standard_keymap(), 0).unwrap();
    task.handle_event(Event::Press(0, 0));
    task.handle_event(Event::Press(2, 0));
    task.handle_event(Event::Press(2, 2));
    let out = task.tick(UsbDeviceState::Suspend, true);
    assert_eq!(out.maintenance, Some(Maintenance::ResetDevice));
    assert!(out.wakeup);
    assert!(out.transmit.is_none());
    let mut task = ReportTask::new(standard_keymap(), 0).unwrap();
    task.handle_event(Event::Press(0, 0));
    task.handle_event(Event::Press(2, 0));
    task.handle_event(Event::Press(2, 2));
    let out = task.tick(UsbDeviceState::Configured, true);
    assert_eq!(out.maintenance, Some(Maintenance::ResetDevice));
    assert!(out.transmit.is_none());
}

#[test]
fn keypad_setup_checks_chords_then_base_layer() {
    let bad = || vec![ChordDef { trigger: (1, 0), members: vec![(1, 0), (1, 1)] }];
    assert_eq!(
        Keypad::new(5, bad(), standard_keymap(), 9).err(),
        Some(SetupError::Chords(ChordError::TriggerIsMember(0)))
    );
    assert_eq!(
        Keypad::new(5, standard_chords(), standard_keymap(), 3).err(),
        Some(SetupError::NoSuchLayer)
    );
    assert!(Keypad::new(5, standard_chords(), standard_keymap(), 2).is_ok());
    assert!(Keypad::standard(0).is_some());
    assert!(Keypad::standard(1).is_some());
    assert!(Keypad::standard(2).is_none());
    assert!(Keypad::standard(usize::MAX).is_none());
}

#[test]
fn typing_a_key_end_to_end() {
    let mut pad = Keypad::standard(0).unwrap();
    let raw = with(&[(0, 2)]);
    let mut now = 0u64;
    for _ in 0..4 {
        let out = run(&mut pad, raw, now);
        assert_eq!(out.events, vec![]);
        assert!(out.tick.transmit.is_none());
        assert_eq!(out.next_deadline, now + 1000);
        now = out.next_deadline;
    }
    let out = run(&mut pad, raw, now);
    assert_eq!(out.events, vec![Event::Press(0, 2)]);
    assert_eq!(out.tick.transmit.map(|r| r.as_bytes()), Some([0, 0, key_code::X, 0, 0, 0, 0, 0]));
    now = out.next_deadline;
    // the same keys in the next period: nothing is sent a second time
    let out = run(&mut pad, raw, now);
    assert!(out.tick.transmit.is_none());
    now = out.next_deadline;
    for _ in 0..4 {
        let out = run(&mut pad, OPEN, now);
        assert!(out.tick.transmit.is_none());
        now = out.next_deadline;
    }
    let out = run(&mut pad, OPEN, now);
    assert_eq!(out.events, vec![Event::Release(0, 2)]);
    assert_eq!(out.tick.transmit.map(|r| r.as_bytes()), Some([0u8; 8]));
    assert_eq!(out.next_deadline, 11_000);
}

#[test]
fn chord_then_corner_key_enters_the_bootloader() {
    let mut pad = Keypad::standard(0).unwrap();
    let chord = with(&[(1, 0), (1, 1)]);
    let mut now = 0u64;
    for _ in 0..4 {
        let out = run(&mut pad, chord, now);
        assert_eq!(out.events, vec![]);
        now = out.next_deadline;
    }
    // both members settle in the same period: one press of the layer key
    let out = run(&mut pad, chord, now);
    assert_eq!(out.events, vec![Event::Press(2, 0)]);
    assert_eq!(out.tick.maintenance, None);
    assert!(out.tick.transmit.is_none());
    now = out.next_deadline;

    let plus = with(&[(1, 0), (1, 1), (0, 2)]);
    for _ in 0..4 {
        let out = run(&mut pad, plus, now);
        assert_eq!(out.events, vec![]);
        assert_eq!(out.tick.maintenance, None);
        now = out.next_deadline;
    }
    let out = run(&mut pad, plus, now);
    assert_eq!(out.events, vec![Event::Press(0, 2)]);
    assert_eq!(out.tick.maintenance, Some(Maintenance::EnterBootloader));
    assert!(out.tick.transmit.is_none());
    assert!(pad.is_halted());

    // the run has ended: nothing happens any more
    assert!(pad.period(OPEN, out.next_deadline, UsbDeviceState::Configured, true).is_none());
    assert!(pad.period(plus, out.next_deadline, UsbDeviceState::Configured, true).is_none());
    assert!(pad.is_halted());
}

#[test]
fn chord_members_never_type_while_the_chord_is_held() {
    let mut pad = Keypad::standard(0).unwrap();
    let chord = with(&[(1, 0), (1, 1)]);
    let mut now = 0u64;
    for _ in 0..20 {
        let out = run(&mut pad, chord, now);
        assert!(out.tick.transmit.is_none());
        now = out.next_deadline;
    }
    let one = with(&[(1, 0)]);
    let mut released = vec![];
    for _ in 0..5 {
        let out = run(&mut pad, one, now);
        released.extend(out.events);
        assert!(out.tick.transmit.is_none());
        now = out.next_deadline;
    }
    assert_eq!(released, vec![Event::Release(2, 0)]);
}

#[test]
fn members_pressed_apart_are_ordinary_keys() {
    let mut pad = Keypad::standard(0).unwrap();
    let mut now = 0u64;
    let mut sent = vec![];
    for raw in [with(&[(1, 0)]), with(&[(1, 0), (1, 1)])] {
        for _ in 0..5 {
            let out = run(&mut pad, raw, now);
            if let Some(r) = out.tick.transmit {
                sent.push(r.as_bytes());
            }
            now = out.next_deadline;
        }
    }
    assert_eq!(
        sent,
        vec![
            [0, 0, key_code::LEFT, 0, 0, 0, 0, 0],
            [0, 0, key_code::LEFT, key_code::DOWN, 0, 0, 0, 0]
        ]
    );
}

#[test]
fn nothing_reaches_a_host_that_is_not_configured() {
    let mut pad = Keypad::standard(1).unwrap();
    let raw = with(&[(0, 1)]);
    let mut now = 0u64;
    for _ in 0..10 {
        let out = pad.period(raw, now, UsbDeviceState::Suspend, true).unwrap();
        assert!(out.tick.transmit.is_none());
        assert_eq!(out.tick.wakeup, !out.events.is_empty() || now >= 5000);
        now = out.next_deadline;
    }
    let out = pad.period(raw, now, UsbDeviceState::Configured, true).unwrap();
    assert_eq!(out.tick.transmit.map(|r| r.as_bytes()), Some([0, 0, key_code::A, 0, 0, 0, 0, 0]));
    assert!(!out.tick.wakeup);
}

#[test]
fn seven_keys_at_once_show_six() {
    let k = Action::KeyCode;
    let table = [[k(4), k(5), k(6)], [k(7), k(8), k(9)], [k(10), k(11), k(12)]];
    let map = Keymap::new(vec![table]).unwrap();
    let mut pad = Keypad::new(1, vec![], map, 0).unwrap();
    let raw = with(&[(0, 0), (0, 1), (0, 2), (1, 0), (1, 1), (1, 2), (2, 0)]);
    let out = run(&mut pad, raw, 0);
    assert_eq!(out.events.len(), 7);
    assert_eq!(out.tick.transmit.map(|r| r.as_bytes()), Some([0, 0, 4, 5, 6, 7, 8, 9]));
    assert!(HidReport::build(&vec![4, 5, 6, 7, 8, 9, 10]).same_as(&out.tick.transmit.unwrap()));
}

#[test]
fn stage_by_stage_from_the_chord_to_the_bootloader() {
    let mut debouncer = MatrixDebouncer::new(1);
    let mut chording = Chording::new(standard_chords()).unwrap();
    let mut layout = Layout::new(standard_keymap(), 0).unwrap();

    // first period: both members of the chord are down
    let debounced = debouncer.events(with(&[(1, 0), (1, 1)]));
    assert_eq!(debounced, vec![Event::Press(1, 0), Event::Press(1, 1)]);
    let events = chording.tick(debounced);
    assert_eq!(events, vec![Event::Press(2, 0)]);
    assert_eq!(layout.lookup(2, 0), Action::Layer(2));
    for e in events {
        layout.event(e);
    }
    assert_eq!(layout.active_layers(), vec![0, 2]);
    assert_eq!(layout.tick(), CustomEvent::NoEvent);

    // next period: the corner key is down as well
    let debounced = debouncer.events(with(&[(1, 0), (1, 1), (0, 2)]));
    assert_eq!(debounced, vec![Event::Press(0, 2)]);
    let events = chording.tick(debounced);
    assert_eq!(events, vec![Event::Press(0, 2)]);
    assert_eq!(layout.lookup(0, 2), Action::Custom(CustomAction::Uf2));
    for e in events {
        layout.event(e);
    }
    let custom = layout.tick();
    assert_eq!(custom, CustomEvent::Press(CustomAction::Uf2));
    let request = handle_custom(custom, layout.base_layer());
    assert_eq!(request, Some(Maintenance::EnterBootloader));
    assert!(request.unwrap().is_terminal());
    assert_eq!(layout.keycodes(), vec![]);
}

#[test]
fn standard_tasks_are_the_parts_of_the_standard_keypad() {
    assert_eq!(BASE_LAYERS, 2);
    let mut scan = ScanTask::standard();
    let both = with(&[(1, 0), (1, 1)]);
    for _ in 0..4 {
        assert_eq!(scan.tick(both), vec![]);
    }
    assert_eq!(scan.tick(both), vec![Event::Press(2, 0)]);

    assert!(ReportTask::standard(2).is_none());
    assert!(ReportTask::standard(usize::MAX).is_none());
    let mut first = ReportTask::standard(0).unwrap();
    let mut second = ReportTask::standard(1).unwrap();
    first.handle_event(Event::Press(0, 1));
    second.handle_event(Event::Press(0, 1));
    let sent = first.tick(UsbDeviceState::Configured, false).transmit.unwrap();
    assert_eq!(sent.as_bytes(), [0, 0, key_code::Z, 0, 0, 0, 0, 0]);
    let sent = second.tick(UsbDeviceState::Configured, false).transmit.unwrap();
    assert_eq!(sent.as_bytes(), [0, 0, key_code::A, 0, 0, 0, 0, 0]);
}

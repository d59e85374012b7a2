use m8_kbd::chord::{batch_contains, ChordDef, ChordError, Chording};
use m8_kbd::event::Event;

fn left_down() -> ChordDef {
    ChordDef { trigger: (2, 0), members: vec![(1, 0), (1, 1)] }
}

fn detector() -> Chording {
    Chording::new(vec![left_down()]).unwrap()
}

#[test]
fn pressing_both_members_gives_one_trigger_press() {
    let mut c = detector();
    let out = c.tick(vec![Event::Press(1, 0), Event::Press(1, 1)]);
    assert_eq!(out, vec![Event::Press(2, 0)]);
    assert!(c.is_engaged(0));
}

#[test]
fn member_order_in_the_batch_does_not_matter() {
    let mut c = detector();
    let out = c.tick(vec![Event::Press(1, 1), Event::Press(1, 0)]);
    assert_eq!(out, vec![Event::Press(2, 0)]);
}

#[test]
fn other_events_pass_in_order_before_the_trigger() {
    let mut c = detector();
    let out = c.tick(vec![
        Event::Press(0, 0),
        Event::Press(1, 0),
        Event::Release(2, 2),
        Event::Press(1, 1),
        Event::Press(0, 2),
    ]);
    assert_eq!(
        out,
        vec![Event::Press(0, 0), Event::Release(2, 2), Event::Press(0, 2), Event::Press(2, 0)]
    );
}

#[test]
fn one_member_alone_is_an_ordinary_key() {
    let mut c = detector();
    assert_eq!(c.tick(vec![Event::Press(1, 0)]), vec![Event::Press(1, 0)]);
    assert!(!c.is_engaged(0));
    assert_eq!(c.tick(vec![Event::Press(1, 1)]), vec![Event::Press(1, 1)]);
    assert!(!c.is_engaged(0));
    assert_eq!(c.tick(vec![Event::Release(1, 0)]), vec![Event::Release(1, 0)]);
}

#[test]
fn releasing_one_member_gives_the_trigger_release() {
    let mut c = detector();
    c.tick(vec![Event::Press(1, 0), Event::Press(1, 1)]);
    let out = c.tick(vec![Event::Release(1, 1)]);
    assert_eq!(out, vec![Event::Release(2, 0)]);
    assert!(!c.is_engaged(0));
}

#[test]
fn releasing_both_members_gives_one_trigger_release() {
    let mut c = detector();
    c.tick(vec![Event::Press(1, 0), Event::Press(1, 1)]);
    let out = c.tick(vec![Event::Release(1, 0), Event::Release(1, 1)]);
    assert_eq!(out, vec![Event::Release(2, 0)]);
}

#[test]
fn engaged_chord_stays_engaged_over_empty_periods() {
    let mut c = detector();
    c.tick(vec![Event::Press(1, 0), Event::Press(1, 1)]);
    for _ in 0..10 {
        assert_eq!(c.tick(vec![]), vec![]);
        assert!(c.is_engaged(0));
    }
    assert_eq!(c.tick(vec![Event::Press(0, 0)]), vec![Event::Press(0, 0)]);
    assert!(c.is_engaged(0));
}

#[test]
fn the_release_left_over_after_the_chord_passes() {
    let mut c = detector();
    c.tick(vec![Event::Press(1, 0), Event::Press(1, 1)]);
    c.tick(vec![Event::Release(1, 1)]);
    assert_eq!(c.tick(vec![Event::Release(1, 0)]), vec![Event::Release(1, 0)]);
}

#[test]
fn empty_batch_without_chord_gives_nothing() {
    let mut c = detector();
    assert_eq!(c.tick(vec![]), vec![]);
    assert!(!c.is_engaged(0));
}

#[test]
fn no_chords_pass_everything() {
    let mut c = Chording::new(vec![]).unwrap();
    assert_eq!(c.len(), 0);
    let batch = vec![Event::Press(1, 0), Event::Press(1, 1)];
    assert_eq!(c.tick(batch.clone()), batch);
}

#[test]
fn two_chords_work_side_by_side() {
    let mut c = Chording::new(vec![
        left_down(),
        ChordDef { trigger: (2, 2), members: vec![(0, 0), (0, 1), (0, 2)] },
    ])
    .unwrap();
    assert_eq!(c.len(), 2);
    let out = c.tick(vec![
        Event::Press(0, 0),
        Event::Press(0, 1),
        Event::Press(0, 2),
        Event::Press(1, 0),
        Event::Press(1, 1),
    ]);
    assert_eq!(out, vec![Event::Press(2, 0), Event::Press(2, 2)]);
    assert!(c.is_engaged(0));
    assert!(c.is_engaged(1));
    let out = c.tick(vec![Event::Release(0, 1)]);
    assert_eq!(out, vec![Event::Release(2, 2)]);
    assert!(c.is_engaged(0));
    assert!(!c.is_engaged(1));
}

#[test]
fn chord_with_one_member_is_refused() {
    let made = Chording::new(vec![left_down(), ChordDef { trigger: (0, 0), members: vec![(2, 2)] }]);
    assert_eq!(made.err(), Some(ChordError::TooFewMembers(1)));
}

#[test]
fn chord_without_members_is_refused() {
    let made = Chording::new(vec![ChordDef { trigger: (0, 0), members: vec![] }]);
    assert_eq!(made.err(), Some(ChordError::TooFewMembers(0)));
}

#[test]
fn trigger_among_the_members_is_refused() {
    let made = Chording::new(vec![ChordDef { trigger: (1, 0), members: vec![(1, 0), (1, 1)] }]);
    assert_eq!(made.err(), Some(ChordError::TriggerIsMember(0)));
}

#[test]
fn trigger_among_the_members_of_another_chord_is_refused() {
    let made = Chording::new(vec![
        left_down(),
        ChordDef { trigger: (1, 1), members: vec![(0, 0), (0, 1)] },
    ]);
    assert_eq!(made.err(), Some(ChordError::TriggerIsMember(1)));
}

#[test]
fn single_chord_step_by_itself() {
    let chord = left_down();
    assert!(chord.has_member((1, 0)));
    assert!(!chord.has_member((2, 0)));
    let batch = vec![Event::Press(1, 0), Event::Press(0, 0), Event::Press(1, 1)];
    assert!(chord.contains_chord(&batch));
    assert!(!chord.contains_release(&batch));
    assert_eq!(chord.strip_members(&batch), vec![Event::Press(0, 0)]);
    let (engaged, out) = chord.tick(false, batch);
    assert!(engaged);
    assert_eq!(out, vec![Event::Press(0, 0), Event::Press(2, 0)]);
    let (engaged, out) = chord.tick(true, vec![Event::Press(0, 1), Event::Release(1, 0)]);
    assert!(!engaged);
    assert_eq!(out, vec![Event::Press(0, 1), Event::Release(2, 0)]);
}

#[test]
fn batch_contains_finds_exact_events() {
    let batch = vec![Event::Press(1, 0), Event::Release(0, 2)];
    assert!(batch_contains(&batch, Event::Press(1, 0)));
    assert!(batch_contains(&batch, Event::Release(0, 2)));
    assert!(!batch_contains(&batch, Event::Release(1, 0)));
    assert!(!batch_contains(&vec![], Event::Press(0, 0)));
}

use m8_kbd::event::Event;
use m8_kbd::key_code;
use m8_kbd::keymap::{standard_keymap, Action, CustomAction, Keymap, LayerTable};
use m8_kbd::layout::{holds_code, CustomEvent, Layout};

fn standard(base: usize) -> Layout {
    Layout::new(standard_keymap(), base).unwrap()
}

fn filled(a: Action) -> LayerTable {
    [[a; 3]; 3]
}

#[test]
fn base_layer_has_to_exist() {
    assert!(Layout::new(standard_keymap(), 2).is_some());
    assert!(Layout::new(standard_keymap(), 3).is_none());
    assert!(Layout::new(standard_keymap(), usize::MAX).is_none());
}

#[test]
fn fresh_layout_holds_nothing() {
    let mut l = standard(0);
    assert_eq!(l.base_layer(), 0);
    assert_eq!(l.active_layers(), vec![0]);
    assert_eq!(l.keycodes(), vec![]);
    assert_eq!(l.tick(), CustomEvent::NoEvent);
    assert!(!l.is_resolved(0, 0));
}

#[test]
fn press_holds_the_key_and_release_lets_go() {
    let mut l = standard(0);
    l.event(Event::Press(0, 1));
    assert_eq!(l.keycodes(), vec![key_code::Z]);
    assert!(l.is_resolved(0, 1));
    l.event(Event::Press(1, 2));
    assert_eq!(l.keycodes(), vec![key_code::Z, key_code::RIGHT]);
    l.event(Event::Release(0, 1));
    assert_eq!(l.keycodes(), vec![key_code::RIGHT]);
    assert!(!l.is_resolved(0, 1));
    l.event(Event::Release(1, 2));
    assert_eq!(l.keycodes(), vec![]);
}

#[test]
fn second_base_layer_has_its_own_letters() {
    let mut l = standard(1);
    l.event(Event::Press(0, 1));
    l.event(Event::Press(0, 2));
    assert_eq!(l.keycodes(), vec![key_code::A, key_code::S]);
    assert_eq!(l.active_layers(), vec![1]);
}

#[test]
fn layer_hold_activates_and_release_deactivates() {
    let mut l = standard(0);
    assert_eq!(l.lookup(0, 2), Action::KeyCode(key_code::X));
    l.event(Event::Press(2, 0));
    assert_eq!(l.active_layers(), vec![0, 2]);
    assert_eq!(l.keycodes(), vec![]);
    assert_eq!(l.lookup(0, 2), Action::Custom(CustomAction::Uf2));
    assert_eq!(l.lookup(1, 1), Action::NoOp);
    assert_eq!(l.lookup(0, 0), Action::KeyCode(key_code::UP));
    l.event(Event::Release(2, 0));
    assert_eq!(l.active_layers(), vec![0]);
    assert_eq!(l.lookup(0, 2), Action::KeyCode(key_code::X));
    l.event(Event::Press(0, 2));
    assert_eq!(l.keycodes(), vec![key_code::X]);
}

#[test]
fn release_undoes_its_own_press_after_the_layers_changed() {
    let mut l = standard(0);
    l.event(Event::Press(0, 2));
    assert_eq!(l.keycodes(), vec![key_code::X]);
    l.event(Event::Press(2, 0));
    assert_eq!(l.lookup(0, 2), Action::Custom(CustomAction::Uf2));
    l.event(Event::Release(0, 2));
    assert_eq!(l.keycodes(), vec![]);
    assert_eq!(l.tick(), CustomEvent::NoEvent);
    assert_eq!(l.active_layers(), vec![0, 2]);
}

#[test]
fn key_pressed_on_a_held_layer_stays_after_the_layer_is_gone() {
    let mut top = filled(Action::Trans);
    top[0][0] = Action::KeyCode(key_code::S);
    let mut base = filled(Action::KeyCode(key_code::A));
    base[2][2] = Action::Layer(1);
    let mut l = Layout::new(Keymap::new(vec![base, top]).unwrap(), 0).unwrap();
    l.event(Event::Press(2, 2));
    l.event(Event::Press(0, 0));
    assert_eq!(l.keycodes(), vec![key_code::S]);
    l.event(Event::Release(2, 2));
    assert_eq!(l.keycodes(), vec![key_code::S]);
    assert_eq!(l.active_layers(), vec![0]);
    l.event(Event::Release(0, 0));
    assert_eq!(l.keycodes(), vec![]);
    l.event(Event::Press(0, 0));
    assert_eq!(l.keycodes(), vec![key_code::A]);
}

#[test]
fn topmost_layer_wins_and_transparent_falls_through() {
    let k = Action::KeyCode;
    let mut base = filled(k(key_code::A));
    base[0][0] = Action::Layer(1);
    base[0][1] = Action::Layer(2);
    let mut one = filled(Action::Trans);
    one[1][0] = k(key_code::S);
    one[1][1] = k(key_code::S);
    one[1][2] = Action::NoOp;
    let mut two = filled(Action::Trans);
    two[1][0] = k(key_code::Z);
    let map = || Keymap::new(vec![base, one, two]).unwrap();

    let mut l = Layout::new(map(), 0).unwrap();
    l.event(Event::Press(0, 0));
    l.event(Event::Press(0, 1));
    assert_eq!(l.active_layers(), vec![0, 1, 2]);
    assert_eq!(l.lookup(1, 0), k(key_code::Z));
    assert_eq!(l.lookup(1, 1), k(key_code::S));
    assert_eq!(l.lookup(1, 2), Action::NoOp);
    assert_eq!(l.lookup(2, 2), k(key_code::A));

    let mut l = Layout::new(map(), 0).unwrap();
    l.event(Event::Press(0, 1));
    l.event(Event::Press(0, 0));
    assert_eq!(l.active_layers(), vec![0, 2, 1]);
    assert_eq!(l.lookup(1, 0), k(key_code::S));
    l.event(Event::Release(0, 1));
    assert_eq!(l.active_layers(), vec![0, 1]);
    assert_eq!(l.lookup(1, 0), k(key_code::S));
    l.event(Event::Release(0, 0));
    assert_eq!(l.active_layers(), vec![0]);
    assert_eq!(l.lookup(1, 0), k(key_code::A));
}

#[test]
fn transparent_through_all_layers_does_nothing() {
    let mut l = Layout::new(Keymap::new(vec![filled(Action::Trans)]).unwrap(), 0).unwrap();
    assert_eq!(l.lookup(1, 1), Action::NoOp);
    l.event(Event::Press(1, 1));
    assert_eq!(l.keycodes(), vec![]);
    assert!(!l.is_resolved(1, 1));
    assert_eq!(l.tick(), CustomEvent::NoEvent);
}

#[test]
fn custom_actions_come_out_one_per_tick_oldest_first() {
    let mut l = standard(0);
    l.event(Event::Press(2, 0));
    l.event(Event::Press(1, 2));
    l.event(Event::Press(2, 2));
    assert_eq!(l.keycodes(), vec![]);
    assert_eq!(l.tick(), CustomEvent::Press(CustomAction::ChangeDefaultLayer));
    assert_eq!(l.tick(), CustomEvent::Press(CustomAction::Reset));
    assert_eq!(l.tick(), CustomEvent::NoEvent);
    l.event(Event::Release(1, 2));
    l.event(Event::Release(2, 2));
    assert_eq!(l.tick(), CustomEvent::NoEvent);
}

#[test]
fn same_key_code_from_two_positions_is_held_once() {
    let mut l = Layout::new(Keymap::new(vec![filled(Action::KeyCode(key_code::A))]).unwrap(), 0).unwrap();
    l.event(Event::Press(0, 0));
    l.event(Event::Press(2, 2));
    assert_eq!(l.keycodes(), vec![key_code::A]);
    l.event(Event::Release(0, 0));
    assert_eq!(l.keycodes(), vec![key_code::A]);
    l.event(Event::Release(2, 2));
    assert_eq!(l.keycodes(), vec![]);
}

#[test]
fn second_press_of_a_held_position_changes_nothing() {
    let mut l = standard(0);
    l.event(Event::Press(2, 0));
    l.event(Event::Press(2, 0));
    assert_eq!(l.active_layers(), vec![0, 2]);
    l.event(Event::Release(2, 0));
    assert_eq!(l.active_layers(), vec![0]);
}

#[test]
fn release_without_press_changes_nothing() {
    let mut l = standard(0);
    l.event(Event::Press(0, 0));
    l.event(Event::Release(1, 1));
    assert_eq!(l.keycodes(), vec![key_code::UP]);
    assert_eq!(l.active_layers(), vec![0]);
}

#[test]
fn events_beyond_the_matrix_change_nothing() {
    let mut l = standard(0);
    l.event(Event::Press(3, 0));
    l.event(Event::Press(0, 7));
    assert_eq!(l.lookup(3, 0), Action::NoOp);
    assert_eq!(l.keycodes(), vec![]);
    assert_eq!(l.active_layers(), vec![0]);
    l.event(Event::Release(3, 0));
    assert_eq!(l.keycodes(), vec![]);
}

#[test]
fn keycodes_keep_the_order_of_the_presses() {
    let mut l = standard(0);
    l.event(Event::Press(2, 2));
    l.event(Event::Press(0, 0));
    l.event(Event::Press(2, 1));
    l.event(Event::Press(1, 0));
    assert_eq!(
        l.keycodes(),
        vec![key_code::SPACE, key_code::UP, key_code::LSHIFT, key_code::LEFT]
    );
    l.event(Event::Release(0, 0));
    assert_eq!(l.keycodes(), vec![key_code::SPACE, key_code::LSHIFT, key_code::LEFT]);
}

#[test]
fn holds_code_finds_codes() {
    assert!(holds_code(&vec![1, 2, 3], 2));
    assert!(!holds_code(&vec![1, 2, 3], 4));
    assert!(!holds_code(&vec![], 0));
}

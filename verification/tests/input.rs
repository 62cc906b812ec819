use rust_npkill::input::{
    apply_input, check_size, events_for_poll, map_input_to_event, InputEvent, Key, SizeError,
    MIN_HEIGHT, MIN_WIDTH,
};
use rust_npkill::store::Data;

#[test]
fn keys_map_to_events() {
    assert_eq!(map_input_to_event(&Key::Char('q')), Some(InputEvent::Quit));
    assert_eq!(map_input_to_event(&Key::Up), Some(InputEvent::Up));
    assert_eq!(map_input_to_event(&Key::Down), Some(InputEvent::Down));
    assert_eq!(map_input_to_event(&Key::Char(' ')), Some(InputEvent::Select));
}

#[test]
fn other_keys_map_to_nothing() {
    assert_eq!(map_input_to_event(&Key::Char('Q')), None);
    assert_eq!(map_input_to_event(&Key::Char('x')), None);
    assert_eq!(map_input_to_event(&Key::Char('\n')), None);
    assert_eq!(map_input_to_event(&Key::Other), None);
}

#[test]
fn every_poll_ends_with_a_tick() {
    assert_eq!(events_for_poll(None), vec![InputEvent::Tick]);
    assert_eq!(events_for_poll(Some(Key::Other)), vec![InputEvent::Tick]);
    assert_eq!(events_for_poll(Some(Key::Char('z'))), vec![InputEvent::Tick]);
    assert_eq!(events_for_poll(Some(Key::Up)), vec![InputEvent::Up, InputEvent::Tick]);
    assert_eq!(events_for_poll(Some(Key::Char('q'))), vec![InputEvent::Quit, InputEvent::Tick]);
    assert_eq!(
        events_for_poll(Some(Key::Char(' '))),
        vec![InputEvent::Select, InputEvent::Tick]
    );
}

#[test]
fn only_quit_closes_the_display() {
    let mut data = Data::new(0);
    data.add_path("a".to_string());
    data.add_path("b".to_string());
    assert!(!apply_input(&mut data, InputEvent::Tick));
    assert!(!apply_input(&mut data, InputEvent::Select));
    assert_eq!(data.selected(), None);
    assert!(!apply_input(&mut data, InputEvent::Up));
    assert_eq!(data.selected(), Some(0));
    assert!(!apply_input(&mut data, InputEvent::Up));
    assert_eq!(data.selected(), Some(1));
    assert!(!apply_input(&mut data, InputEvent::Down));
    assert_eq!(data.selected(), Some(0));
    assert!(apply_input(&mut data, InputEvent::Quit));
    assert_eq!(data.selected(), Some(0));
    assert_eq!(data.len(), 2);
}

#[test]
fn terminal_size_limits() {
    assert_eq!(MIN_WIDTH, 52);
    assert_eq!(MIN_HEIGHT, 28);
    assert_eq!(check_size(52, 28), Ok(()));
    assert_eq!(check_size(200, 60), Ok(()));
    assert_eq!(check_size(51, 28), Err(SizeError::Width(51)));
    assert_eq!(check_size(52, 27), Err(SizeError::Height(27)));
    assert_eq!(check_size(0, 0), Err(SizeError::Width(0)));
    assert_eq!(check_size(10, 100), Err(SizeError::Width(10)));
    assert_eq!(check_size(u16::MAX, 0), Err(SizeError::Height(0)));
}

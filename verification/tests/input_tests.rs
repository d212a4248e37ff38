use termdraw::input::{
    latest_per_key, route_event, InputHandler, Notice, ScreenKeyEvent, TerminalFocus,
    dispatcher_idle_step, handle_command, key_event_to_char, key_message, key_subscription_wants, mouse_message,
    mouse_subscription_wants, shifted_char, EventManagerCommand, EventManagerState, InputButton, InputEvent,
    KeyAction, KeyCode, KeyEvent, KeyEventKind, KeyMessage, KeyModifiers, KeySubscriptionTypes, MouseButtonState,
    MouseButtons, MouseEventKind, MouseMessage, MouseSubscriptionTypes, PlainKind, SubscriptionRegistry,
    SubscriptionType, TargetScreen, MAX_IDLE_SLEEP_MS, MIN_IDLE_SLEEP_MS,
};

fn key(code: KeyCode, kind: KeyEventKind, modifiers: KeyModifiers) -> KeyEvent {
    KeyEvent { code, modifiers, kind }
}

#[test]
fn targeting_reaches_the_right_screens() {
    assert!(TargetScreen::Global.targeting(3));
    assert!(!TargetScreen::NoTarget.targeting(3));
    assert!(TargetScreen::Screen(3).targeting(3));
    assert!(!TargetScreen::Screen(2).targeting(3));
}

#[test]
fn shifted_char_maps_the_number_row_and_letters() {
    assert_eq!(shifted_char('1'), '!');
    assert_eq!(shifted_char('/'), '?');
    assert_eq!(shifted_char('a'), 'A');
    assert_eq!(shifted_char('A'), 'A');
    assert_eq!(shifted_char(shifted_char('9')), '(');
}

#[test]
fn key_event_to_char_needs_a_press() {
    assert_eq!(key_event_to_char(key(KeyCode::Char('x'), KeyEventKind::Press, KeyModifiers::none())), Some('x'));
    assert_eq!(key_event_to_char(key(KeyCode::Char('x'), KeyEventKind::Press, KeyModifiers::shift())), Some('X'));
    assert_eq!(key_event_to_char(key(KeyCode::Char('x'), KeyEventKind::Release, KeyModifiers::none())), None);
    assert_eq!(key_event_to_char(key(KeyCode::Enter, KeyEventKind::Press, KeyModifiers::none())), None);
}

#[test]
fn modifiers_contain_their_bits() {
    let both = KeyModifiers { bits: 3 };
    assert!(both.contains(KeyModifiers::shift()));
    assert!(both.contains(KeyModifiers::control()));
    assert!(!both.contains(KeyModifiers::alt()));
    assert!(KeyModifiers::none().contains(KeyModifiers::none()));
}

#[test]
fn key_messages_follow_the_event_kind() {
    let ev = key(KeyCode::Tab, KeyEventKind::Press, KeyModifiers::none());
    assert_eq!(key_message(&ev, false), Some(KeyMessage::Pressed(KeyCode::Tab, KeyModifiers::none())));
    assert_eq!(key_message(&ev, true), Some(KeyMessage::Repeating(KeyCode::Tab, KeyModifiers::none())));
    let rel = key(KeyCode::Tab, KeyEventKind::Release, KeyModifiers::alt());
    assert_eq!(key_message(&rel, false), Some(KeyMessage::Released(KeyCode::Tab, KeyModifiers::alt())));
    assert_eq!(key_message(&key(KeyCode::Tab, KeyEventKind::Repeat, KeyModifiers::none()), false), None);
    assert_eq!(KeyMessage::Released(KeyCode::Tab, KeyModifiers::alt()).modifiers(), KeyModifiers::alt());
}

#[test]
fn mouse_messages_follow_the_event_kind() {
    assert_eq!(mouse_message(MouseEventKind::Down(MouseButtons::Left), 1, 2), Some(MouseMessage::Pressed(MouseButtons::Left)));
    assert_eq!(mouse_message(MouseEventKind::Moved, 4, 5), Some(MouseMessage::Move(4, 5)));
    assert_eq!(mouse_message(MouseEventKind::Drag(MouseButtons::Left), 4, 5), None);
    assert_eq!(mouse_message(MouseEventKind::ScrollLeft, 4, 5), None);
}

#[test]
fn key_subscriptions_match_specific_keys_and_actions() {
    let pressed_a = KeyMessage::Pressed(KeyCode::Char('a'), KeyModifiers::none());
    assert!(key_subscription_wants(&KeySubscriptionTypes::All, &KeyAction::Any, &pressed_a));
    assert!(key_subscription_wants(&KeySubscriptionTypes::Specific(KeyCode::Char('a')), &KeyAction::Pressed, &pressed_a));
    assert!(!key_subscription_wants(&KeySubscriptionTypes::Specific(KeyCode::Char('a')), &KeyAction::Released, &pressed_a));
    assert!(!key_subscription_wants(&KeySubscriptionTypes::Specific(KeyCode::Char('a')), &KeyAction::Any, &pressed_a));
    assert!(!key_subscription_wants(&KeySubscriptionTypes::Specific(KeyCode::Char('b')), &KeyAction::Pressed, &pressed_a));
}

#[test]
fn mouse_subscriptions_filter_messages() {
    let press = MouseMessage::Pressed(MouseButtons::Right);
    assert!(mouse_subscription_wants(&MouseSubscriptionTypes::All, &press));
    assert!(mouse_subscription_wants(&MouseSubscriptionTypes::Buttons, &press));
    assert!(!mouse_subscription_wants(&MouseSubscriptionTypes::Moves, &press));
    assert!(mouse_subscription_wants(&MouseSubscriptionTypes::Scrolls, &MouseMessage::ScrollUp));
    assert!(mouse_subscription_wants(&MouseSubscriptionTypes::ButtonAny(MouseButtons::Right), &press));
    assert!(!mouse_subscription_wants(&MouseSubscriptionTypes::ButtonAny(MouseButtons::Left), &press));
}

#[test]
fn state_tracks_held_keys_and_repeats() {
    let mut s = EventManagerState::new(TargetScreen::Screen(1));
    let a = InputEvent::Key(key(KeyCode::Char('a'), KeyEventKind::Press, KeyModifiers::shift()));
    assert!(!s.apply_event(&a));
    assert!(s.is_pressed(InputButton::Key(KeyCode::Char('a'))));
    assert!(s.is_pressed_with_modifier(InputButton::Key(KeyCode::Char('a')), KeyModifiers::shift()));
    assert!(!s.is_pressed_with_modifier(InputButton::Key(KeyCode::Char('a')), KeyModifiers::control()));
    assert_eq!(s.is_pressed_with_screen(InputButton::Key(KeyCode::Char('a'))), Some(TargetScreen::Screen(1)));
    assert!(s.apply_event(&a));
    let rel = InputEvent::Key(key(KeyCode::Char('a'), KeyEventKind::Release, KeyModifiers::none()));
    assert!(!s.apply_event(&rel));
    assert!(!s.is_pressed(InputButton::Key(KeyCode::Char('a'))));
    assert_eq!(s.is_pressed_with_screen(InputButton::Key(KeyCode::Char('a'))), None);
}

#[test]
fn losing_focus_forgets_held_keys() {
    let mut s = EventManagerState::new(TargetScreen::Global);
    s.apply_event(&InputEvent::Key(key(KeyCode::Up, KeyEventKind::Press, KeyModifiers::none())));
    s.apply_event(&InputEvent::FocusLost);
    assert!(!s.is_pressed(InputButton::Key(KeyCode::Up)));
    assert!(!s.is_terminal_focused);
    s.apply_event(&InputEvent::FocusGained);
    assert!(s.is_terminal_focused);
}

#[test]
fn state_tracks_mouse_buttons_position_and_size() {
    let mut s = EventManagerState::new(TargetScreen::NoTarget);
    s.apply_event(&InputEvent::Mouse { kind: MouseEventKind::Down(MouseButtons::Left), column: 3, row: 4 });
    assert!(s.is_pressed(InputButton::Mouse(MouseButtons::Left)));
    assert_eq!(s.mouse_pos(), (3, 4));
    s.apply_event(&InputEvent::Mouse { kind: MouseEventKind::Drag(MouseButtons::Left), column: 5, row: 6 });
    assert_eq!(s.mouse_state.left_pressed, MouseButtonState::Dragging);
    assert!(!s.is_pressed(InputButton::Mouse(MouseButtons::Left)));
    assert!(s.is_pressed_with_modifier(InputButton::Mouse(MouseButtons::Left), KeyModifiers::none()));
    s.apply_event(&InputEvent::Mouse { kind: MouseEventKind::Up(MouseButtons::Left), column: 5, row: 6 });
    assert_eq!(s.mouse_state.left_pressed, MouseButtonState::Released);
    s.apply_event(&InputEvent::Resize(120, 40));
    assert_eq!(s.terminal_size, (120, 40));
    s.set_targeted_screen(TargetScreen::Screen(9));
    assert_eq!(s.current_selected_screen(), TargetScreen::Screen(9));
}

#[test]
fn subscription_ids_are_fresh_and_recipients_ordered() {
    let mut reg = SubscriptionRegistry::new();
    let k1 = reg.subscribe(SubscriptionType::Key(KeySubscriptionTypes::All, KeyAction::Any));
    let m1 = reg.subscribe(SubscriptionType::Mouse(MouseSubscriptionTypes::All));
    let k2 = reg.subscribe(SubscriptionType::Key(KeySubscriptionTypes::Specific(KeyCode::Esc), KeyAction::Pressed));
    let r1 = reg.subscribe(SubscriptionType::Resize);
    assert_eq!((k1, m1, k2, r1), (0, 1, 2, 3));
    let esc = KeyMessage::Pressed(KeyCode::Esc, KeyModifiers::none());
    assert_eq!(reg.key_recipients(&esc), vec![0, 2]);
    assert_eq!(reg.mouse_recipients(&MouseMessage::ScrollDown), vec![1]);
    assert_eq!(reg.plain_recipients(PlainKind::Resize), vec![3]);
    assert!(reg.plain_recipients(PlainKind::Paste).is_empty());
    reg.remove(0);
    assert_eq!(reg.key_recipients(&esc), vec![2]);
    assert_eq!(reg.subscribe(SubscriptionType::Paste), 4);
}

#[test]
fn commands_subscribe_or_select_a_screen() {
    let mut reg = SubscriptionRegistry::new();
    let mut s = EventManagerState::new(TargetScreen::NoTarget);
    assert_eq!(handle_command(&mut reg, &mut s, EventManagerCommand::Subscribe(SubscriptionType::Paste)), Some(0));
    assert_eq!(handle_command(&mut reg, &mut s, EventManagerCommand::SetTargetedScreen(TargetScreen::Global)), None);
    assert_eq!(s.targeted_screen, TargetScreen::Global);
    assert_eq!(reg.plain_recipients(PlainKind::Paste), vec![0]);
}

#[test]
fn dispatcher_backs_off_up_to_the_limit() {
    assert_eq!(dispatcher_idle_step(false, true, 8), (Some(10), 8));
    assert_eq!(dispatcher_idle_step(true, true, 32), (None, MIN_IDLE_SLEEP_MS));
    assert_eq!(dispatcher_idle_step(true, false, 2), (Some(2), 4));
    assert_eq!(dispatcher_idle_step(true, false, 32), (Some(32), MAX_IDLE_SLEEP_MS));
    let mut wait = MIN_IDLE_SLEEP_MS;
    for _ in 0..20 {
        let (slept, next) = dispatcher_idle_step(true, false, wait);
        assert!(slept.unwrap() <= MAX_IDLE_SLEEP_MS);
        wait = next;
    }
    assert_eq!(wait, MAX_IDLE_SLEEP_MS);
}

#[test]
fn route_event_updates_state_and_picks_recipients() {
    let mut reg = SubscriptionRegistry::new();
    let keys = reg.subscribe(SubscriptionType::Key(KeySubscriptionTypes::All, KeyAction::Any));
    let focus = reg.subscribe(SubscriptionType::TerminalWindowFocus);
    let moves = reg.subscribe(SubscriptionType::Mouse(MouseSubscriptionTypes::Moves));
    let mut s = EventManagerState::new(TargetScreen::Global);
    let press = InputEvent::Key(key(KeyCode::Char('k'), KeyEventKind::Press, KeyModifiers::none()));
    let r = route_event(&mut s, &reg, &press).unwrap();
    assert_eq!(r.0, Notice::Key(KeyMessage::Pressed(KeyCode::Char('k'), KeyModifiers::none())));
    assert_eq!(r.1, vec![keys]);
    let again = route_event(&mut s, &reg, &press).unwrap();
    assert_eq!(again.0, Notice::Key(KeyMessage::Repeating(KeyCode::Char('k'), KeyModifiers::none())));
    let lost = route_event(&mut s, &reg, &InputEvent::FocusLost).unwrap();
    assert_eq!(lost, (Notice::Focus(TerminalFocus::HasBeenUnfocused), vec![focus]));
    assert!(!s.is_pressed(InputButton::Key(KeyCode::Char('k'))));
    let moved = route_event(&mut s, &reg, &InputEvent::Mouse { kind: MouseEventKind::Moved, column: 7, row: 8 }).unwrap();
    assert_eq!(moved, (Notice::Mouse(MouseMessage::Move(7, 8)), vec![moves]));
    assert_eq!(s.mouse_pos(), (7, 8));
    assert!(route_event(&mut s, &reg, &InputEvent::Mouse { kind: MouseEventKind::ScrollLeft, column: 0, row: 0 }).is_none());
    let resize = route_event(&mut s, &reg, &InputEvent::Resize(3, 4)).unwrap();
    assert_eq!(resize, (Notice::Resize(3, 4), vec![]));
}

#[test]
fn input_handler_reports_changed_keys_only() {
    let mut h = InputHandler::new(false);
    let a = key(KeyCode::Char('a'), KeyEventKind::Press, KeyModifiers::none());
    let a_up = key(KeyCode::Char('a'), KeyEventKind::Release, KeyModifiers::none());
    let b = key(KeyCode::Char('b'), KeyEventKind::Press, KeyModifiers::none());
    assert!(h.detect_changes(&vec![a, b]).is_empty());
    h.targeted_screen = Some(2);
    h.last_keyevents.push((KeyCode::Char('a'), ScreenKeyEvent { event: a, screen: None }));
    h.last_keyevents.push((KeyCode::Char('b'), ScreenKeyEvent { event: b, screen: None }));
    assert_eq!(
        h.detect_changes(&vec![a_up, b]),
        vec![(KeyCode::Char('a'), ScreenKeyEvent { event: a_up, screen: Some(2) })]
    );
    assert_eq!(h.key_event_to_screen(b), ScreenKeyEvent { event: b, screen: Some(2) });
}

#[test]
fn latest_per_key_keeps_the_last_event_of_each_key_in_first_seen_order() {
    let a = key(KeyCode::Char('a'), KeyEventKind::Press, KeyModifiers::none());
    let b = key(KeyCode::Char('b'), KeyEventKind::Press, KeyModifiers::none());
    let a_up = key(KeyCode::Char('a'), KeyEventKind::Release, KeyModifiers::none());
    let b_rep = key(KeyCode::Char('b'), KeyEventKind::Repeat, KeyModifiers::none());
    assert_eq!(latest_per_key(&vec![a, b, a_up, b_rep, a_up]), vec![a_up, b_rep]);
    assert!(latest_per_key(&vec![]).is_empty());
}

//! Input handling decisions: which screen input is for, what the pressed
//! keys and the mouse are, which subscribers want which message, and how
//! long an idle dispatcher waits.
use crate::cell::{ascii_upper, spec_ascii_upper};
use vstd::prelude::*;

verus! {

/// Which screen input goes to.
#[derive(Debug, Clone, Copy, PartialEq, Eq, Structural, Hash)]
pub enum TargetScreen {
    /// One screen, by key.
    Screen(usize),
    /// No screen.
    NoTarget,
    /// Every screen.
    Global,
}

impl TargetScreen {
    pub open spec fn spec_targeting(self, screen_id: usize) -> bool {
        match self {
            TargetScreen::Global => true,
            TargetScreen::NoTarget => false,
            TargetScreen::Screen(s) => s == screen_id,
        }
    }

    /// Whether input for this target reaches the screen.
    pub fn targeting(&self, screen_id: usize) -> (b: bool)
        ensures
            b == self.spec_targeting(screen_id),
    {
        match self {
            TargetScreen::Global => true,
            TargetScreen::NoTarget => false,
            TargetScreen::Screen(s) => *s == screen_id,
        }
    }
}

/// `Global` reaches every screen, `None` no screen, and `Screen(s)`
/// exactly screen `s`.
pub proof fn targeting_law(t: TargetScreen, a: usize, b: usize)
    ensures
        TargetScreen::Global.spec_targeting(a),
        !TargetScreen::NoTarget.spec_targeting(a),
        TargetScreen::Screen(a).spec_targeting(b) <==> a == b,
        t.spec_targeting(a) && t.spec_targeting(b) && a != b ==> t == TargetScreen::Global,
{
}

/// A key, as the terminal reports it. Media and modifier keys are given
/// by their index in the terminal library's list of them.
#[derive(Debug, Clone, Copy, PartialEq, Eq, Structural, Hash)]
pub enum KeyCode {
    Backspace,
    Enter,
    Left,
    Right,
    Up,
    Down,
    Home,
    End,
    PageUp,
    PageDown,
    Tab,
    BackTab,
    Delete,
    Insert,
    F(u8),
    Char(char),
    Null,
    Esc,
    CapsLock,
    ScrollLock,
    NumLock,
    PrintScreen,
    Pause,
    Menu,
    KeypadBegin,
    Media(u8),
    Modifier(u8),
}

/// A set of modifier keys, as bits.
#[derive(Debug, Clone, Copy, PartialEq, Eq, Structural, Hash)]
pub struct KeyModifiers {
    pub bits: u8,
}

impl KeyModifiers {
    pub fn none() -> (m: KeyModifiers)
        ensures
            m.bits == 0,
    {
        KeyModifiers { bits: 0 }
    }

    pub fn shift() -> (m: KeyModifiers)
        ensures
            m.bits == 1,
    {
        KeyModifiers { bits: 1 }
    }

    pub fn control() -> (m: KeyModifiers)
        ensures
            m.bits == 2,
    {
        KeyModifiers { bits: 2 }
    }

    pub fn alt() -> (m: KeyModifiers)
        ensures
            m.bits == 4,
    {
        KeyModifiers { bits: 4 }
    }

    /// Every modifier of `other` is in `self`.
    pub open spec fn spec_contains(self, other: KeyModifiers) -> bool {
        self.bits & other.bits == other.bits
    }

    pub fn contains(&self, other: KeyModifiers) -> (b: bool)
        ensures
            b == self.spec_contains(other),
    {
        self.bits & other.bits == other.bits
    }
}

/// The character typed with a shifted key on a US layout: digits and
/// punctuation map to their shifted symbol, anything else to its ASCII
/// upper case.
pub open spec fn spec_shifted_char(c: char) -> char {
    if c == '1' {
        '!'
    } else if c == '2' {
        '@'
    } else if c == '3' {
        '#'
    } else if c == '4' {
        '$'
    } else if c == '5' {
        '%'
    } else if c == '6' {
        '^'
    } else if c == '7' {
        '&'
    } else if c == '8' {
        '*'
    } else if c == '9' {
        '('
    } else if c == '0' {
        ')'
    } else if c == '-' {
        '_'
    } else if c == '=' {
        '+'
    } else if c == '[' {
        '{'
    } else if c == ']' {
        '}'
    } else if c == '\\' {
        '|'
    } else if c == ';' {
        ':'
    } else if c == '\'' {
        '"'
    } else if c == ',' {
        '<'
    } else if c == '.' {
        '>'
    } else if c == '/' {
        '?'
    } else if c == '`' {
        '~'
    } else {
        spec_ascii_upper(c)
    }
}

pub fn shifted_char(c: char) -> (r: char)
    ensures
        r == spec_shifted_char(c),
{
    if c == '1' {
        '!'
    } else if c == '2' {
        '@'
    } else if c == '3' {
        '#'
    } else if c == '4' {
        '$'
    } else if c == '5' {
        '%'
    } else if c == '6' {
        '^'
    } else if c == '7' {
        '&'
    } else if c == '8' {
        '*'
    } else if c == '9' {
        '('
    } else if c == '0' {
        ')'
    } else if c == '-' {
        '_'
    } else if c == '=' {
        '+'
    } else if c == '[' {
        '{'
    } else if c == ']' {
        '}'
    } else if c == '\\' {
        '|'
    } else if c == ';' {
        ':'
    } else if c == '\'' {
        '"'
    } else if c == ',' {
        '<'
    } else if c == '.' {
        '>'
    } else if c == '/' {
        '?'
    } else if c == '`' {
        '~'
    } else {
        ascii_upper(c)
    }
}

/// Shifting a character twice gives what shifting it once gives.
pub proof fn shifted_char_idempotent(c: char)
    ensures
        spec_shifted_char(spec_shifted_char(c)) == spec_shifted_char(c),
{
}

/// How a key event came.
#[derive(Debug, Clone, Copy, PartialEq, Eq, Structural, Hash)]
pub enum KeyEventKind {
    Press,
    Repeat,
    Release,
}

/// A key event: the key, the modifiers held, and whether it was pressed,
/// repeated or released.
#[derive(Debug, Clone, Copy, PartialEq, Eq, Structural, Hash)]
pub struct KeyEvent {
    pub code: KeyCode,
    pub modifiers: KeyModifiers,
    pub kind: KeyEventKind,
}

/// The character a key press types: a character key gives its character,
/// shifted when `SHIFT` is held; other keys and non-presses give nothing.
pub open spec fn spec_key_event_to_char(event: KeyEvent) -> Option<char> {
    if event.kind != KeyEventKind::Press {
        None
    } else {
        match event.code {
            KeyCode::Char(c) => if event.modifiers.spec_contains(KeyModifiers { bits: 1 }) {
                Some(spec_shifted_char(c))
            } else {
                Some(c)
            },
            _ => None,
        }
    }
}

pub fn key_event_to_char(event: KeyEvent) -> (r: Option<char>)
    ensures
        r == spec_key_event_to_char(event),
{
    match event.kind {
        KeyEventKind::Press => {},
        _ => {
            return None;
        },
    }
    match event.code {
        KeyCode::Char(c) => {
            if event.modifiers.contains(KeyModifiers { bits: 1 }) {
                Some(shifted_char(c))
            } else {
                Some(c)
            }
        },
        _ => None,
    }
}

/// A mouse button.
#[derive(Debug, Clone, Copy, PartialEq, Eq, Structural, Hash)]
pub enum MouseButtons {
    Left,
    Right,
    Middle,
}

/// The state of a mouse button.
#[derive(Debug, Clone, Copy, PartialEq, Eq, Structural, Hash)]
pub enum MouseButtonState {
    Pressed,
    Released,
    Dragging,
}

impl Default for MouseButtonState {
    fn default() -> (s: Self)
        ensures
            s == MouseButtonState::Released,
    {
        MouseButtonState::Released
    }
}

/// The state of the mouse: its three buttons and its position.
#[derive(Debug, Clone, Copy, PartialEq, Eq, Structural)]
pub struct MouseState {
    pub left_pressed: MouseButtonState,
    pub right_pressed: MouseButtonState,
    pub middle_pressed: MouseButtonState,
    pub mouse_pos_x: u16,
    pub mouse_pos_y: u16,
}

impl Default for MouseState {
    /// All buttons released, at `(0, 0)`.
    fn default() -> (s: Self)
        ensures
            s == (MouseState {
                left_pressed: MouseButtonState::Released,
                right_pressed: MouseButtonState::Released,
                middle_pressed: MouseButtonState::Released,
                mouse_pos_x: 0,
                mouse_pos_y: 0,
            }),
    {
        MouseState {
            left_pressed: MouseButtonState::Released,
            right_pressed: MouseButtonState::Released,
            middle_pressed: MouseButtonState::Released,
            mouse_pos_x: 0,
            mouse_pos_y: 0,
        }
    }
}

/// What happened to the mouse.
#[derive(Debug, Clone, Copy, PartialEq, Eq, Structural, Hash)]
pub enum MouseEventKind {
    Down(MouseButtons),
    Up(MouseButtons),
    Drag(MouseButtons),
    Moved,
    ScrollDown,
    ScrollUp,
    ScrollLeft,
    ScrollRight,
}

/// A message for mouse subscribers.
#[derive(Debug, Clone, Copy, PartialEq, Eq, Structural, Hash)]
pub enum MouseMessage {
    Move(u16, u16),
    Pressed(MouseButtons),
    Released(MouseButtons),
    ScrollUp,
    ScrollDown,
}

/// A message for key subscribers.
#[derive(Debug, Clone, Copy, PartialEq, Eq, Structural, Hash)]
pub enum KeyMessage {
    Pressed(KeyCode, KeyModifiers),
    Released(KeyCode, KeyModifiers),
    Repeating(KeyCode, KeyModifiers),
}

impl KeyMessage {
    pub fn modifiers(&self) -> (m: KeyModifiers)
        ensures
            m == match *self {
                KeyMessage::Pressed(_, m) => m,
                KeyMessage::Released(_, m) => m,
                KeyMessage::Repeating(_, m) => m,
            },
    {
        match self {
            KeyMessage::Pressed(_, mods) => *mods,
            KeyMessage::Repeating(_, mods) => *mods,
            KeyMessage::Released(_, mods) => *mods,
        }
    }
}

/// Whether the terminal window gained or lost focus.
#[derive(Debug, Clone, Copy, PartialEq, Eq, Structural, Hash)]
pub enum TerminalFocus {
    HasBeenFocused,
    HasBeenUnfocused,
}

/// Which key events a key subscriber wants.
#[derive(Debug, Clone, Copy, PartialEq, Eq, Structural, Hash)]
pub enum KeySubscriptionTypes {
    All,
    Specific(KeyCode),
}

/// Which key action a key subscriber wants.
#[derive(Debug, Clone, Copy, PartialEq, Eq, Structural, Hash)]
pub enum KeyAction {
    Any,
    Pressed,
    Released,
    Repeated,
}

/// Which button action a mouse subscriber wants.
#[derive(Debug, Clone, Copy, PartialEq, Eq, Structural, Hash)]
pub enum MouseAction {
    Any,
    Pressed,
    Released,
}

/// Which mouse messages a mouse subscriber wants.
#[derive(Debug, Clone, Copy, PartialEq, Eq, Structural, Hash)]
pub enum MouseSubscriptionTypes {
    /// Every mouse message.
    All,
    /// Presses and releases.
    Buttons,
    /// Scrolling.
    Scrolls,
    /// Movement.
    Moves,
    /// Presses and releases of one button.
    ButtonAny(MouseButtons),
    /// One action of one button (`Any` meaning press or release).
    ButtonAction(MouseButtons, MouseAction),
}

/// What a subscriber subscribes to.
#[derive(Debug, Clone, Copy, PartialEq, Eq, Structural, Hash)]
pub enum SubscriptionType {
    Mouse(MouseSubscriptionTypes),
    Key(KeySubscriptionTypes, KeyAction),
    Resize,
    Paste,
    TerminalWindowFocus,
}

/// A key subscriber of this kind wants this message: `All` wants every
/// message; a specific key wants the message of that key whose action is
/// exactly the one asked for (`Any` matches no message).
pub open spec fn spec_key_wants(sub: KeySubscriptionTypes, action: KeyAction, msg: KeyMessage) -> bool {
    match sub {
        KeySubscriptionTypes::All => true,
        KeySubscriptionTypes::Specific(expected) => match msg {
            KeyMessage::Pressed(code, _) => action == KeyAction::Pressed && code == expected,
            KeyMessage::Released(code, _) => action == KeyAction::Released && code == expected,
            KeyMessage::Repeating(code, _) => action == KeyAction::Repeated && code == expected,
        },
    }
}

/// The key a key message is about.
pub open spec fn message_key(msg: KeyMessage) -> KeyCode {
    match msg {
        KeyMessage::Pressed(c, _) => c,
        KeyMessage::Released(c, _) => c,
        KeyMessage::Repeating(c, _) => c,
    }
}

/// The action a key message reports.
pub open spec fn message_action(msg: KeyMessage) -> KeyAction {
    match msg {
        KeyMessage::Pressed(..) => KeyAction::Pressed,
        KeyMessage::Released(..) => KeyAction::Released,
        KeyMessage::Repeating(..) => KeyAction::Repeated,
    }
}

/// A subscriber to every key wants every key message; a subscriber to a
/// specific key and action wants exactly the messages about that key
/// that report that action: a repeat goes to the subscribers of
/// repeats, a press to those of presses, a release to those of releases.
pub proof fn key_subscribers_get_their_action(sub: KeySubscriptionTypes, action: KeyAction, msg: KeyMessage)
    ensures
        sub is All ==> spec_key_wants(sub, action, msg),
        sub matches KeySubscriptionTypes::Specific(c) ==> (spec_key_wants(sub, action, msg) <==> (message_key(msg) == c
            && message_action(msg) == action)),
{
}

pub fn key_subscription_wants(sub: &KeySubscriptionTypes, action: &KeyAction, msg: &KeyMessage) -> (b: bool)
    ensures
        b == spec_key_wants(*sub, *action, *msg),
{
    match sub {
        KeySubscriptionTypes::All => true,
        KeySubscriptionTypes::Specific(expected) => match msg {
            KeyMessage::Pressed(code, _) => {
                match action {
                    KeyAction::Pressed => *code == *expected,
                    _ => false,
                }
            },
            KeyMessage::Released(code, _) => {
                match action {
                    KeyAction::Released => *code == *expected,
                    _ => false,
                }
            },
            KeyMessage::Repeating(code, _) => {
                match action {
                    KeyAction::Repeated => *code == *expected,
                    _ => false,
                }
            },
        },
    }
}

/// A mouse subscriber of this kind wants this message (see
/// `MouseSubscriptionTypes`).
pub open spec fn spec_mouse_wants(sub: MouseSubscriptionTypes, msg: MouseMessage) -> bool {
    match sub {
        MouseSubscriptionTypes::All => true,
        MouseSubscriptionTypes::Buttons => msg is Pressed || msg is Released,
        MouseSubscriptionTypes::Scrolls => msg is ScrollUp || msg is ScrollDown,
        MouseSubscriptionTypes::Moves => msg is Move,
        MouseSubscriptionTypes::ButtonAny(expected) => match msg {
            MouseMessage::Pressed(b) => b == expected,
            MouseMessage::Released(b) => b == expected,
            _ => false,
        },
        MouseSubscriptionTypes::ButtonAction(expected, action) => match (msg, action) {
            (MouseMessage::Pressed(b), MouseAction::Pressed) => b == expected,
            (MouseMessage::Released(b), MouseAction::Released) => b == expected,
            (MouseMessage::Pressed(b), MouseAction::Any) => b == expected,
            (MouseMessage::Released(b), MouseAction::Any) => b == expected,
            _ => false,
        },
    }
}

pub fn mouse_subscription_wants(sub: &MouseSubscriptionTypes, msg: &MouseMessage) -> (b: bool)
    ensures
        b == spec_mouse_wants(*sub, *msg),
{
    match sub {
        MouseSubscriptionTypes::All => true,
        MouseSubscriptionTypes::Buttons => matches!(msg, MouseMessage::Pressed(_) | MouseMessage::Released(_)),
        MouseSubscriptionTypes::Scrolls => matches!(msg, MouseMessage::ScrollUp | MouseMessage::ScrollDown),
        MouseSubscriptionTypes::Moves => matches!(msg, MouseMessage::Move(_, _)),
        MouseSubscriptionTypes::ButtonAny(expected) => match msg {
            MouseMessage::Pressed(b) | MouseMessage::Released(b) => *b == *expected,
            _ => false,
        },
        MouseSubscriptionTypes::ButtonAction(expected, action) => match (msg, action) {
            (MouseMessage::Pressed(b), MouseAction::Pressed) => *b == *expected,
            (MouseMessage::Released(b), MouseAction::Released) => *b == *expected,
            (MouseMessage::Pressed(b), MouseAction::Any) | (MouseMessage::Released(b), MouseAction::Any) => *b
                == *expected,
            _ => false,
        },
    }
}

/// The button a mouse message presses or releases, if it is a button
/// message.
pub open spec fn message_button(msg: MouseMessage) -> Option<MouseButtons> {
    match msg {
        MouseMessage::Pressed(b) => Some(b),
        MouseMessage::Released(b) => Some(b),
        _ => None,
    }
}

/// Which mouse messages each kind of subscriber gets: every one, button
/// messages, scrolls, moves, the presses and releases of one button, or
/// those of one button that report the chosen action (`Any` taking both).
pub proof fn mouse_subscribers_get_their_messages(sub: MouseSubscriptionTypes, msg: MouseMessage)
    ensures
        sub is All ==> spec_mouse_wants(sub, msg),
        sub is Buttons ==> (spec_mouse_wants(sub, msg) <==> message_button(msg) is Some),
        sub is Scrolls ==> (spec_mouse_wants(sub, msg) <==> (msg == MouseMessage::ScrollUp || msg
            == MouseMessage::ScrollDown)),
        sub is Moves ==> (spec_mouse_wants(sub, msg) <==> exists|x: u16, y: u16| msg == MouseMessage::Move(x, y)),
        sub matches MouseSubscriptionTypes::ButtonAny(b) ==> (spec_mouse_wants(sub, msg) <==> message_button(msg)
            == Some(b)),
        sub matches MouseSubscriptionTypes::ButtonAction(b, a) ==> (spec_mouse_wants(sub, msg) <==> (
        message_button(msg) == Some(b) && (a == MouseAction::Any || (a == MouseAction::Pressed
            && msg == MouseMessage::Pressed(b)) || (a == MouseAction::Released && msg
            == MouseMessage::Released(b))))),
{
    if let MouseMessage::Move(x, y) = msg {
        assert(msg == MouseMessage::Move(x, y));
    }
}

/// The message mouse subscribers get for a mouse event, if any: drags and
/// sideways scrolling give none.
pub open spec fn spec_mouse_message(kind: MouseEventKind, column: u16, row: u16) -> Option<MouseMessage> {
    match kind {
        MouseEventKind::Down(b) => Some(MouseMessage::Pressed(b)),
        MouseEventKind::Up(b) => Some(MouseMessage::Released(b)),
        MouseEventKind::Moved => Some(MouseMessage::Move(column, row)),
        MouseEventKind::ScrollUp => Some(MouseMessage::ScrollUp),
        MouseEventKind::ScrollDown => Some(MouseMessage::ScrollDown),
        _ => None,
    }
}

pub fn mouse_message(kind: MouseEventKind, column: u16, row: u16) -> (m: Option<MouseMessage>)
    ensures
        m == spec_mouse_message(kind, column, row),
{
    match kind {
        MouseEventKind::Down(b) => Some(MouseMessage::Pressed(b)),
        MouseEventKind::Up(b) => Some(MouseMessage::Released(b)),
        MouseEventKind::Moved => Some(MouseMessage::Move(column, row)),
        MouseEventKind::ScrollUp => Some(MouseMessage::ScrollUp),
        MouseEventKind::ScrollDown => Some(MouseMessage::ScrollDown),
        _ => None,
    }
}

/// The message key subscribers get for a key event: a repeat of a held
/// key, a press, or a release; a repeat event from the terminal gives
/// none.
pub open spec fn spec_key_message(event: KeyEvent, is_repeating: bool) -> Option<KeyMessage> {
    if is_repeating {
        Some(KeyMessage::Repeating(event.code, event.modifiers))
    } else if event.kind == KeyEventKind::Press {
        Some(KeyMessage::Pressed(event.code, event.modifiers))
    } else if event.kind == KeyEventKind::Release {
        Some(KeyMessage::Released(event.code, event.modifiers))
    } else {
        None
    }
}

/// The key message of an event is about the event's key: a held key that
/// repeats reports a repeat, otherwise a press reports a press and a
/// release a release; a repeat from the terminal alone reports nothing.
pub proof fn key_message_reports_the_event(event: KeyEvent, is_repeating: bool)
    ensures
        spec_key_message(event, is_repeating) matches Some(msg) ==> message_key(msg) == event.code,
        is_repeating ==> (spec_key_message(event, is_repeating) matches Some(msg) && message_action(msg)
            == KeyAction::Repeated),
        !is_repeating && event.kind == KeyEventKind::Press ==> (spec_key_message(event, is_repeating) matches Some(
            msg) && message_action(msg) == KeyAction::Pressed),
        !is_repeating && event.kind == KeyEventKind::Release ==> (spec_key_message(event, is_repeating) matches Some(
            msg) && message_action(msg) == KeyAction::Released),
        !is_repeating && event.kind == KeyEventKind::Repeat ==> spec_key_message(event, is_repeating) is None,
{
}

/// The mouse message of an event: a button going down or up presses or
/// releases that button, a move reports where the mouse went, scrolling
/// up or down reports it; drags and sideways scrolling report nothing.
pub proof fn mouse_message_reports_the_event(kind: MouseEventKind, column: u16, row: u16)
    ensures
        kind matches MouseEventKind::Down(b) ==> spec_mouse_message(kind, column, row) == Some(MouseMessage::Pressed(b)),
        kind matches MouseEventKind::Up(b) ==> spec_mouse_message(kind, column, row) == Some(MouseMessage::Released(b)),
        kind is Moved ==> spec_mouse_message(kind, column, row) == Some(MouseMessage::Move(column, row)),
        kind is ScrollUp ==> spec_mouse_message(kind, column, row) == Some(MouseMessage::ScrollUp),
        kind is ScrollDown ==> spec_mouse_message(kind, column, row) == Some(MouseMessage::ScrollDown),
        (kind is Drag || kind is ScrollLeft || kind is ScrollRight) ==> spec_mouse_message(kind, column, row) is None,
{
}

pub fn key_message(event: &KeyEvent, is_repeating: bool) -> (m: Option<KeyMessage>)
    ensures
        m == spec_key_message(*event, is_repeating),
{
    if is_repeating {
        Some(KeyMessage::Repeating(event.code, event.modifiers))
    } else {
        match event.kind {
            KeyEventKind::Press => Some(KeyMessage::Pressed(event.code, event.modifiers)),
            KeyEventKind::Release => Some(KeyMessage::Released(event.code, event.modifiers)),
            KeyEventKind::Repeat => None,
        }
    }
}

/// A held key: its code, the modifiers held when it was pressed, and the
/// screen targeted then.
#[derive(Debug, Clone, Copy, PartialEq, Eq, Structural)]
pub struct PressedKey {
    pub code: KeyCode,
    pub modifiers: KeyModifiers,
    pub screen: TargetScreen,
}

/// An input event from the terminal.
#[derive(Debug, Clone, Copy, PartialEq, Eq, Structural)]
pub enum InputEvent {
    Key(KeyEvent),
    FocusGained,
    FocusLost,
    Mouse { kind: MouseEventKind, column: u16, row: u16 },
    Paste,
    Resize(u16, u16),
}

/// The last held entry for a key, if any.
pub open spec fn lookup(s: Seq<PressedKey>, code: KeyCode) -> Option<PressedKey>
    decreases s.len(),
{
    if s.len() == 0 {
        None
    } else if s.last().code == code {
        Some(s.last())
    } else {
        lookup(s.drop_last(), code)
    }
}

proof fn lemma_lookup_some(s: Seq<PressedKey>, code: KeyCode)
    ensures
        lookup(s, code) is Some <==> exists|i: int| 0 <= i < s.len() && s[i].code == code,
        lookup(s, code) matches Some(k) ==> s.contains(k) && k.code == code,
    decreases s.len(),
{
    if s.len() > 0 {
        lemma_lookup_some(s.drop_last(), code);
        if s.last().code != code {
            assert forall|i: int| 0 <= i < s.len() && s[i].code == code implies 0 <= i < s.drop_last().len()
                && s.drop_last()[i].code == code by {
                if i == s.len() - 1 {
                    assert(s[i] == s.last());
                }
            }
            if lookup(s.drop_last(), code) is Some {
                let i = choose|i: int| 0 <= i < s.drop_last().len() && s.drop_last()[i].code == code;
                assert(s[i] == s.drop_last()[i]);
            }
            if lookup(s, code) is Some {
                let k = lookup(s, code)->Some_0;
                let j = choose|j: int| 0 <= j < s.drop_last().len() && s.drop_last()[j] == k;
                assert(s[j] == k);
            }
        } else {
            assert(s[s.len() - 1] == s.last());
        }
    }
}

/// The state of keyboard, mouse and terminal as seen from input events.
#[derive(Debug)]
pub struct EventManagerState {
    pub pressed_keys: Vec<PressedKey>,
    pub mouse_state: MouseState,
    pub terminal_size: (u16, u16),
    pub targeted_screen: TargetScreen,
    pub is_terminal_focused: bool,
}

/// The state of one mouse button.
pub open spec fn spec_button_state(m: MouseState, b: MouseButtons) -> MouseButtonState {
    match b {
        MouseButtons::Left => m.left_pressed,
        MouseButtons::Right => m.right_pressed,
        MouseButtons::Middle => m.middle_pressed,
    }
}

/// `m` with button `b` in state `st`.
pub open spec fn spec_set_button(m: MouseState, b: MouseButtons, st: MouseButtonState) -> MouseState {
    match b {
        MouseButtons::Left => MouseState { left_pressed: st, ..m },
        MouseButtons::Right => MouseState { right_pressed: st, ..m },
        MouseButtons::Middle => MouseState { middle_pressed: st, ..m },
    }
}

/// Setting a button's state: that button then reads the new state, the
/// other buttons and the position are kept.
pub proof fn set_button_reads_back(m: MouseState, b: MouseButtons, other: MouseButtons, st: MouseButtonState)
    ensures
        spec_button_state(spec_set_button(m, b, st), b) == st,
        other != b ==> spec_button_state(spec_set_button(m, b, st), other) == spec_button_state(m, other),
        spec_set_button(m, b, st).mouse_pos_x == m.mouse_pos_x,
        spec_set_button(m, b, st).mouse_pos_y == m.mouse_pos_y,
{
}

/// A button or a key, for queries.
#[derive(Debug, Clone, Copy, PartialEq, Eq, Structural, Hash)]
pub enum InputButton {
    Mouse(MouseButtons),
    Key(KeyCode),
}

impl EventManagerState {
    /// No key is held twice.
    pub open spec fn wf(&self) -> bool {
        forall|i: int, j: int|
            0 <= i < j < self.pressed_keys@.len() ==> (#[trigger] self.pressed_keys@[i]).code != (
            #[trigger] self.pressed_keys@[j]).code
    }

    /// No key held, mouse at rest at `(0, 0)`, terminal size `(0, 0)`,
    /// focused, targeting `targeted_screen`.
    pub fn new(targeted_screen: TargetScreen) -> (s: Self)
        ensures
            s.wf(),
            s.pressed_keys@.len() == 0,
            s.mouse_state == (MouseState {
                left_pressed: MouseButtonState::Released,
                right_pressed: MouseButtonState::Released,
                middle_pressed: MouseButtonState::Released,
                mouse_pos_x: 0,
                mouse_pos_y: 0,
            }),
            s.terminal_size == (0u16, 0u16),
            s.targeted_screen == targeted_screen,
            s.is_terminal_focused,
    {
        EventManagerState {
            pressed_keys: Vec::new(),
            mouse_state: MouseState::default(),
            terminal_size: (0, 0),
            targeted_screen,
            is_terminal_focused: true,
        }
    }

    /// The held entry of a key, if any.
    pub fn find_key(&self, code: &KeyCode) -> (r: Option<PressedKey>)
        ensures
            r == lookup(self.pressed_keys@, *code),
    {
        let mut i = self.pressed_keys.len();
        assert(self.pressed_keys@.take(i as int) =~= self.pressed_keys@);
        while i > 0
            invariant
                0 <= i <= self.pressed_keys@.len(),
                lookup(self.pressed_keys@, *code) == lookup(self.pressed_keys@.take(i as int), *code),
            decreases i,
        {
            let ghost t = self.pressed_keys@.take(i as int);
            assert(t.drop_last() =~= self.pressed_keys@.take(i - 1));
            if self.pressed_keys[i - 1].code == *code {
                return Some(self.pressed_keys[i - 1]);
            }
            i -= 1;
        }
        None
    }

    fn remove_key(&mut self, code: &KeyCode)
        requires
            old(self).wf(),
        ensures
            final(self).wf(),
            final(self).mouse_state == old(self).mouse_state,
            final(self).terminal_size == old(self).terminal_size,
            final(self).targeted_screen == old(self).targeted_screen,
            final(self).is_terminal_focused == old(self).is_terminal_focused,
            lookup(final(self).pressed_keys@, *code) is None,
            forall|c: KeyCode| c != *code ==> #[trigger] lookup(final(self).pressed_keys@, c) == lookup(old(self).pressed_keys@, c),
            lookup(old(self).pressed_keys@, *code) is None ==> final(self).pressed_keys@ == old(self).pressed_keys@,
    {
        let ghost before = self.pressed_keys@;
        let mut i: usize = 0;
        while i < self.pressed_keys.len()
            invariant
                self.pressed_keys@ == before,
                before == old(self).pressed_keys@,
                self.mouse_state == old(self).mouse_state,
                self.terminal_size == old(self).terminal_size,
                self.targeted_screen == old(self).targeted_screen,
                self.is_terminal_focused == old(self).is_terminal_focused,
                old(self).wf(),
                0 <= i <= before.len(),
                forall|j: int| 0 <= j < i ==> before[j].code != *code,
            decreases before.len() - i,
        {
            if self.pressed_keys[i].code == *code {
                self.pressed_keys.remove(i);
                proof {
                    let after = self.pressed_keys@;
                    assert(after == before.remove(i as int));
                    assert forall|a: int, b: int| 0 <= a < b < after.len() implies (#[trigger] after[a]).code != (
                    #[trigger] after[b]).code by {
                        let a2 = if a < i { a } else { a + 1 };
                        let b2 = if b < i { b } else { b + 1 };
                        assert(after[a] == before[a2]);
                        assert(after[b] == before[b2]);
                    }
                    lemma_lookup_remove(before, i as int);
                    lemma_lookup_some(before, *code);
                }
                return ;
            }
            i += 1;
        }
        proof {
            lemma_lookup_some(before, *code);
        }
    }

    /// How an event changes the state (see `apply_event`).
    pub open spec fn spec_applied(&self, after: EventManagerState, ev: InputEvent) -> bool {
        match ev {
            InputEvent::Key(ke) => {
                &&& after.mouse_state == self.mouse_state
                &&& after.terminal_size == self.terminal_size
                &&& after.is_terminal_focused == self.is_terminal_focused
                &&& if ke.kind == KeyEventKind::Press {
                    if lookup(self.pressed_keys@, ke.code) is None {
                        after.pressed_keys@ == self.pressed_keys@.push(
                            PressedKey { code: ke.code, modifiers: ke.modifiers, screen: self.targeted_screen },
                        )
                    } else {
                        after.pressed_keys@ == self.pressed_keys@
                    }
                } else if ke.kind == KeyEventKind::Release {
                    &&& lookup(after.pressed_keys@, ke.code) is None
                    &&& forall|c: KeyCode| c != ke.code ==> #[trigger] lookup(after.pressed_keys@, c)
                        == lookup(self.pressed_keys@, c)
                } else {
                    after.pressed_keys@ == self.pressed_keys@
                }
            },
            InputEvent::FocusGained => {
                &&& after.is_terminal_focused
                &&& after.pressed_keys@ == self.pressed_keys@
                &&& after.mouse_state == self.mouse_state
                &&& after.terminal_size == self.terminal_size
            },
            InputEvent::FocusLost => {
                &&& !after.is_terminal_focused
                &&& after.pressed_keys@.len() == 0
                &&& after.mouse_state == self.mouse_state
                &&& after.terminal_size == self.terminal_size
            },
            InputEvent::Mouse { kind, column, row } => {
                let m = match kind {
                    MouseEventKind::Down(b) => spec_set_button(self.mouse_state, b, MouseButtonState::Pressed),
                    MouseEventKind::Up(b) => spec_set_button(self.mouse_state, b, MouseButtonState::Released),
                    MouseEventKind::Drag(b) => spec_set_button(self.mouse_state, b, MouseButtonState::Dragging),
                    _ => self.mouse_state,
                };
                &&& after.mouse_state == MouseState { mouse_pos_x: column, mouse_pos_y: row, ..m }
                &&& after.pressed_keys@ == self.pressed_keys@
                &&& after.terminal_size == self.terminal_size
                &&& after.is_terminal_focused == self.is_terminal_focused
            },
            InputEvent::Resize(w, h) => {
                &&& after.terminal_size == (w, h)
                &&& after.pressed_keys@ == self.pressed_keys@
                &&& after.mouse_state == self.mouse_state
                &&& after.is_terminal_focused == self.is_terminal_focused
            },
            InputEvent::Paste => after == *self,
        }
    }

    /// Updates the state for an event and tells whether a key press is a
    /// repeat of a held key: a press of a key not held records it with the
    /// modifiers and the targeted screen; a release forgets the key; losing
    /// focus forgets every key; mouse events set the button's state (down:
    /// pressed, up: released, drag: dragging) and the position; a resize
    /// sets the terminal size.
    pub fn apply_event(&mut self, ev: &InputEvent) -> (repeating: bool)
        requires
            old(self).wf(),
        ensures
            final(self).wf(),
            repeating <==> (ev matches InputEvent::Key(ke) && ke.kind == KeyEventKind::Press && lookup(
                old(self).pressed_keys@,
                ke.code,
            ) is Some),
            final(self).targeted_screen == old(self).targeted_screen,
            old(self).spec_applied(*final(self), *ev),
    {
        let mut repeating = false;
        match ev {
            InputEvent::Key(ke) => {
                match ke.kind {
                    KeyEventKind::Press => {
                        match self.find_key(&ke.code) {
                            None => {
                                proof {
                                    lemma_lookup_some(self.pressed_keys@, ke.code);
                                }
                                let ghost before = self.pressed_keys@;
                                self.pressed_keys.push(
                                    PressedKey { code: ke.code, modifiers: ke.modifiers, screen: self.targeted_screen },
                                );
                                proof {
                                    assert forall|i: int, j: int|
                                        0 <= i < j < self.pressed_keys@.len() implies (#[trigger] self.pressed_keys@[i]).code != (
                                        #[trigger] self.pressed_keys@[j]).code by {
                                        if j == before.len() {
                                            assert(self.pressed_keys@[i] == before[i]);
                                        } else {
                                            assert(self.pressed_keys@[i] == before[i]);
                                            assert(self.pressed_keys@[j] == before[j]);
                                        }
                                    }
                                }
                            },
                            Some(_) => {
                                repeating = true;
                            },
                        }
                    },
                    KeyEventKind::Release => {
                        self.remove_key(&ke.code);
                    },
                    KeyEventKind::Repeat => {},
                }
            },
            InputEvent::FocusGained => {
                self.is_terminal_focused = true;
            },
            InputEvent::FocusLost => {
                self.is_terminal_focused = false;
                self.pressed_keys.clear();
            },
            InputEvent::Mouse { kind, column, row } => {
                match kind {
                    MouseEventKind::Down(b) => set_mouse_button(&mut self.mouse_state, b, MouseButtonState::Pressed),
                    MouseEventKind::Up(b) => set_mouse_button(&mut self.mouse_state, b, MouseButtonState::Released),
                    MouseEventKind::Drag(b) => set_mouse_button(&mut self.mouse_state, b, MouseButtonState::Dragging),
                    _ => {},
                }
                self.mouse_state.mouse_pos_x = *column;
                self.mouse_state.mouse_pos_y = *row;
            },
            InputEvent::Resize(w, h) => {
                self.terminal_size = (*w, *h);
            },
            InputEvent::Paste => {},
        }
        repeating
    }

    /// Whether the key is held, or the mouse button pressed (not
    /// dragging).
    pub fn is_pressed(&self, button: InputButton) -> (b: bool)
        ensures
            b == match button {
                InputButton::Key(k) => lookup(self.pressed_keys@, k) is Some,
                InputButton::Mouse(mb) => spec_button_state(self.mouse_state, mb) == MouseButtonState::Pressed,
            },
    {
        match button {
            InputButton::Key(k) => self.find_key(&k).is_some(),
            InputButton::Mouse(mb) => button_state(&self.mouse_state, mb) == MouseButtonState::Pressed,
        }
    }

    /// Whether the key is held with all the given modifiers, or the mouse
    /// button pressed or dragging.
    pub fn is_pressed_with_modifier(&self, button: InputButton, modifier: KeyModifiers) -> (b: bool)
        ensures
            b == match button {
                InputButton::Key(k) => lookup(self.pressed_keys@, k) matches Some(p) && p.modifiers.spec_contains(
                    modifier,
                ),
                InputButton::Mouse(mb) => spec_button_state(self.mouse_state, mb) == MouseButtonState::Pressed
                    || spec_button_state(self.mouse_state, mb) == MouseButtonState::Dragging,
            },
    {
        match button {
            InputButton::Key(k) => match self.find_key(&k) {
                Some(p) => p.modifiers.contains(modifier),
                None => false,
            },
            InputButton::Mouse(mb) => {
                let st = button_state(&self.mouse_state, mb);
                st == MouseButtonState::Pressed || st == MouseButtonState::Dragging
            },
        }
    }

    /// The screen a held key was pressed on, or the targeted screen for a
    /// pressed or dragging mouse button; `None` otherwise.
    pub fn is_pressed_with_screen(&self, button: InputButton) -> (r: Option<TargetScreen>)
        ensures
            r == match button {
                InputButton::Key(k) => match lookup(self.pressed_keys@, k) {
                    Some(p) => Some(p.screen),
                    None => None,
                },
                InputButton::Mouse(mb) => if spec_button_state(self.mouse_state, mb) == MouseButtonState::Pressed
                    || spec_button_state(self.mouse_state, mb) == MouseButtonState::Dragging {
                    Some(self.targeted_screen)
                } else {
                    None
                },
            },
    {
        match button {
            InputButton::Key(k) => match self.find_key(&k) {
                Some(p) => Some(p.screen),
                None => None,
            },
            InputButton::Mouse(mb) => {
                let st = button_state(&self.mouse_state, mb);
                if st == MouseButtonState::Pressed || st == MouseButtonState::Dragging {
                    Some(self.targeted_screen)
                } else {
                    None
                }
            },
        }
    }

    pub fn mouse_pos(&self) -> (p: (u16, u16))
        ensures
            p == (self.mouse_state.mouse_pos_x, self.mouse_state.mouse_pos_y),
    {
        (self.mouse_state.mouse_pos_x, self.mouse_state.mouse_pos_y)
    }

    pub fn current_selected_screen(&self) -> (t: TargetScreen)
        ensures
            t == self.targeted_screen,
    {
        self.targeted_screen
    }

    /// Targets another screen.
    pub fn set_targeted_screen(&mut self, screen: TargetScreen)
        ensures
            *final(self) == (EventManagerState { targeted_screen: screen, ..*old(self) }),
    {
        self.targeted_screen = screen;
    }
}

/// After removing entry `i` of a list without repeated keys, the key of
/// that entry is gone and every other key finds what it found before.
proof fn lemma_lookup_remove(s: Seq<PressedKey>, i: int)
    requires
        0 <= i < s.len(),
        forall|a: int, b: int| 0 <= a < b < s.len() ==> (#[trigger] s[a]).code != (#[trigger] s[b]).code,
    ensures
        lookup(s.remove(i), s[i].code) is None,
        forall|c: KeyCode| c != s[i].code ==> #[trigger] lookup(s.remove(i), c) == lookup(s, c),
    decreases s.len(),
{
    let r = s.remove(i);
    if i == s.len() - 1 {
        assert(r =~= s.drop_last());
        lemma_lookup_some(r, s[i].code);
        assert forall|c: KeyCode| c != s[i].code implies #[trigger] lookup(r, c) == lookup(s, c) by {
            assert(s.last() == s[i]);
        }
    } else {
        let d = s.drop_last();
        lemma_lookup_remove(d, i);
        assert(r.drop_last() =~= d.remove(i));
        assert(r.last() == s.last());
        assert(s.last().code != s[i].code) by {
            assert(s[s.len() - 1] == s.last());
        }
        assert(d[i] == s[i]);
        assert forall|c: KeyCode| c != s[i].code implies #[trigger] lookup(r, c) == lookup(s, c) by {
            assert(d[i] == s[i]);
            assert(lookup(d.remove(i), c) == lookup(d, c));
            if s.last().code != c {
                assert(lookup(r, c) == lookup(r.drop_last(), c));
                assert(lookup(s, c) == lookup(d, c));
            }
        }
        assert(lookup(r, s[i].code) == lookup(r.drop_last(), s[i].code));
    }
}

fn button_state(m: &MouseState, b: MouseButtons) -> (st: MouseButtonState)
    ensures
        st == spec_button_state(*m, b),
{
    match b {
        MouseButtons::Left => m.left_pressed,
        MouseButtons::Right => m.right_pressed,
        MouseButtons::Middle => m.middle_pressed,
    }
}

fn set_mouse_button(m: &mut MouseState, b: &MouseButtons, st: MouseButtonState)
    ensures
        *final(m) == spec_set_button(*old(m), *b, st),
{
    match b {
        MouseButtons::Left => m.left_pressed = st,
        MouseButtons::Right => m.right_pressed = st,
        MouseButtons::Middle => m.middle_pressed = st,
    }
}

/// A kind of subscription that gets every message of its kind.
#[derive(Debug, Clone, Copy, PartialEq, Eq, Structural, Hash)]
pub enum PlainKind {
    Resize,
    Paste,
    TerminalWindowFocus,
}

/// The ids of the key subscribers (in order) that want `msg`.
pub open spec fn spec_key_recipients(subs: Seq<(usize, SubscriptionType)>, msg: KeyMessage) -> Seq<usize>
    decreases subs.len(),
{
    if subs.len() == 0 {
        Seq::empty()
    } else {
        let r = spec_key_recipients(subs.drop_last(), msg);
        match subs.last().1 {
            SubscriptionType::Key(k, a) => if spec_key_wants(k, a, msg) {
                r.push(subs.last().0)
            } else {
                r
            },
            _ => r,
        }
    }
}

/// The ids of the mouse subscribers (in order) that want `msg`.
pub open spec fn spec_mouse_recipients(subs: Seq<(usize, SubscriptionType)>, msg: MouseMessage) -> Seq<usize>
    decreases subs.len(),
{
    if subs.len() == 0 {
        Seq::empty()
    } else {
        let r = spec_mouse_recipients(subs.drop_last(), msg);
        match subs.last().1 {
            SubscriptionType::Mouse(m) => if spec_mouse_wants(m, msg) {
                r.push(subs.last().0)
            } else {
                r
            },
            _ => r,
        }
    }
}

pub open spec fn is_plain_kind(t: SubscriptionType, kind: PlainKind) -> bool {
    match kind {
        PlainKind::Resize => t is Resize,
        PlainKind::Paste => t is Paste,
        PlainKind::TerminalWindowFocus => t is TerminalWindowFocus,
    }
}

/// The ids of the subscribers (in order) of a plain kind.
pub open spec fn spec_plain_recipients(subs: Seq<(usize, SubscriptionType)>, kind: PlainKind) -> Seq<usize>
    decreases subs.len(),
{
    if subs.len() == 0 {
        Seq::empty()
    } else {
        let r = spec_plain_recipients(subs.drop_last(), kind);
        if is_plain_kind(subs.last().1, kind) {
            r.push(subs.last().0)
        } else {
            r
        }
    }
}

/// The subscriptions, with their ids, in the order they were made; the
/// next id to hand out.
#[derive(Debug)]
pub struct SubscriptionRegistry {
    next_id: usize,
    subs: Vec<(usize, SubscriptionType)>,
}

impl SubscriptionRegistry {
    pub closed spec fn spec_next_id(&self) -> usize {
        self.next_id
    }

    pub closed spec fn spec_subs(&self) -> Seq<(usize, SubscriptionType)> {
        self.subs@
    }

    /// Every id held is below the next one.
    pub open spec fn wf(&self) -> bool {
        forall|i: int| 0 <= i < self.spec_subs().len() ==> (#[trigger] self.spec_subs()[i]).0 < self.spec_next_id()
    }

    pub fn new() -> (r: Self)
        ensures
            r.wf(),
            r.spec_next_id() == 0,
            r.spec_subs().len() == 0,
    {
        SubscriptionRegistry { next_id: 0, subs: Vec::new() }
    }

    /// Records a subscription under the next id and returns that id; the
    /// counter then moves on (wrapping around at `usize::MAX`).
    /// What subscribing with type `t` did, going from `self` to `after`
    /// with id `id` (see `subscribe`).
    pub open spec fn subscribed(&self, t: SubscriptionType, after: SubscriptionRegistry, id: usize) -> bool {
        &&& id == self.spec_next_id()
        &&& after.spec_next_id() == (if id == usize::MAX { 0 } else { (id + 1) as usize })
        &&& after.spec_subs() == self.spec_subs().push((id, t))
        &&& self.wf() && id < usize::MAX ==> after.wf()
    }

    pub fn subscribe(&mut self, t: SubscriptionType) -> (id: usize)
        ensures
            id == old(self).spec_next_id(),
            final(self).spec_next_id() == (if id == usize::MAX { 0 } else { (id + 1) as usize }),
            final(self).spec_subs() == old(self).spec_subs().push((id, t)),
            old(self).wf() && id < usize::MAX ==> final(self).wf(),
            old(self).subscribed(t, *final(self), id),
    {
        let id = self.next_id;
        self.next_id = self.next_id.wrapping_add(1);
        let ghost before = self.subs@;
        self.subs.push((id, t));
        proof {
            if old(self).wf() && id < usize::MAX {
                assert forall|k: int| 0 <= k < self.subs@.len() implies (#[trigger] self.subs@[k]).0 < self.next_id by {
                    if k < before.len() {
                        assert(self.subs@[k] == before[k]);
                    }
                }
            }
        }
        id
    }

    /// Drops every subscription with this id (its receiver is gone).
    pub fn remove(&mut self, id: usize)
        ensures
            final(self).spec_next_id() == old(self).spec_next_id(),
            final(self).spec_subs() == old(self).spec_subs().filter(|e: (usize, SubscriptionType)| e.0 != id),
            old(self).wf() ==> final(self).wf(),
    {
        let mut kept: Vec<(usize, SubscriptionType)> = Vec::new();
        let mut i: usize = 0;
        let ghost s = self.subs@;
        proof {
            if old(self).wf() {
                assert forall|j: int| 0 <= j < s.len() implies (#[trigger] s[j]).0 < self.next_id by {
                    assert(old(self).spec_subs()[j] == s[j]);
                }
            }
        }
        while i < self.subs.len()
            invariant
                s == self.subs@,
                0 <= i <= s.len(),
                kept@ == s.take(i as int).filter(|e: (usize, SubscriptionType)| e.0 != id),
                self.next_id == old(self).next_id,
                s == old(self).subs@,
                old(self).wf() ==> forall|j: int| 0 <= j < kept@.len() ==> (#[trigger] kept@[j]).0 < self.next_id,
                old(self).wf() ==> forall|j: int| 0 <= j < s.len() ==> (#[trigger] s[j]).0 < self.next_id,
            decreases s.len() - i,
        {
            let e = self.subs[i];
            proof {
                assert(s.take(i + 1).drop_last() =~= s.take(i as int));
                reveal(Seq::filter);
            }
            if e.0 != id {
                let ghost k0 = kept@;
                kept.push(e);
                proof {
                    if old(self).wf() {
                        assert(s[i as int].0 < self.next_id);
                        assert forall|j: int| 0 <= j < kept@.len() implies (#[trigger] kept@[j]).0 < self.next_id by {
                            if j < k0.len() {
                                assert(kept@[j] == k0[j]);
                            }
                        }
                    }
                }
            }
            i += 1;
        }
        assert(s.take(s.len() as int) =~= s);
        self.subs = kept;

    }

    /// The key subscribers that want the message, in order.
    pub fn key_recipients(&self, msg: &KeyMessage) -> (ids: Vec<usize>)
        ensures
            ids@ == spec_key_recipients(self.spec_subs(), *msg),
    {
        let mut ids: Vec<usize> = Vec::new();
        let mut i: usize = 0;
        while i < self.subs.len()
            invariant
                0 <= i <= self.subs@.len(),
                ids@ == spec_key_recipients(self.subs@.take(i as int), *msg),
            decreases self.subs@.len() - i,
        {
            assert(self.subs@.take(i + 1).drop_last() =~= self.subs@.take(i as int));
            let (id, t) = self.subs[i];
            match t {
                SubscriptionType::Key(k, a) => {
                    if key_subscription_wants(&k, &a, msg) {
                        ids.push(id);
                    }
                },
                _ => {},
            }
            i += 1;
        }
        assert(self.subs@.take(self.subs@.len() as int) =~= self.subs@);
        ids
    }

    /// The mouse subscribers that want the message, in order.
    pub fn mouse_recipients(&self, msg: &MouseMessage) -> (ids: Vec<usize>)
        ensures
            ids@ == spec_mouse_recipients(self.spec_subs(), *msg),
    {
        let mut ids: Vec<usize> = Vec::new();
        let mut i: usize = 0;
        while i < self.subs.len()
            invariant
                0 <= i <= self.subs@.len(),
                ids@ == spec_mouse_recipients(self.subs@.take(i as int), *msg),
            decreases self.subs@.len() - i,
        {
            assert(self.subs@.take(i + 1).drop_last() =~= self.subs@.take(i as int));
            let (id, t) = self.subs[i];
            match t {
                SubscriptionType::Mouse(m) => {
                    if mouse_subscription_wants(&m, msg) {
                        ids.push(id);
                    }
                },
                _ => {},
            }
            i += 1;
        }
        assert(self.subs@.take(self.subs@.len() as int) =~= self.subs@);
        ids
    }

    /// The subscribers of a plain kind, in order.
    pub fn plain_recipients(&self, kind: PlainKind) -> (ids: Vec<usize>)
        ensures
            ids@ == spec_plain_recipients(self.spec_subs(), kind),
    {
        let mut ids: Vec<usize> = Vec::new();
        let mut i: usize = 0;
        while i < self.subs.len()
            invariant
                0 <= i <= self.subs@.len(),
                ids@ == spec_plain_recipients(self.subs@.take(i as int), kind),
            decreases self.subs@.len() - i,
        {
            assert(self.subs@.take(i + 1).drop_last() =~= self.subs@.take(i as int));
            let (id, t) = self.subs[i];
            let hit = match kind {
                PlainKind::Resize => matches!(t, SubscriptionType::Resize),
                PlainKind::Paste => matches!(t, SubscriptionType::Paste),
                PlainKind::TerminalWindowFocus => matches!(t, SubscriptionType::TerminalWindowFocus),
            };
            if hit {
                ids.push(id);
            }
            i += 1;
        }
        assert(self.subs@.take(self.subs@.len() as int) =~= self.subs@);
        ids
    }
}

/// A subscription made while the counter has not wrapped gets an id
/// greater than that of every current subscription.
pub proof fn subscription_ids_fresh(r: SubscriptionRegistry, id: usize)
    requires
        r.wf(),
        id == r.spec_next_id(),
    ensures
        forall|i: int| 0 <= i < r.spec_subs().len() ==> (#[trigger] r.spec_subs()[i]).0 < id,
{
}

/// Two subscriptions in a row, made before the counter wraps, get
/// increasing ids greater than every id handed out before; each is
/// stored under its id with its type, after the ones there were.
pub proof fn subscriptions_in_a_row(
    r0: SubscriptionRegistry,
    r1: SubscriptionRegistry,
    r2: SubscriptionRegistry,
    t1: SubscriptionType,
    t2: SubscriptionType,
    id1: usize,
    id2: usize,
)
    requires
        r0.wf(),
        r0.subscribed(t1, r1, id1),
        r1.subscribed(t2, r2, id2),
        id1 < usize::MAX,
        id2 < usize::MAX,
    ensures
        id1 < id2,
        forall|i: int| 0 <= i < r0.spec_subs().len() ==> (#[trigger] r0.spec_subs()[i]).0 < id1,
        r2.spec_subs() == r0.spec_subs().push((id1, t1)).push((id2, t2)),
        r2.wf(),
{
}

/// A command to the event manager.
#[derive(Debug, Clone, Copy)]
pub enum EventManagerCommand {
    Subscribe(SubscriptionType),
    SetTargetedScreen(TargetScreen),
}

/// Carries out a command: a subscription is recorded (its id is
/// returned), a screen selection changes the targeted screen.
pub fn handle_command(
    registry: &mut SubscriptionRegistry,
    state: &mut EventManagerState,
    cmd: EventManagerCommand,
) -> (id: Option<usize>)
    ensures
        match cmd {
            EventManagerCommand::Subscribe(t) => {
                &&& id == Some(old(registry).spec_next_id())
                &&& final(registry).spec_subs() == old(registry).spec_subs().push((old(registry).spec_next_id(), t))
                &&& old(registry).subscribed(t, *final(registry), old(registry).spec_next_id())
                &&& *final(state) == *old(state)
            },
            EventManagerCommand::SetTargetedScreen(screen) => {
                &&& id is None
                &&& *final(registry) == *old(registry)
                &&& *final(state) == (EventManagerState { targeted_screen: screen, ..*old(state) })
            },
        },
{
    match cmd {
        EventManagerCommand::Subscribe(t) => Some(registry.subscribe(t)),
        EventManagerCommand::SetTargetedScreen(screen) => {
            state.set_targeted_screen(screen);
            None
        },
    }
}

/// A key event and the screen it was meant for, if known.
#[derive(Debug, Clone, Copy, PartialEq, Eq, Structural)]
pub struct ScreenKeyEvent {
    pub event: KeyEvent,
    pub screen: Option<usize>,
}

/// The event recorded last for a key, if any.
pub open spec fn last_event_of(s: Seq<(KeyCode, ScreenKeyEvent)>, code: KeyCode) -> Option<ScreenKeyEvent>
    decreases s.len(),
{
    if s.len() == 0 {
        None
    } else if s.last().0 == code {
        Some(s.last().1)
    } else {
        last_event_of(s.drop_last(), code)
    }
}

/// The events of `current` (in order) whose key has a recorded event that
/// differs from them, each paired with its key and tagged with `screen`.
pub open spec fn spec_changes(
    last: Seq<(KeyCode, ScreenKeyEvent)>,
    current: Seq<KeyEvent>,
    screen: Option<usize>,
) -> Seq<(KeyCode, ScreenKeyEvent)>
    decreases current.len(),
{
    if current.len() == 0 {
        Seq::empty()
    } else {
        let r = spec_changes(last, current.drop_last(), screen);
        let ev = current.last();
        match last_event_of(last, ev.code) {
            Some(prev) => if prev.event != ev {
                r.push((ev.code, ScreenKeyEvent { event: ev, screen }))
            } else {
                r
            },
            None => r,
        }
    }
}

/// The last event of key `code` among `events`, if any.
pub open spec fn last_key_event(events: Seq<KeyEvent>, code: KeyCode) -> Option<KeyEvent>
    decreases events.len(),
{
    if events.len() == 0 {
        None
    } else if events.last().code == code {
        Some(events.last())
    } else {
        last_key_event(events.drop_last(), code)
    }
}

/// The latest event of each key among `events`: one entry per key that
/// occurs, in the order the keys first occur, each the last event of its
/// key.
pub fn latest_per_key(events: &Vec<KeyEvent>) -> (r: Vec<KeyEvent>)
    ensures
        forall|i: int| 0 <= i < r@.len() ==> last_key_event(events@, #[trigger] r@[i].code) == Some(r@[i]),
        forall|i: int, j: int| 0 <= i < j < r@.len() ==> (#[trigger] r@[i]).code != (#[trigger] r@[j]).code,
        forall|k: int| 0 <= k < events@.len() ==> exists|i: int| 0 <= i < r@.len() && (#[trigger] r@[i]).code == (#[trigger] events@[k]).code,
{
    let mut r: Vec<KeyEvent> = Vec::new();
    let mut n: usize = 0;
    while n < events.len()
        invariant
            0 <= n <= events@.len(),
            forall|i: int| 0 <= i < r@.len() ==> last_key_event(events@.take(n as int), #[trigger] r@[i].code) == Some(r@[i]),
            forall|i: int, j: int| 0 <= i < j < r@.len() ==> (#[trigger] r@[i]).code != (#[trigger] r@[j]).code,
            forall|k: int| 0 <= k < n ==> exists|i: int| 0 <= i < r@.len() && (#[trigger] r@[i]).code == (#[trigger] events@[k]).code,
        decreases events@.len() - n,
    {
        let ev = events[n];
        let ghost pre = events@.take(n as int);
        let ghost post = events@.take(n + 1);
        assert(post.drop_last() =~= pre);
        assert(post.last() == ev);
        let ghost old_r = r@;
        let mut j: usize = 0;
        while j < r.len() && r[j].code != ev.code
            invariant
                0 <= j <= r@.len(),
                r@ == old_r,
                forall|i: int| 0 <= i < j ==> (#[trigger] r@[i]).code != ev.code,
            decreases r@.len() - j,
        {
            j += 1;
        }
        if j < r.len() {
            r.set(j, ev);
        } else {
            r.push(ev);
        }
        proof {
            assert forall|i: int| 0 <= i < r@.len() implies last_key_event(post, #[trigger] r@[i].code) == Some(r@[i]) by {
                if r@[i].code != ev.code {
                    assert(r@[i] == old_r[i]);
                }
            }
            assert forall|i: int, jj: int| 0 <= i < jj < r@.len() implies (#[trigger] r@[i]).code != (#[trigger] r@[jj]).code by {
                if i != j as int && jj != j as int {
                    assert(r@[i] == old_r[i] && r@[jj] == old_r[jj]);
                } else if i == j as int {
                    assert(r@[jj] == old_r[jj]);
                    if j < old_r.len() {
                        assert(old_r[j as int].code == ev.code);
                        assert(old_r[j as int].code != old_r[jj].code);
                    }
                } else {
                    assert(r@[i] == old_r[i]);
                    assert(old_r[i].code != ev.code);
                }
            }
            assert forall|k: int| 0 <= k < n + 1 implies exists|i: int| 0 <= i < r@.len() && (#[trigger] r@[i]).code == (#[trigger] events@[k]).code by {
                if k == n as int {
                    assert(r@[j as int].code == events@[k].code);
                } else {
                    let i0 = choose|i: int| 0 <= i < old_r.len() && (#[trigger] old_r[i]).code == events@[k].code;
                    if i0 == j as int {
                        assert(r@[j as int].code == ev.code);
                    } else {
                        assert(r@[i0] == old_r[i0]);
                    }
                }
            }
        }
        n += 1;
    }
    assert(events@.take(events@.len() as int) =~= events@);
    r
}

/// Compares key states polled from the terminal with the ones recorded
/// before, for one targeted screen (or none).
#[derive(Debug, Clone)]
pub struct InputHandler {
    pub last_keyevents: Vec<(KeyCode, ScreenKeyEvent)>,
    pub global_keypresses: bool,
    pub targeted_screen: Option<usize>,
}

impl InputHandler {
    /// Nothing recorded, no screen targeted.
    pub fn new(global_keypresses: bool) -> (h: Self)
        ensures
            h.last_keyevents@.len() == 0,
            h.global_keypresses == global_keypresses,
            h.targeted_screen is None,
    {
        InputHandler { last_keyevents: Vec::new(), global_keypresses, targeted_screen: None }
    }

    /// The event tagged with the targeted screen.
    pub fn key_event_to_screen(&self, event: KeyEvent) -> (s: ScreenKeyEvent)
        ensures
            s == (ScreenKeyEvent { event, screen: self.targeted_screen }),
    {
        ScreenKeyEvent { event, screen: self.targeted_screen }
    }

    fn find_last(&self, code: &KeyCode) -> (r: Option<ScreenKeyEvent>)
        ensures
            r == last_event_of(self.last_keyevents@, *code),
    {
        let mut i = self.last_keyevents.len();
        assert(self.last_keyevents@.take(i as int) =~= self.last_keyevents@);
        while i > 0
            invariant
                0 <= i <= self.last_keyevents@.len(),
                last_event_of(self.last_keyevents@, *code) == last_event_of(self.last_keyevents@.take(i as int), *code),
            decreases i,
        {
            let ghost pre = self.last_keyevents@.take(i as int);
            assert(pre.drop_last() =~= self.last_keyevents@.take(i - 1));
            if self.last_keyevents[i - 1].0 == *code {
                return Some(self.last_keyevents[i - 1].1);
            }
            i -= 1;
        }
        None
    }

    /// The keys whose polled event differs from the recorded one, with
    /// the new event tagged with the targeted screen (see `spec_changes`);
    /// `current` holds the latest polled event of each key.
    pub fn detect_changes(&self, current: &Vec<KeyEvent>) -> (changed: Vec<(KeyCode, ScreenKeyEvent)>)
        ensures
            changed@ == spec_changes(self.last_keyevents@, current@, self.targeted_screen),
    {
        let mut changed: Vec<(KeyCode, ScreenKeyEvent)> = Vec::new();
        let mut i: usize = 0;
        while i < current.len()
            invariant
                0 <= i <= current@.len(),
                changed@ == spec_changes(self.last_keyevents@, current@.take(i as int), self.targeted_screen),
            decreases current@.len() - i,
        {
            assert(current@.take(i + 1).drop_last() =~= current@.take(i as int));
            let ev = current[i];
            match self.find_last(&ev.code) {
                Some(prev) => {
                    if prev.event != ev {
                        changed.push((ev.code, self.key_event_to_screen(ev)));
                    }
                },
                None => {},
            }
            i += 1;
        }
        assert(current@.take(current@.len() as int) =~= current@);
        changed
    }
}

/// What an input event tells subscribers.

#[derive(Debug, Clone, Copy, PartialEq, Eq, Structural)]
pub enum Notice {
    Key(KeyMessage),
    Mouse(MouseMessage),
    Resize(u16, u16),
    Paste,
    Focus(TerminalFocus),
}

/// The event is a press of a key that is held already.
pub open spec fn is_repeat(state: EventManagerState, ev: InputEvent) -> bool {
    match ev {
        InputEvent::Key(ke) => ke.kind == KeyEventKind::Press && lookup(state.pressed_keys@, ke.code) is Some,
        _ => false,
    }
}

/// The notice of an event (`repeating` for a press of a held key): key
/// and mouse events give their messages (if any), focus changes, pastes
/// and resizes give theirs.
pub open spec fn spec_notice(ev: InputEvent, repeating: bool) -> Option<Notice> {
    match ev {
        InputEvent::Key(ke) => match spec_key_message(ke, repeating) {
            Some(m) => Some(Notice::Key(m)),
            None => None,
        },
        InputEvent::Mouse { kind, column, row } => match spec_mouse_message(kind, column, row) {
            Some(m) => Some(Notice::Mouse(m)),
            None => None,
        },
        InputEvent::FocusGained => Some(Notice::Focus(TerminalFocus::HasBeenFocused)),
        InputEvent::FocusLost => Some(Notice::Focus(TerminalFocus::HasBeenUnfocused)),
        InputEvent::Paste => Some(Notice::Paste),
        InputEvent::Resize(w, h) => Some(Notice::Resize(w, h)),
    }
}

/// The subscribers (in subscription order) that get a notice.
pub open spec fn spec_notice_recipients(subs: Seq<(usize, SubscriptionType)>, n: Notice) -> Seq<usize> {
    match n {
        Notice::Key(m) => spec_key_recipients(subs, m),
        Notice::Mouse(m) => spec_mouse_recipients(subs, m),
        Notice::Resize(_, _) => spec_plain_recipients(subs, PlainKind::Resize),
        Notice::Paste => spec_plain_recipients(subs, PlainKind::Paste),
        Notice::Focus(_) => spec_plain_recipients(subs, PlainKind::TerminalWindowFocus),
    }
}

/// Takes an input event: updates the state (see `apply_event`) and tells
/// what to send to which subscribers, in subscription order; `None` when
/// the event tells subscribers nothing.
pub fn route_event(state: &mut EventManagerState, registry: &SubscriptionRegistry, ev: &InputEvent) -> (r: Option<
    (Notice, Vec<usize>),
>)
    requires
        old(state).wf(),
    ensures
        final(state).wf(),
        old(state).spec_applied(*final(state), *ev),
        final(state).targeted_screen == old(state).targeted_screen,
        spec_notice(*ev, is_repeat(*old(state), *ev)) is None ==> r is None,
        spec_notice(*ev, is_repeat(*old(state), *ev)) matches Some(n) ==> (r matches Some(p) && p.0 == n && p.1@
            == spec_notice_recipients(registry.spec_subs(), n)),
{
    let repeating = state.apply_event(ev);
    match ev {
        InputEvent::Key(ke) => match key_message(ke, repeating) {
            Some(m) => Some((Notice::Key(m), registry.key_recipients(&m))),
            None => None,
        },
        InputEvent::Mouse { kind, column, row } => match mouse_message(*kind, *column, *row) {
            Some(m) => Some((Notice::Mouse(m), registry.mouse_recipients(&m))),
            None => None,
        },
        InputEvent::FocusGained => Some(
            (Notice::Focus(TerminalFocus::HasBeenFocused), registry.plain_recipients(PlainKind::TerminalWindowFocus)),
        ),
        InputEvent::FocusLost => Some(
            (Notice::Focus(TerminalFocus::HasBeenUnfocused), registry.plain_recipients(PlainKind::TerminalWindowFocus)),
        ),
        InputEvent::Paste => Some((Notice::Paste, registry.plain_recipients(PlainKind::Paste))),
        InputEvent::Resize(w, h) => Some((Notice::Resize(*w, *h), registry.plain_recipients(PlainKind::Resize))),
    }
}

/// The longest idle wait of a dispatcher, in milliseconds.

pub const MAX_IDLE_SLEEP_MS: u64 = 50;

/// The idle wait after handling a message, in milliseconds.
pub const MIN_IDLE_SLEEP_MS: u64 = 2;

/// One round of a dispatcher's waiting: with nothing to poll it waits 10
/// ms; after a round that handled a message it does not wait and resets
/// the idle wait to 2 ms; after an idle round it waits the idle wait and
/// doubles it, up to 50 ms. Returns the wait and the next idle wait.
pub fn dispatcher_idle_step(has_receivers: bool, handled_any: bool, idle_sleep_ms: u64) -> (r: (Option<u64>, u64))
    requires
        idle_sleep_ms <= u64::MAX / 2,
    ensures
        !has_receivers ==> r == (Some(10u64), idle_sleep_ms),
        has_receivers && handled_any ==> r == (None::<u64>, MIN_IDLE_SLEEP_MS),
        has_receivers && !handled_any ==> r == (
            Some(idle_sleep_ms),
            if 2 * idle_sleep_ms <= MAX_IDLE_SLEEP_MS { (2 * idle_sleep_ms) as u64 } else { MAX_IDLE_SLEEP_MS },
        ),
{
    if !has_receivers {
        return (Some(10), idle_sleep_ms);
    }
    if handled_any {
        (None, MIN_IDLE_SLEEP_MS)
    } else {
        let doubled = idle_sleep_ms * 2;
        (Some(idle_sleep_ms), if doubled <= MAX_IDLE_SLEEP_MS { doubled } else { MAX_IDLE_SLEEP_MS })
    }
}

/// Starting from an idle wait of at most 50 ms, no round waits longer
/// than 50 ms and the idle wait stays at most 50 ms.
pub proof fn dispatcher_wait_bounded(has_receivers: bool, handled_any: bool, idle_sleep_ms: u64)
    requires
        idle_sleep_ms <= MAX_IDLE_SLEEP_MS,
    ensures
        ({
            let next = if !has_receivers {
                idle_sleep_ms
            } else if handled_any {
                MIN_IDLE_SLEEP_MS
            } else if 2 * idle_sleep_ms <= MAX_IDLE_SLEEP_MS {
                (2 * idle_sleep_ms) as u64
            } else {
                MAX_IDLE_SLEEP_MS
            };
            next <= MAX_IDLE_SLEEP_MS
        }),
{
}

} // verus!

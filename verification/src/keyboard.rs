//! The macOS virtual key codes that the editor receives, and what it makes
//! of a key press: text, a key event and the state of the modifier keys.
use vstd::prelude::*;

verus! {

/// The keys of a Mac keyboard that the editor tells apart.
#[derive(Clone, Copy, Debug, PartialEq, Eq, Structural)]
pub enum NSKeys {
    A,
    B,
    C,
    D,
    E,
    F,
    G,
    H,
    I,
    J,
    K,
    L,
    M,
    N,
    O,
    P,
    Q,
    R,
    S,
    T,
    U,
    V,
    W,
    X,
    Y,
    Z,
    Num0,
    Num1,
    Num2,
    Num3,
    Num4,
    Num5,
    Num6,
    Num7,
    Num8,
    Num9,
    Apostrophe,
    BackApostrophe,
    Backslash,
    Backspace,
    CapsLock,
    Comma,
    Command,
    Control,
    Delete,
    Equals,
    Escape,
    FrontSlash,
    LeftBracket,
    Minus,
    Option,
    Period,
    Return,
    RightBracket,
    Semicolon,
    Shift,
    Tab,
    Space,
    Up,
    Left,
    Down,
    Right,
}


/// The keys that the editor hands on as key events.
#[derive(Clone, Copy, Debug, PartialEq, Eq, Structural)]
pub enum EguiKey {
    A,
    B,
    C,
    D,
    E,
    F,
    G,
    H,
    I,
    J,
    K,
    L,
    M,
    N,
    O,
    P,
    Q,
    R,
    S,
    T,
    U,
    V,
    W,
    X,
    Y,
    Z,
    Num0,
    Num1,
    Num2,
    Num3,
    Num4,
    Num5,
    Num6,
    Num7,
    Num8,
    Num9,
    ArrowDown,
    ArrowLeft,
    ArrowRight,
    ArrowUp,
    Escape,
    Tab,
    Backspace,
    Enter,
    Space,
    Delete,
}

/// The macOS virtual key code of each key (`Events.h` of the Carbon
/// framework); the editor receives no code for `Delete`.
pub open spec fn key_code(k: NSKeys) -> Option<u16> {
    match k {
        NSKeys::A => Some(0u16),
        NSKeys::B => Some(11u16),
        NSKeys::C => Some(8u16),
        NSKeys::D => Some(2u16),
        NSKeys::E => Some(14u16),
        NSKeys::F => Some(3u16),
        NSKeys::G => Some(5u16),
        NSKeys::H => Some(4u16),
        NSKeys::I => Some(34u16),
        NSKeys::J => Some(38u16),
        NSKeys::K => Some(40u16),
        NSKeys::L => Some(37u16),
        NSKeys::M => Some(46u16),
        NSKeys::N => Some(45u16),
        NSKeys::O => Some(31u16),
        NSKeys::P => Some(35u16),
        NSKeys::Q => Some(12u16),
        NSKeys::R => Some(15u16),
        NSKeys::S => Some(1u16),
        NSKeys::T => Some(17u16),
        NSKeys::U => Some(32u16),
        NSKeys::V => Some(9u16),
        NSKeys::W => Some(13u16),
        NSKeys::X => Some(7u16),
        NSKeys::Y => Some(16u16),
        NSKeys::Z => Some(6u16),
        NSKeys::Num0 => Some(29u16),
        NSKeys::Num1 => Some(18u16),
        NSKeys::Num2 => Some(19u16),
        NSKeys::Num3 => Some(20u16),
        NSKeys::Num4 => Some(21u16),
        NSKeys::Num5 => Some(23u16),
        NSKeys::Num6 => Some(22u16),
        NSKeys::Num7 => Some(26u16),
        NSKeys::Num8 => Some(28u16),
        NSKeys::Num9 => Some(25u16),
        NSKeys::Apostrophe => Some(39u16),
        NSKeys::BackApostrophe => Some(50u16),
        NSKeys::Backslash => Some(42u16),
        NSKeys::Backspace => Some(51u16),
        NSKeys::CapsLock => Some(57u16),
        NSKeys::Comma => Some(43u16),
        NSKeys::Command => Some(55u16),
        NSKeys::Control => Some(59u16),
        NSKeys::Delete => None,
        NSKeys::Equals => Some(24u16),
        NSKeys::Escape => Some(53u16),
        NSKeys::FrontSlash => Some(44u16),
        NSKeys::LeftBracket => Some(33u16),
        NSKeys::Minus => Some(27u16),
        NSKeys::Option => Some(58u16),
        NSKeys::Period => Some(47u16),
        NSKeys::Return => Some(36u16),
        NSKeys::RightBracket => Some(30u16),
        NSKeys::Semicolon => Some(41u16),
        NSKeys::Shift => Some(56u16),
        NSKeys::Tab => Some(48u16),
        NSKeys::Space => Some(0x31u16),
        NSKeys::Up => Some(126u16),
        NSKeys::Left => Some(123u16),
        NSKeys::Down => Some(125u16),
        NSKeys::Right => Some(124u16),
    }
}

/// The key with code `code`, if any.
pub open spec fn key_of_code(code: u16) -> Option<NSKeys> {
    if exists|k: NSKeys| #[trigger] key_code(k) == Some(code) {
        Some(choose|k: NSKeys| #[trigger] key_code(k) == Some(code))
    } else {
        None
    }
}

/// The keys that type a character.
pub open spec fn is_text_key(k: NSKeys) -> bool {
    match k {
        NSKeys::A |
        NSKeys::B |
        NSKeys::C |
        NSKeys::D |
        NSKeys::E |
        NSKeys::F |
        NSKeys::G |
        NSKeys::H |
        NSKeys::I |
        NSKeys::J |
        NSKeys::K |
        NSKeys::L |
        NSKeys::M |
        NSKeys::N |
        NSKeys::O |
        NSKeys::P |
        NSKeys::Q |
        NSKeys::R |
        NSKeys::S |
        NSKeys::T |
        NSKeys::U |
        NSKeys::V |
        NSKeys::W |
        NSKeys::X |
        NSKeys::Y |
        NSKeys::Z |
        NSKeys::Num0 |
        NSKeys::Num1 |
        NSKeys::Num2 |
        NSKeys::Num3 |
        NSKeys::Num4 |
        NSKeys::Num5 |
        NSKeys::Num6 |
        NSKeys::Num7 |
        NSKeys::Num8 |
        NSKeys::Num9 |
        NSKeys::Apostrophe |
        NSKeys::BackApostrophe |
        NSKeys::Backslash |
        NSKeys::Comma |
        NSKeys::Equals |
        NSKeys::FrontSlash |
        NSKeys::LeftBracket |
        NSKeys::Minus |
        NSKeys::Period |
        NSKeys::RightBracket |
        NSKeys::Semicolon |
        NSKeys::Space => true,
        NSKeys::CapsLock |
        NSKeys::Command |
        NSKeys::Control |
        NSKeys::Delete |
        NSKeys::Escape |
        NSKeys::Option |
        NSKeys::Return |
        NSKeys::Shift |
        NSKeys::Tab |
        NSKeys::Up |
        NSKeys::Left |
        NSKeys::Down |
        NSKeys::Right |
        NSKeys::Backspace => false,
    }
}

/// The key event that each key gives, if any.
pub open spec fn egui_key_of(k: NSKeys) -> Option<EguiKey> {
    match k {
        NSKeys::A => Some(EguiKey::A),
        NSKeys::B => Some(EguiKey::B),
        NSKeys::C => Some(EguiKey::C),
        NSKeys::D => Some(EguiKey::D),
        NSKeys::E => Some(EguiKey::E),
        NSKeys::F => Some(EguiKey::F),
        NSKeys::G => Some(EguiKey::G),
        NSKeys::H => Some(EguiKey::H),
        NSKeys::I => Some(EguiKey::I),
        NSKeys::J => Some(EguiKey::J),
        NSKeys::K => Some(EguiKey::K),
        NSKeys::L => Some(EguiKey::L),
        NSKeys::M => Some(EguiKey::M),
        NSKeys::N => Some(EguiKey::N),
        NSKeys::O => Some(EguiKey::O),
        NSKeys::P => Some(EguiKey::P),
        NSKeys::Q => Some(EguiKey::Q),
        NSKeys::R => Some(EguiKey::R),
        NSKeys::S => Some(EguiKey::S),
        NSKeys::T => Some(EguiKey::T),
        NSKeys::U => Some(EguiKey::U),
        NSKeys::V => Some(EguiKey::V),
        NSKeys::W => Some(EguiKey::W),
        NSKeys::X => Some(EguiKey::X),
        NSKeys::Y => Some(EguiKey::Y),
        NSKeys::Z => Some(EguiKey::Z),
        NSKeys::Num0 => Some(EguiKey::Num0),
        NSKeys::Num1 => Some(EguiKey::Num1),
        NSKeys::Num2 => Some(EguiKey::Num2),
        NSKeys::Num3 => Some(EguiKey::Num3),
        NSKeys::Num4 => Some(EguiKey::Num4),
        NSKeys::Num5 => Some(EguiKey::Num5),
        NSKeys::Num6 => Some(EguiKey::Num6),
        NSKeys::Num7 => Some(EguiKey::Num7),
        NSKeys::Num8 => Some(EguiKey::Num8),
        NSKeys::Num9 => Some(EguiKey::Num9),
        NSKeys::Delete => Some(EguiKey::Delete),
        NSKeys::Escape => Some(EguiKey::Escape),
        NSKeys::Return => Some(EguiKey::Enter),
        NSKeys::Tab => Some(EguiKey::Tab),
        NSKeys::Left => Some(EguiKey::ArrowLeft),
        NSKeys::Right => Some(EguiKey::ArrowRight),
        NSKeys::Up => Some(EguiKey::ArrowUp),
        NSKeys::Down => Some(EguiKey::ArrowDown),
        NSKeys::Space => Some(EguiKey::Space),
        NSKeys::Backspace => Some(EguiKey::Backspace),
        NSKeys::Apostrophe |
        NSKeys::Comma |
        NSKeys::BackApostrophe |
        NSKeys::Backslash |
        NSKeys::CapsLock |
        NSKeys::Command |
        NSKeys::Control |
        NSKeys::Equals |
        NSKeys::FrontSlash |
        NSKeys::LeftBracket |
        NSKeys::Minus |
        NSKeys::Option |
        NSKeys::Period |
        NSKeys::RightBracket |
        NSKeys::Semicolon |
        NSKeys::Shift => None,
    }
}

/// No two keys share a code.
pub proof fn lemma_key_codes_distinct(a: NSKeys, b: NSKeys)
    requires
        key_code(a) is Some,
        key_code(a) == key_code(b),
    ensures
        a == b,
{
}

/// Each key with a code is the key of that code, and a code is the code of
/// the key it names.
pub proof fn lemma_key_code_roundtrip(k: NSKeys, code: u16)
    ensures
        key_code(k) == Some(code) ==> key_of_code(code) == Some(k),
        key_of_code(code) matches Some(j) ==> key_code(j) == Some(code),
{
    if key_code(k) == Some(code) {
        let j = choose|j: NSKeys| #[trigger] key_code(j) == Some(code);
        lemma_key_codes_distinct(j, k);
    }
}

impl NSKeys {
    /// The key with macOS virtual key code `key_code`, if the editor knows
    /// one.
    pub fn from(key_code: u16) -> (r: Option<Self>)
        ensures
            r == key_of_code(key_code),
    {
        let key = match key_code {
            0 => NSKeys::A,
            1 => NSKeys::S,
            2 => NSKeys::D,
            3 => NSKeys::F,
            4 => NSKeys::H,
            5 => NSKeys::G,
            6 => NSKeys::Z,
            7 => NSKeys::X,
            8 => NSKeys::C,
            9 => NSKeys::V,
            11 => NSKeys::B,
            12 => NSKeys::Q,
            13 => NSKeys::W,
            14 => NSKeys::E,
            15 => NSKeys::R,
            16 => NSKeys::Y,
            17 => NSKeys::T,
            18 => NSKeys::Num1,
            19 => NSKeys::Num2,
            20 => NSKeys::Num3,
            21 => NSKeys::Num4,
            22 => NSKeys::Num6,
            23 => NSKeys::Num5,
            24 => NSKeys::Equals,
            25 => NSKeys::Num9,
            26 => NSKeys::Num7,
            27 => NSKeys::Minus,
            28 => NSKeys::Num8,
            29 => NSKeys::Num0,
            30 => NSKeys::RightBracket,
            31 => NSKeys::O,
            32 => NSKeys::U,
            33 => NSKeys::LeftBracket,
            34 => NSKeys::I,
            35 => NSKeys::P,
            36 => NSKeys::Return,
            37 => NSKeys::L,
            38 => NSKeys::J,
            39 => NSKeys::Apostrophe,
            40 => NSKeys::K,
            41 => NSKeys::Semicolon,
            42 => NSKeys::Backslash,
            43 => NSKeys::Comma,
            44 => NSKeys::FrontSlash,
            45 => NSKeys::N,
            46 => NSKeys::M,
            47 => NSKeys::Period,
            48 => NSKeys::Tab,
            50 => NSKeys::BackApostrophe,
            51 => NSKeys::Backspace,
            53 => NSKeys::Escape,
            55 => NSKeys::Command,
            56 => NSKeys::Shift,
            57 => NSKeys::CapsLock,
            58 => NSKeys::Option,
            59 => NSKeys::Control,
            126 => NSKeys::Up,
            125 => NSKeys::Down,
            123 => NSKeys::Left,
            124 => NSKeys::Right,
            0x31 => NSKeys::Space,
            _ => {
                assert forall|k: NSKeys| #[trigger] crate::keyboard::key_code(k) != Some(key_code) by {}
                return None;
            },
        };
        proof {
            lemma_key_code_roundtrip(key, key_code);
        }
        Some(key)
    }

    /// Whether the key types a character.
    pub fn valid_text(&self) -> (r: bool)
        ensures
            r == is_text_key(*self),
    {
        match self {
            NSKeys::A |
            NSKeys::B |
            NSKeys::C |
            NSKeys::D |
            NSKeys::E |
            NSKeys::F |
            NSKeys::G |
            NSKeys::H |
            NSKeys::I |
            NSKeys::J |
            NSKeys::K |
            NSKeys::L |
            NSKeys::M |
            NSKeys::N |
            NSKeys::O |
            NSKeys::P |
            NSKeys::Q |
            NSKeys::R |
            NSKeys::S |
            NSKeys::T |
            NSKeys::U |
            NSKeys::V |
            NSKeys::W |
            NSKeys::X |
            NSKeys::Y |
            NSKeys::Z |
            NSKeys::Num0 |
            NSKeys::Num1 |
            NSKeys::Num2 |
            NSKeys::Num3 |
            NSKeys::Num4 |
            NSKeys::Num5 |
            NSKeys::Num6 |
            NSKeys::Num7 |
            NSKeys::Num8 |
            NSKeys::Num9 |
            NSKeys::Apostrophe |
            NSKeys::BackApostrophe |
            NSKeys::Backslash |
            NSKeys::Comma |
            NSKeys::Equals |
            NSKeys::FrontSlash |
            NSKeys::LeftBracket |
            NSKeys::Minus |
            NSKeys::Period |
            NSKeys::RightBracket |
            NSKeys::Semicolon |
            NSKeys::Space => true,
            NSKeys::CapsLock |
            NSKeys::Command |
            NSKeys::Control |
            NSKeys::Delete |
            NSKeys::Escape |
            NSKeys::Option |
            NSKeys::Return |
            NSKeys::Shift |
            NSKeys::Tab |
            NSKeys::Up |
            NSKeys::Left |
            NSKeys::Down |
            NSKeys::Right |
            NSKeys::Backspace => false,
        }
    }

    /// The key event that the key gives, if any.
    pub fn egui_key(&self) -> (r: Option<EguiKey>)
        ensures
            r == egui_key_of(*self),
    {
        let key = match self {
            NSKeys::A => EguiKey::A,
            NSKeys::B => EguiKey::B,
            NSKeys::C => EguiKey::C,
            NSKeys::D => EguiKey::D,
            NSKeys::E => EguiKey::E,
            NSKeys::F => EguiKey::F,
            NSKeys::G => EguiKey::G,
            NSKeys::H => EguiKey::H,
            NSKeys::I => EguiKey::I,
            NSKeys::J => EguiKey::J,
            NSKeys::K => EguiKey::K,
            NSKeys::L => EguiKey::L,
            NSKeys::M => EguiKey::M,
            NSKeys::N => EguiKey::N,
            NSKeys::O => EguiKey::O,
            NSKeys::P => EguiKey::P,
            NSKeys::Q => EguiKey::Q,
            NSKeys::R => EguiKey::R,
            NSKeys::S => EguiKey::S,
            NSKeys::T => EguiKey::T,
            NSKeys::U => EguiKey::U,
            NSKeys::V => EguiKey::V,
            NSKeys::W => EguiKey::W,
            NSKeys::X => EguiKey::X,
            NSKeys::Y => EguiKey::Y,
            NSKeys::Z => EguiKey::Z,
            NSKeys::Num0 => EguiKey::Num0,
            NSKeys::Num1 => EguiKey::Num1,
            NSKeys::Num2 => EguiKey::Num2,
            NSKeys::Num3 => EguiKey::Num3,
            NSKeys::Num4 => EguiKey::Num4,
            NSKeys::Num5 => EguiKey::Num5,
            NSKeys::Num6 => EguiKey::Num6,
            NSKeys::Num7 => EguiKey::Num7,
            NSKeys::Num8 => EguiKey::Num8,
            NSKeys::Num9 => EguiKey::Num9,
            NSKeys::Delete => EguiKey::Delete,
            NSKeys::Escape => EguiKey::Escape,
            NSKeys::Return => EguiKey::Enter,
            NSKeys::Tab => EguiKey::Tab,
            NSKeys::Left => EguiKey::ArrowLeft,
            NSKeys::Right => EguiKey::ArrowRight,
            NSKeys::Up => EguiKey::ArrowUp,
            NSKeys::Down => EguiKey::ArrowDown,
            NSKeys::Space => EguiKey::Space,
            NSKeys::Backspace => EguiKey::Backspace,
            NSKeys::Apostrophe |
            NSKeys::Comma |
            NSKeys::BackApostrophe |
            NSKeys::Backslash |
            NSKeys::CapsLock |
            NSKeys::Command |
            NSKeys::Control |
            NSKeys::Equals |
            NSKeys::FrontSlash |
            NSKeys::LeftBracket |
            NSKeys::Minus |
            NSKeys::Option |
            NSKeys::Period |
            NSKeys::RightBracket |
            NSKeys::Semicolon |
            NSKeys::Shift => {
                return None;
            },
        };
        Some(key)
    }
}

/// Which modifier keys are down, as the editor's input layer records them.
#[derive(Clone, Copy, Debug, PartialEq, Eq, Structural)]
pub struct Modifiers {
    pub alt: bool,
    pub ctrl: bool,
    pub shift: bool,
    pub mac_cmd: bool,
    pub command: bool,
}

impl Modifiers {
    /// Shift is down and neither alt nor command is.
    pub fn shift_only(&self) -> (r: bool)
        ensures
            r == (self.shift && !(self.alt || self.command)),
    {
        self.shift && !(self.alt || self.command)
    }

    /// No modifier key is down.
    pub fn is_none(&self) -> (r: bool)
        ensures
            r == (!self.alt && !self.ctrl && !self.shift && !self.mac_cmd && !self.command),
    {
        !self.alt && !self.ctrl && !self.shift && !self.mac_cmd && !self.command
    }
}

/// What the editor does with one key press or release.
#[derive(Clone, Copy, Debug, PartialEq, Eq, Structural)]
pub struct KeyEventPlan {
    /// The modifier state to record.
    pub modifiers: Modifiers,
    /// Paste the host's clipboard as text.
    pub paste_clipboard: bool,
    /// Hand on the characters that the key typed as text.
    pub type_text: bool,
    /// The key event to hand on, if any.
    pub key_event: Option<EguiKey>,
}

/// The modifier state that a key event reports: option is alt, and command
/// is both the Mac command key and the platform's command.
pub open spec fn modifiers_of(shift: bool, ctrl: bool, option: bool, command: bool) -> Modifiers {
    Modifiers { alt: option, ctrl, shift, mac_cmd: command, command }
}

/// Decides what a key press or release with macOS key code `key_code` does:
/// command-V while pressed pastes the clipboard; otherwise a pressed key
/// that types a character, with no modifier or shift alone, types the
/// characters it came with; and every key with a key event reports it.
pub fn plan_key_event(
    key_code: u16,
    shift: bool,
    ctrl: bool,
    option: bool,
    command: bool,
    pressed: bool,
) -> (r: KeyEventPlan)
    requires
        key_of_code(key_code) is Some,
    ensures
        r.modifiers == modifiers_of(shift, ctrl, option, command),
        r.paste_clipboard == (pressed && key_of_code(key_code) == Some(NSKeys::V) && command),
        r.type_text == (!r.paste_clipboard && pressed && ((shift && !(option || command)) || (
        !option && !ctrl && !shift && !command)) && is_text_key(key_of_code(key_code)->Some_0)),
        r.key_event == egui_key_of(key_of_code(key_code)->Some_0),
{
    let modifiers = Modifiers { alt: option, ctrl, shift, mac_cmd: command, command };
    let key = match NSKeys::from(key_code) {
        Some(k) => k,
        None => {
            return KeyEventPlan {
                modifiers,
                paste_clipboard: false,
                type_text: false,
                key_event: None,
            };
        },
    };
    let mut clip_event = false;
    if pressed && key == NSKeys::V && modifiers.command {
        clip_event = true;
    }
    let type_text = !clip_event && pressed && (modifiers.shift_only() || modifiers.is_none())
        && key.valid_text();
    KeyEventPlan { modifiers, paste_clipboard: clip_event, type_text, key_event: key.egui_key() }
}

/// The pointer button that a click reports: primary or secondary.
#[derive(Clone, Copy, Debug, PartialEq, Eq, Structural)]
pub enum PointerButton {
    Primary,
    Secondary,
}

/// The button of a mouse click: the primary one where `primary`, otherwise
/// the secondary one.
pub fn pointer_button(primary: bool) -> (r: PointerButton)
    ensures
        r == (if primary {
            PointerButton::Primary
        } else {
            PointerButton::Secondary
        }),
{
    if primary {
        PointerButton::Primary
    } else {
        PointerButton::Secondary
    }
}

} // verus!

use xremap::key_mapper::{
    KeyMapper, ParseError, CONTROL_MASK, KEY_PRESS_MASK, KEY_RELEASE_MASK, LOCK_MASK, MOD1_MASK,
    MOD2_MASK, MOD4_MASK, SHIFT_MASK, XK_BACKSPACE, XK_DELETE, XK_DOWN, XK_END, XK_ESCAPE, XK_F1,
    XK_HOME, XK_LEFT, XK_RETURN, XK_RIGHT, XK_SPACE, XK_TAB, XK_UP,
};
use xremap::server::{ENCODING_STRING, POINTER_ROOT};

#[test]
fn short_control_with_letter() {
    let mapper = KeyMapper::new();
    assert_eq!(mapper.parse_key("C-b"), Ok(('b' as u64, CONTROL_MASK)));
    assert_eq!(mapper.parse_key("C-b"), Ok((0x62, 0x04)));
}

#[test]
fn two_modifiers_and_function_key() {
    let mapper = KeyMapper::new();
    assert_eq!(mapper.parse_key("Ctrl-Shift-F2"), Ok((0xffbf, CONTROL_MASK | SHIFT_MASK)));
    assert_eq!(mapper.parse_key("Ctrl-Shift-F2"), Ok((XK_F1 + 1, 0x05)));
}

#[test]
fn parsing_is_repeatable() {
    let mapper = KeyMapper::new();
    let other = KeyMapper::new();
    for expr in ["C-b", "Ctrl-Shift-F2", "C-", "Super-Alt-Delete", "nonsense", ""] {
        let first = mapper.parse_key(expr);
        assert_eq!(mapper.parse_key(expr), first);
        assert_eq!(other.parse_key(expr), first);
    }
}

#[test]
fn every_modifier_name() {
    let mapper = KeyMapper::new();
    assert_eq!(mapper.parse_key("Ctrl-a"), Ok((0x61, CONTROL_MASK)));
    assert_eq!(mapper.parse_key("C-a"), Ok((0x61, CONTROL_MASK)));
    assert_eq!(mapper.parse_key("Alt-a"), Ok((0x61, MOD1_MASK)));
    assert_eq!(mapper.parse_key("M-a"), Ok((0x61, MOD1_MASK)));
    assert_eq!(mapper.parse_key("Shift-a"), Ok((0x61, SHIFT_MASK)));
    assert_eq!(mapper.parse_key("S-a"), Ok((0x61, SHIFT_MASK)));
    assert_eq!(mapper.parse_key("Super-a"), Ok((0x61, MOD4_MASK)));
    assert_eq!(mapper.parse_key("C-M-S-Super-a"), Ok((0x61, 0x04 | 0x08 | 0x01 | 0x40)));
    assert_eq!(mapper.parse_key("C-Ctrl-C-a"), Ok((0x61, CONTROL_MASK)));
}

#[test]
fn unknown_modifier_is_dropped() {
    let mapper = KeyMapper::new();
    assert_eq!(mapper.parse_key("Hyper-a"), Ok((0x61, 0)));
    assert_eq!(mapper.parse_key("ctrl-a"), Ok((0x61, 0)));
    assert_eq!(mapper.parse_key("Hyper-C-Left"), Ok((XK_LEFT, CONTROL_MASK)));
    assert_eq!(mapper.parse_key("-a"), Ok((0x61, 0)));
    assert_eq!(mapper.parse_key("a-b-c"), Ok((0x63, 0)));
}

#[test]
fn key_without_modifier() {
    let mapper = KeyMapper::new();
    assert_eq!(mapper.parse_key("x"), Ok(('x' as u64, 0)));
    assert_eq!(mapper.parse_key("7"), Ok(('7' as u64, 0)));
    assert_eq!(mapper.parse_key("Z"), Ok(('Z' as u64, 0)));
    assert_eq!(mapper.parse_key("Left"), Ok((XK_LEFT, 0)));
}

#[test]
fn single_character_is_its_own_symbol() {
    let mapper = KeyMapper::new();
    assert_eq!(mapper.parse_key("C-/"), Ok(('/' as u64, CONTROL_MASK)));
    assert_eq!(mapper.parse_key("C- "), Ok((0x20, CONTROL_MASK)));
    assert_eq!(mapper.parse_key("M-\u{e9}"), Ok((0xe9, MOD1_MASK)));
}

#[test]
fn named_keys() {
    let mapper = KeyMapper::new();
    let table: [(&str, u64); 12] = [
        ("Left", 0xff51),
        ("Right", 0xff53),
        ("Up", 0xff52),
        ("Down", 0xff54),
        ("Home", 0xff50),
        ("End", 0xff57),
        ("BackSpace", 0xff08),
        ("Delete", 0xffff),
        ("Return", 0xff0d),
        ("Tab", 0xff09),
        ("Escape", 0xff1b),
        ("space", 0x20),
    ];
    for (name, symbol) in table {
        assert_eq!(mapper.parse_key(name), Ok((symbol, 0)));
        assert_eq!(mapper.parse_key(&format!("S-{}", name)), Ok((symbol, SHIFT_MASK)));
    }
}

#[test]
fn function_keys() {
    let mapper = KeyMapper::new();
    for i in 1u64..=12 {
        assert_eq!(mapper.parse_key(&format!("F{}", i)), Ok((0xffbe + i - 1, 0)));
    }
    assert_eq!(mapper.parse_key("F12"), Ok((0xffc9, 0)));
    assert_eq!(mapper.parse_key("F0"), Err(ParseError::UnknownKey));
    assert_eq!(mapper.parse_key("F13"), Err(ParseError::UnknownKey));
    assert_eq!(mapper.parse_key("F01"), Err(ParseError::UnknownKey));
    assert_eq!(mapper.parse_key("f1"), Err(ParseError::UnknownKey));
}

#[test]
fn empty_key_token_fails() {
    let mapper = KeyMapper::new();
    assert_eq!(mapper.parse_key("C-"), Err(ParseError::EmptyKey));
    assert_eq!(mapper.parse_key(""), Err(ParseError::EmptyKey));
    assert_eq!(mapper.parse_key("-"), Err(ParseError::EmptyKey));
    assert_eq!(mapper.parse_key("C--"), Err(ParseError::EmptyKey));
    assert_eq!(mapper.parse_key("Ctrl-Shift-"), Err(ParseError::EmptyKey));
}

#[test]
fn unknown_key_fails() {
    let mapper = KeyMapper::new();
    assert_eq!(mapper.parse_key("C-Foo"), Err(ParseError::UnknownKey));
    assert_eq!(mapper.parse_key("left"), Err(ParseError::UnknownKey));
    assert_eq!(mapper.parse_key("Space"), Err(ParseError::UnknownKey));
    assert_eq!(mapper.parse_key("ab"), Err(ParseError::UnknownKey));
    assert_eq!(mapper.parse_key("Ctrl"), Err(ParseError::UnknownKey));
    assert_eq!(mapper.parse_key("C-Left "), Err(ParseError::UnknownKey));
}

#[test]
fn modifier_masks_are_those_of_the_protocol() {
    assert_eq!(SHIFT_MASK, x11::xlib::ShiftMask);
    assert_eq!(LOCK_MASK, x11::xlib::LockMask);
    assert_eq!(CONTROL_MASK, x11::xlib::ControlMask);
    assert_eq!(MOD1_MASK, x11::xlib::Mod1Mask);
    assert_eq!(MOD2_MASK, x11::xlib::Mod2Mask);
    assert_eq!(MOD4_MASK, x11::xlib::Mod4Mask);
    assert_eq!(KEY_PRESS_MASK, x11::xlib::KeyPressMask as u64);
    assert_eq!(KEY_RELEASE_MASK, x11::xlib::KeyReleaseMask as u64);
    assert_eq!(ENCODING_STRING, x11::xlib::XA_STRING as u64);
    assert_eq!(POINTER_ROOT, x11::xlib::PointerRoot as u64);
}

#[test]
fn key_symbols_are_those_of_the_protocol() {
    assert_eq!(XK_LEFT, x11::keysym::XK_Left as u64);
    assert_eq!(XK_RIGHT, x11::keysym::XK_Right as u64);
    assert_eq!(XK_UP, x11::keysym::XK_Up as u64);
    assert_eq!(XK_DOWN, x11::keysym::XK_Down as u64);
    assert_eq!(XK_HOME, x11::keysym::XK_Home as u64);
    assert_eq!(XK_END, x11::keysym::XK_End as u64);
    assert_eq!(XK_BACKSPACE, x11::keysym::XK_BackSpace as u64);
    assert_eq!(XK_DELETE, x11::keysym::XK_Delete as u64);
    assert_eq!(XK_RETURN, x11::keysym::XK_Return as u64);
    assert_eq!(XK_TAB, x11::keysym::XK_Tab as u64);
    assert_eq!(XK_ESCAPE, x11::keysym::XK_Escape as u64);
    assert_eq!(XK_SPACE, x11::keysym::XK_space as u64);
    assert_eq!(XK_F1, x11::keysym::XK_F1 as u64);
    assert_eq!(XK_F1 + 11, x11::keysym::XK_F12 as u64);
    assert_eq!('a' as u64, x11::keysym::XK_a as u64);
    assert_eq!('Z' as u64, x11::keysym::XK_Z as u64);
    assert_eq!('0' as u64, x11::keysym::XK_0 as u64);
}

//! Decoding PS/2 keyboard scancodes (scancode set 1, US 104-key layout) and
//! writing the decoded keys to the terminal.

use vstd::prelude::*;

use crate::graphics::framebuffer::Framebuffer;
use crate::graphics::terminal::{after_bytes, text_fits, Terminal};
use pc_keyboard::layouts::Us104Key;
use pc_keyboard::{DecodedKey, HandleControl, KeyCode, KeyEvent, PS2Keyboard, ScancodeSet1};
use vstd::string::StringSliceAdditionalSpecFns;
use vstd::utf8::encode_utf8;

verus! {

#[verifier::external_type_specification]
#[verifier::external_body]
pub struct ExScancodeSet1(ScancodeSet1);

#[verifier::external_type_specification]
#[verifier::external_body]
pub struct ExKeyEvent(KeyEvent);

#[verifier::external_type_specification]
#[verifier::external_body]
pub struct ExKeyCode(KeyCode);

#[verifier::external_type_specification]
#[verifier::external_body]
pub struct ExKeyboardError(pc_keyboard::Error);

/// The state of a PS/2 keyboard: pc-keyboard's `PS2Keyboard` for scancode
/// set 1 and the US 104-key layout, with Ctrl left as it is.
///
/// The state (a partly received scancode sequence, the modifier keys held)
/// stays inside pc-keyboard; no contract speaks of it.
#[verifier::external_body]
pub struct KeyDecoder {
    keyboard: PS2Keyboard<Us104Key, ScancodeSet1>,
}

/// A key as pc-keyboard decodes it: a character, or a key without one.
pub enum KeyPress {
    Unicode(char),
    Raw(KeyCode),
}

/// A decoded key as it is written to the terminal: a character, or the name
/// of a key without one.
pub enum KeyInput {
    Unicode(char),
    Raw(String),
}

/// Calls `pc_keyboard::ScancodeSet1::new`, a decoder for scancode set 1 in
/// its start state. Nothing is stated of the state.
#[verifier::external_body]
fn scancode_set1() -> ScancodeSet1 {
    ScancodeSet1::new()
}

/// Calls `pc_keyboard::PS2Keyboard::new(set, Us104Key, HandleControl::Ignore)`.
/// Nothing is stated of the state.
#[verifier::external_body]
fn ps2_keyboard(set: ScancodeSet1) -> KeyDecoder {
    KeyDecoder { keyboard: PS2Keyboard::new(set, Us104Key, HandleControl::Ignore) }
}

/// Calls `pc_keyboard::PS2Keyboard::add_byte`. What comes back depends on the
/// bytes fed before, which the decoder hides, so nothing is stated of it.
#[verifier::external_body]
fn keyboard_add_byte(decoder: &mut KeyDecoder, byte: u8) -> Result<Option<KeyEvent>, pc_keyboard::Error> {
    decoder.keyboard.add_byte(byte)
}

/// Calls `pc_keyboard::PS2Keyboard::process_keyevent` and tells the decoded
/// key's two kinds apart. What comes back depends on the modifier keys held,
/// which the decoder hides, so nothing is stated of it.
#[verifier::external_body]
fn keyboard_process_keyevent(decoder: &mut KeyDecoder, event: KeyEvent) -> Option<KeyPress> {
    match decoder.keyboard.process_keyevent(event) {
        Some(DecodedKey::Unicode(c)) => Some(KeyPress::Unicode(c)),
        Some(DecodedKey::RawKey(code)) => Some(KeyPress::Raw(code)),
        None => None,
    }
}

/// Formats `code` with pc-keyboard's derived `Debug`, which prints the
/// variant's name. Which name that is, is left unsaid: the contracts here
/// see a `KeyCode` only as a whole.
#[verifier::external_body]
fn key_code_name(code: KeyCode) -> String {
    format!("{:?}", code)
}

/// Calls std's `String::from(char)`, which the documentation describes as a
/// string holding just that character.
#[verifier::external_body]
fn string_of_char(c: char) -> (s: String)
    ensures
        s@ == seq![c],
{
    String::from(c)
}

impl KeyDecoder {
    /// A decoder in its start state: no byte seen, no modifier held.
    pub fn new() -> KeyDecoder {
        ps2_keyboard(scancode_set1())
    }

    /// Feeds one scancode byte to pc-keyboard: when it completes a key event,
    /// the event is decoded against the layout and the modifier keys held;
    /// an unfinished sequence or a decoding error gives `None`.
    pub fn decode_scancode(&mut self, scancode: u8) -> Option<KeyPress> {
        match keyboard_add_byte(self, scancode) {
            Ok(Some(event)) => keyboard_process_keyevent(self, event),
            _ => None,
        }
    }
}

/// `key` is what is written for the decoded key `press`: a character as
/// itself, a key without a character as its name, no key as nothing.
pub open spec fn writes_key(press: Option<KeyPress>, key: Option<KeyInput>) -> bool {
    match press {
        None => key is None,
        Some(KeyPress::Unicode(c)) => key == Some(KeyInput::Unicode(c)),
        Some(KeyPress::Raw(_)) => key matches Some(KeyInput::Raw(_)),
    }
}

/// What is written for a decoded key: the character itself, or for a key
/// without a character, its name.
pub fn key_input_of(press: Option<KeyPress>) -> (key: Option<KeyInput>)
    ensures
        writes_key(press, key),
{
    match press {
        Some(KeyPress::Unicode(c)) => Some(KeyInput::Unicode(c)),
        Some(KeyPress::Raw(code)) => Some(KeyInput::Raw(key_code_name(code))),
        None => None,
    }
}

/// The bytes that a decoded key writes: the UTF-8 encoding of its character
/// or of its name; nothing for no key.
pub open spec fn key_bytes(key: Option<KeyInput>) -> Seq<u8> {
    match key {
        None => Seq::empty(),
        Some(KeyInput::Unicode(c)) => encode_utf8(seq![c]),
        Some(KeyInput::Raw(name)) => encode_utf8(name@),
    }
}

/// Writes a decoded key at the terminal's cursor: a character as itself, a
/// key without a character by its name; no key writes nothing.
pub fn key_input(key: Option<KeyInput>, terminal: &mut Terminal, framebuffer: &mut Framebuffer)
    requires
        old(terminal)@.wf(),
        text_fits(old(terminal)@, old(framebuffer)@, key_bytes(key)),
    ensures
        (final(terminal)@, final(framebuffer)@) == after_bytes(
            old(terminal)@,
            old(framebuffer)@,
            key_bytes(key),
        ),
{
    match key {
        None => {},
        Some(KeyInput::Unicode(c)) => {
            let text = string_of_char(c);
            terminal.put_str(text.as_str(), framebuffer);
        },
        Some(KeyInput::Raw(name)) => {
            terminal.put_str(name.as_str(), framebuffer);
        },
    }
}

} // verus!

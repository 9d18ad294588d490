use kernel::cpu::keyboard::{key_input, key_input_of, KeyDecoder, KeyInput, KeyPress};
use kernel::graphics::framebuffer::Framebuffer;
use kernel::graphics::terminal::Terminal;
use kernel::types::Color;

fn screen() -> Framebuffer {
    Framebuffer::new(vec![Color::black(); 90 * 60], 90, 60, 360)
}

fn name(key: Option<KeyInput>) -> Option<String> {
    match key {
        Some(KeyInput::Unicode(c)) => Some(c.to_string()),
        Some(KeyInput::Raw(s)) => Some(format!("raw:{}", s)),
        None => None,
    }
}

#[test]
fn letter_press_decodes_to_character() {
    let mut decoder = KeyDecoder::new();
    assert_eq!(name(key_input_of(decoder.decode_scancode(0x1E))), Some("a".to_string()));
    // release of the same key
    assert_eq!(name(key_input_of(decoder.decode_scancode(0x9E))), None);
}

#[test]
fn shifted_letter_decodes_to_capital() {
    let mut decoder = KeyDecoder::new();
    assert_eq!(name(key_input_of(decoder.decode_scancode(0x2A))), Some("raw:LShift".to_string()));
    assert_eq!(name(key_input_of(decoder.decode_scancode(0x1E))), Some("A".to_string()));
}

#[test]
fn function_key_decodes_to_its_name() {
    let mut decoder = KeyDecoder::new();
    assert_eq!(name(key_input_of(decoder.decode_scancode(0x3B))), Some("raw:F1".to_string()));
}

#[test]
fn key_input_writes_character_or_name() {
    let mut fb1 = screen();
    let mut t1 = Terminal::new(&fb1);
    key_input(Some(KeyInput::Unicode('q')), &mut t1, &mut fb1);
    key_input(None, &mut t1, &mut fb1);
    key_input(Some(KeyInput::Raw("F1".to_string())), &mut t1, &mut fb1);
    let mut fb2 = screen();
    let mut t2 = Terminal::new(&fb2);
    t2.put_str("qF1", &mut fb2);
    assert_eq!(t1.cursor(), (3, 0));
    assert_eq!(t1.cursor(), t2.cursor());
    assert_eq!(fb1.front_buffer(), fb2.front_buffer());
}

#[test]
fn decoded_key_maps_to_what_is_written() {
    assert!(matches!(key_input_of(Some(KeyPress::Unicode('z'))), Some(KeyInput::Unicode('z'))));
    assert!(key_input_of(None).is_none());
    match key_input_of(Some(KeyPress::Raw(pc_keyboard::KeyCode::Escape))) {
        Some(KeyInput::Raw(name)) => assert_eq!(name, "Escape"),
        _ => panic!("a raw key is written by its name"),
    }
}

#[test]
fn release_of_a_letter_decodes_to_nothing() {
    let mut decoder = KeyDecoder::new();
    assert!(decoder.decode_scancode(0x1E).is_some());
    assert!(decoder.decode_scancode(0x9E).is_none());
}

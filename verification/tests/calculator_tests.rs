use lib::calculator::Calculator;
use lib::display::Framebuffer;

fn screen() -> Framebuffer {
    Framebuffer::new(1024 * 4, 1024, 768, 32, 16, 8, 8, 8, 0, 8, 0)
}

fn typed(keys: &[u8]) -> Vec<u8> {
    let fb = screen();
    let mut c = Calculator::new(&fb);
    c.show();
    for &k in keys {
        assert!(c.accepts_key(if k == b'\n' { b'=' } else { k }));
        c.handle_char(&fb, k);
    }
    c.display_text().to_vec()
}

#[test]
fn calculator_starts_hidden_showing_zero() {
    let fb = screen();
    let c = Calculator::new(&fb);
    assert!(!c.is_visible());
    assert_eq!(c.display_text(), b"0");
    assert_eq!(c.rect(&fb), ((1024 - 320) / 2, (768 - 460) / 2, 320, 460));
}

#[test]
fn calculator_adds() {
    assert_eq!(typed(b"12+3="), b"15".to_vec());
}

#[test]
fn calculator_divides_with_fraction() {
    assert_eq!(typed(b"7/2="), b"3.5".to_vec());
    assert_eq!(typed(b"1/3="), b"0.333333".to_vec());
}

#[test]
fn calculator_multiplies_decimals() {
    assert_eq!(typed(b"1.5*2="), b"3".to_vec());
    assert_eq!(typed(b"0.25*0.5="), b"0.125".to_vec());
}

#[test]
fn calculator_negative_result() {
    assert_eq!(typed(b"3-5="), b"-2".to_vec());
}

#[test]
fn calculator_division_by_zero_keeps_left() {
    assert_eq!(typed(b"5/0="), b"5".to_vec());
}

#[test]
fn calculator_chained_operators() {
    assert_eq!(typed(b"2+3*4="), b"20".to_vec());
}

#[test]
fn calculator_percent_scales_accumulator() {
    assert_eq!(typed(b"8+%"), b"80000".to_vec());
}

#[test]
fn calculator_backspace_undoes_digit() {
    assert_eq!(typed(b"12"), b"12".to_vec());
    assert_eq!(typed(b"12\x08"), b"1".to_vec());
    assert_eq!(typed(b"1.5\x08"), b"1.".to_vec());
}

#[test]
fn calculator_clear_resets() {
    assert_eq!(typed(b"45+6c"), b"0".to_vec());
    assert_eq!(typed(b"45+6C7="), b"7".to_vec());
}

#[test]
fn calculator_digit_after_equals_starts_fresh() {
    assert_eq!(typed(b"2+3=4"), b"4".to_vec());
}

#[test]
fn calculator_decimal_point_shows() {
    assert_eq!(typed(b"."), b"0.".to_vec());
    assert_eq!(typed(b".05"), b"0.05".to_vec());
}

#[test]
fn calculator_ignores_keys_while_hidden() {
    let fb = screen();
    let mut c = Calculator::new(&fb);
    c.handle_char(&fb, b'7');
    assert_eq!(c.display_text(), b"0");
    c.show();
    c.handle_char(&fb, b'7');
    c.hide_window();
    c.handle_char(&fb, b'8');
    assert_eq!(c.display_text(), b"7");
}

#[test]
fn calculator_click_on_keys() {
    let fb = screen();
    let mut c = Calculator::new(&fb);
    c.show();
    let (wx, wy, _, _) = c.rect(&fb);
    // First button row starts below the header, padding and display.
    let bx = wx + 12;
    let by = wy + 42 + 12 + 72 + 12;
    // Row 1, column 0 is '7'.
    assert_eq!(c.key_at(&fb, bx + 5, by + 5), Some(b'C'));
    let bw = (320 - 2 * 12 - 3 * 8) / 4;
    let bh = (460 - 42 - 3 * 12 - 72 - 4 * 8) / 5;
    let x7 = bx + 5;
    let y7 = by + (bh + 8) + 5;
    assert_eq!(c.key_at(&fb, x7, y7), Some(b'7'));
    c.handle_click(&fb, x7, y7);
    assert_eq!(c.display_text(), b"7");
    assert_eq!(c.key_at(&fb, bx + 3 * (bw + 8) + 2, by + 4 * (bh + 8) + 2), Some(b'+'));
    assert_eq!(c.key_at(&fb, wx, wy), None);
}

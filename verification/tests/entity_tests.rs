use hex_invaders::arrow::Arrow;
use hex_invaders::invader::Invader;

#[test]
fn new_invader_is_visible_at_given_position() {
    let inv = Invader::new(1, 42, 0x2A);
    assert_eq!(inv.row, 1);
    assert_eq!(inv.col, 42);
    assert_eq!(inv.value, 0x2A);
    assert!(inv.visible);
}

#[test]
fn invader_advances_one_row() {
    let mut inv = Invader::new(3, 10, 7);
    inv.move_forward();
    assert_eq!(inv.row, 4);
    assert_eq!(inv.col, 10);
    assert_eq!(inv.value, 7);
}

#[test]
fn invisible_invader_stays_put() {
    let mut inv = Invader::new(3, 10, 7);
    inv.visible = false;
    inv.move_forward();
    assert_eq!(inv.row, 3);
}

#[test]
fn new_arrow_starts_at_firing_line() {
    let target = Invader::new(5, 12, 0x2A);
    let arrow = Arrow::new(20, target);
    assert_eq!(arrow.current_row, 17);
    assert!(arrow.visible);
    assert_eq!(arrow.target, target);
}

#[test]
fn arrow_moves_toward_top() {
    let target = Invader::new(5, 12, 0x2A);
    let mut arrow = Arrow::new(20, target);
    arrow.move_forward();
    assert_eq!(arrow.current_row, 16);
}

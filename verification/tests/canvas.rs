use scanfill::canvas::Canvas;

#[test]
fn new_canvas_is_zeroed() {
    let c = Canvas::new(3, 2);
    assert_eq!(c.buffer.len(), 6);
    for x in 0..3 {
        for y in 0..2 {
            assert_eq!(c.pixel_at(x, y), 0);
        }
    }
}

#[test]
fn set_and_read_pixel() {
    let mut c = Canvas::new(4, 4);
    c.set_pixel(2, 3, 0x00FF00FF);
    assert_eq!(c.pixel_at(2, 3), 0x00FF00FF);
    assert_eq!(c.pixel_at(3, 2), 0);
}

#[test]
fn fill_with_paints_every_pixel() {
    let mut c = Canvas::new(5, 5);
    c.fill_with(0xFFFFFFFF);
    for x in 0..5 {
        for y in 0..5 {
            assert_eq!(c.pixel_at(x, y), 0xFFFFFFFF);
        }
    }
}

#[test]
fn to_be_reverses_byte_order() {
    let mut c = Canvas::new(2, 1);
    c.set_pixel(0, 0, 0x00FF00FF);
    c.set_pixel(1, 0, 0x12345678);
    c.to_be();
    assert_eq!(c.pixel_at(0, 0), 0xFF00FF00);
    assert_eq!(c.pixel_at(1, 0), 0x78563412);
}

#[test]
fn to_be_twice_is_identity() {
    let mut c = Canvas::new(1, 1);
    c.set_pixel(0, 0, 0xDEADBEEF);
    c.to_be();
    c.to_be();
    assert_eq!(c.pixel_at(0, 0), 0xDEADBEEF);
}

use rustcanvas::{CanvasError, RustCanvas};

fn canvas(w: usize, h: usize) -> RustCanvas {
    RustCanvas::new(w, h).unwrap()
}

fn painted(c: &RustCanvas, color: u32) -> Vec<(usize, usize)> {
    let mut out = Vec::new();
    for y in 0..c.height() {
        for x in 0..c.width() {
            if c.get_pixel(x, y) == Some(color) {
                out.push((x, y));
            }
        }
    }
    out
}

fn ppm_magic() -> Vec<u8> {
    vec![b'P', b'6', b'\n']
}

#[test]
fn new_rejects_zero_dimensions() {
    assert_eq!(RustCanvas::new(0, 5).err(), Some(CanvasError::InvalidDimension));
    assert_eq!(RustCanvas::new(5, 0).err(), Some(CanvasError::InvalidDimension));
    assert_eq!(RustCanvas::new(0, 0).err(), Some(CanvasError::InvalidDimension));
}

#[test]
fn new_canvas_is_zeroed() {
    let c = canvas(3, 2);
    assert_eq!(c.width(), 3);
    assert_eq!(c.height(), 2);
    for y in 0..2 {
        for x in 0..3 {
            assert_eq!(c.get_pixel(x, y), Some(0));
        }
    }
}

#[test]
fn dimension_helpers() {
    let c = canvas(800, 601);
    assert_eq!(c.max_x(), 799);
    assert_eq!(c.max_y(), 600);
    assert_eq!(c.max_x_i32(), 799);
    assert_eq!(c.max_y_i32(), 600);
    assert_eq!(c.center_x(), 399);
    assert_eq!(c.center_y(), 300);
    assert_eq!(c.center_x_i32(), 399);
    assert_eq!(c.center_y_i32(), 300);
}

#[test]
fn read_after_write_returns_color() {
    let mut c = canvas(4, 3);
    for y in 0..3 {
        for x in 0..4 {
            let color = (y * 4 + x) as u32 + 7;
            assert_eq!(c.set_pixel(x, y, color), Ok(()));
            assert_eq!(c.get_pixel(x, y), Some(color));
        }
    }
    assert_eq!(c.get_pixel(0, 0), Some(7));
    assert_eq!(c.get_pixel(3, 2), Some(18));
}

#[test]
fn write_touches_one_pixel() {
    let mut c = canvas(4, 4);
    c.set_pixel(2, 1, 9).unwrap();
    assert_eq!(painted(&c, 9), vec![(2, 1)]);
    assert_eq!(painted(&c, 0).len(), 15);
}

#[test]
fn write_at_width_is_out_of_bounds() {
    let mut c = canvas(5, 3);
    assert_eq!(c.set_pixel(5, 0, 1), Err(CanvasError::OutOfBounds));
    assert_eq!(c.set_pixel(0, 3, 1), Err(CanvasError::OutOfBounds));
    assert_eq!(painted(&c, 1).len(), 0);
}

#[test]
fn read_out_of_range_is_none() {
    let c = canvas(5, 3);
    assert_eq!(c.get_pixel(5, 0), None);
    assert_eq!(c.get_pixel(0, 3), None);
    assert_eq!(c.get_pixel(usize::MAX, usize::MAX), None);
}

#[test]
fn fill_sets_every_pixel() {
    let mut c = canvas(7, 5);
    c.set_pixel(3, 3, 1).unwrap();
    c.fill(0x12345678);
    for y in 0..5 {
        for x in 0..7 {
            assert_eq!(c.get_pixel(x, y), Some(0x12345678));
        }
    }
}

#[test]
fn ppm_of_two_by_two() {
    let mut c = canvas(2, 2);
    c.set_pixel(0, 0, 0xFF0000).unwrap();
    c.set_pixel(1, 0, 0x00FF00).unwrap();
    c.set_pixel(0, 1, 0x0000FF).unwrap();
    c.set_pixel(1, 1, 0xFFFFFF).unwrap();
    let mut expected = ppm_magic();
    expected.extend_from_slice(b"2 2\n255\n");
    expected.extend_from_slice(&[0xFF, 0, 0, 0, 0xFF, 0, 0, 0, 0xFF, 0xFF, 0xFF, 0xFF]);
    assert_eq!(c.ppm_bytes(), expected);
}

#[test]
fn ppm_drops_alpha_and_writes_multi_digit_sizes() {
    let mut c = canvas(12, 105);
    c.fill(0x80112233);
    let bytes = c.ppm_bytes();
    let mut header = ppm_magic();
    header.extend_from_slice(b"12 105\n255\n");
    assert_eq!(&bytes[..header.len()], &header[..]);
    assert_eq!(bytes.len(), header.len() + 3 * 12 * 105);
    assert_eq!(&bytes[header.len()..header.len() + 3], &[0x11, 0x22, 0x33]);
}

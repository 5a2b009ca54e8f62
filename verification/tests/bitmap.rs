use font_macro::bitmap::Bitmap;

#[test]
fn blank_bitmap_has_32_zero_rows() {
    let bitmap = Bitmap::blank();
    assert_eq!(bitmap.rows.len(), 32);
    assert_eq!(bitmap.rows, [0u32; 32]);
}

#[test]
fn leftmost_column_is_the_most_significant_bit() {
    let mut bitmap = Bitmap::blank();
    bitmap.set_pixel(0, 0);
    assert_eq!(bitmap.rows[0], 0x8000_0000);
    bitmap.set_pixel(31, 0);
    assert_eq!(bitmap.rows[0], 0x8000_0001);
    bitmap.set_pixel(1, 5);
    assert_eq!(bitmap.rows[5], 0x4000_0000);
    bitmap.set_pixel(31, 31);
    assert_eq!(bitmap.rows[31], 0x0000_0001);
    for y in 0..32 {
        if y != 0 && y != 5 && y != 31 {
            assert_eq!(bitmap.rows[y], 0);
        }
    }
}

#[test]
fn set_pixel_keeps_the_other_pixels() {
    let mut bitmap = Bitmap { rows: [0x0F0F_0F0F; 32] };
    bitmap.set_pixel(0, 3);
    for y in 0..32 {
        assert_eq!(bitmap.rows[y], if y == 3 { 0x8F0F_0F0F } else { 0x0F0F_0F0F });
    }
}

#[test]
fn set_pixel_twice_is_set_pixel_once() {
    let mut once = Bitmap::blank();
    once.set_pixel(7, 9);
    let mut twice = once;
    twice.set_pixel(7, 9);
    assert_eq!(once, twice);
    assert_eq!(once.rows[9], 1u32 << 24);
}

#[test]
fn set_pixel_off_the_canvas_changes_nothing() {
    let mut bitmap = Bitmap { rows: [0x1234_5678; 32] };
    let before = bitmap;
    bitmap.set_pixel(32, 0);
    bitmap.set_pixel(0, 32);
    bitmap.set_pixel(usize::MAX, usize::MAX);
    bitmap.set_pixel(64, 1);
    assert_eq!(bitmap, before);
}

#[test]
fn is_set_reads_what_set_pixel_wrote() {
    let mut bitmap = Bitmap::blank();
    bitmap.set_pixel(3, 4);
    bitmap.set_pixel(31, 0);
    for y in 0..32 {
        for x in 0..32 {
            assert_eq!(bitmap.is_set(x, y), (x, y) == (3, 4) || (x, y) == (31, 0));
        }
    }
}

#[test]
fn no_pixel_is_set_off_the_canvas() {
    let bitmap = Bitmap { rows: [u32::MAX; 32] };
    assert!(bitmap.is_set(31, 31));
    assert!(!bitmap.is_set(32, 0));
    assert!(!bitmap.is_set(0, 32));
    assert!(!bitmap.is_set(usize::MAX, 0));
    let mut ink = 0;
    for y in 0..64 {
        for x in 0..64 {
            if bitmap.is_set(x, y) {
                assert!(x < 32 && y < 32);
                ink += 1;
            }
        }
    }
    assert_eq!(ink, 32 * 32);
}

//! The 32 x 32 one-bit canvas that a glyph is drawn on.

use vstd::prelude::*;

verus! {

/// A 32 x 32 one-bit image of one glyph.
///
/// Row 0 is the top scanline and row 31 the bottom one. Within a row, bit 31
/// is the leftmost column and bit 0 the rightmost. A set bit is a pixel that
/// the glyph's ink covers.
#[derive(Clone, Copy, Debug, PartialEq, Eq)]
pub struct Bitmap {
    pub rows: [u32; 32],
}

/// Whether `(x, y)` is the position of a pixel of the canvas.
pub open spec fn on_canvas(x: int, y: int) -> bool {
    0 <= x < 32 && 0 <= y < 32
}

/// The bit that stands for column `x` within a row: bit `31 - x`.
pub open spec fn column_mask(x: int) -> u32
    recommends
        0 <= x < 32,
{
    1u32 << ((31 - x) as u32)
}

impl Bitmap {
    /// Whether the pixel in column `x` of row `y` is set. No pixel lies
    /// outside the canvas.
    pub open spec fn pixel(self, x: int, y: int) -> bool {
        on_canvas(x, y) && self.rows[y] & column_mask(x) != 0
    }

    /// Whether all 32 rows are zero.
    pub open spec fn is_blank(self) -> bool {
        forall|y: int| 0 <= y < 32 ==> self.rows[y] == 0
    }
}

impl View for Bitmap {
    type V = Set<(int, int)>;

    /// A bitmap is the set of its ink pixels, each as `(column, row)`.
    open spec fn view(&self) -> Set<(int, int)> {
        Set::new(|p: (int, int)| self.pixel(p.0, p.1))
    }
}

/// Setting one bit of a row sets that bit and leaves the other 31 as they were.
proof fn lemma_set_bit(row: u32, set: u32, probe: u32)
    requires
        set < 32,
        probe < 32,
    ensures
        ((row | (1u32 << set)) & (1u32 << probe) != 0) == ((row & (1u32 << probe) != 0) || set
            == probe),
{
    assert(((row | (1u32 << set)) & (1u32 << probe) != 0) == ((row & (1u32 << probe) != 0) || set
        == probe)) by (bit_vector)
        requires
            set < 32,
            probe < 32,
    ;
}

/// The bits of a row whose index is below `n`.
spec fn bits_below(n: u32) -> u32 {
    !(0xFFFF_FFFFu32 << n)
}

/// Two rows that agree on each single bit agree on their lowest `n` bits.
proof fn lemma_low_bits_agree(a: u32, b: u32, n: u32)
    requires
        n < 32,
        forall|k: u32| k < 32 ==> (a & (1u32 << k) != 0) == (b & (1u32 << k) != 0),
    ensures
        a & bits_below(n) == b & bits_below(n),
    decreases n,
{
    if n == 0 {
        assert(a & !(0xFFFF_FFFFu32 << 0u32) == b & !(0xFFFF_FFFFu32 << 0u32)) by (bit_vector);
    } else {
        let m: u32 = (n - 1) as u32;
        lemma_low_bits_agree(a, b, m);
        assert((a & (1u32 << m) != 0) == (b & (1u32 << m) != 0));
        assert(a & !(0xFFFF_FFFFu32 << n) == b & !(0xFFFF_FFFFu32 << n)) by (bit_vector)
            requires
                n < 32,
                n == m + 1,
                a & !(0xFFFF_FFFFu32 << m) == b & !(0xFFFF_FFFFu32 << m),
                (a & (1u32 << m) != 0) == (b & (1u32 << m) != 0),
        ;
    }
}

/// Two rows with the same 32 bits are the same row.
proof fn lemma_row_by_bits(a: u32, b: u32)
    requires
        forall|k: u32| k < 32 ==> (a & (1u32 << k) != 0) == (b & (1u32 << k) != 0),
    ensures
        a == b,
{
    lemma_low_bits_agree(a, b, 31);
    assert((a & (1u32 << 31u32) != 0) == (b & (1u32 << 31u32) != 0));
    assert(a == b) by (bit_vector)
        requires
            a & !(0xFFFF_FFFFu32 << 31u32) == b & !(0xFFFF_FFFFu32 << 31u32),
            (a & (1u32 << 31u32) != 0) == (b & (1u32 << 31u32) != 0),
    ;
}

impl Bitmap {
    /// Every ink pixel lies on the canvas: its column and its row are both in
    /// `[0, 32)`. And the bitmap holds nothing else: it has 32 rows, and
    /// each set bit of each row is an ink pixel.
    pub proof fn lemma_ink_on_canvas(self)
        ensures
            forall|x: int, y: int| self@.contains((x, y)) ==> 0 <= x < 32 && 0 <= y < 32,
            self.rows@.len() == 32,
            forall|y: int, bit: u32|
                0 <= y < 32 && bit < 32 && self.rows[y] & (1u32 << bit) != 0 ==> self@.contains(
                    (31 - bit, y),
                ),
    {
        assert forall|y: int, bit: u32|
            0 <= y < 32 && bit < 32 && self.rows[y] & (1u32 << bit) != 0 implies self@.contains(
            (31 - bit, y),
        ) by {
            let x: int = 31 - bit;
            assert(((31 - x) as u32) == bit);
            assert(self.pixel(x, y));
        }
    }

    /// A bitmap is no more than its ink pixels: two bitmaps with the same
    /// pixels have the same 32 rows.
    pub proof fn lemma_pixels_determine_rows(self, other: Bitmap)
        requires
            self@ == other@,
        ensures
            self == other,
    {
        assert forall|y: int| 0 <= y < 32 implies self.rows[y] == other.rows[y] by {
            let a = self.rows[y];
            let b = other.rows[y];
            assert forall|k: u32| k < 32 implies (a & (1u32 << k) != 0) == (b & (1u32 << k)
                != 0) by {
                let x: int = 31 - k;
                assert(((31 - x) as u32) == k);
                assert(self@.contains((x, y)) == self.pixel(x, y));
                assert(other@.contains((x, y)) == other.pixel(x, y));
            }
            lemma_row_by_bits(a, b);
        }
        assert(self.rows =~= other.rows);
    }

    /// A bitmap has no ink exactly when its 32 rows are all zero.
    pub proof fn lemma_blank_iff_no_ink(self)
        ensures
            self.is_blank() <==> self@ == Set::<(int, int)>::empty(),
    {
        if self.is_blank() {
            assert forall|x: int, y: int| !self.pixel(x, y) by {
                if on_canvas(x, y) {
                    let mask = column_mask(x);
                    assert(0u32 & mask == 0) by (bit_vector);
                }
            }
            assert(self@ =~= Set::<(int, int)>::empty());
        }
        if self@ == Set::<(int, int)>::empty() {
            assert forall|y: int| 0 <= y < 32 implies self.rows[y] == 0 by {
                let row = self.rows[y];
                assert forall|k: u32| k < 32 implies (row & (1u32 << k) != 0) == (0u32 & (1u32
                    << k) != 0) by {
                    let x: int = 31 - k;
                    assert(((31 - x) as u32) == k);
                    assert(!self@.contains((x, y)));
                    assert(!self.pixel(x, y));
                    assert(0u32 & (1u32 << k) == 0) by (bit_vector);
                }
                lemma_row_by_bits(row, 0u32);
            }
        }
    }

    /// A bitmap with every bit clear.
    pub fn blank() -> (bitmap: Bitmap)
        ensures
            bitmap.is_blank(),
            bitmap@ == Set::<(int, int)>::empty(),
    {
        let bitmap = Bitmap { rows: [0u32; 32] };
        proof {
            bitmap.lemma_blank_iff_no_ink();
        }
        bitmap
    }

    /// Reads the pixel in column `x` of row `y`; a position off the canvas
    /// holds no ink.
    pub fn is_set(&self, x: usize, y: usize) -> (set: bool)
        ensures
            set == self.pixel(x as int, y as int),
    {
        if x < 32 && y < 32 {
            let shift: u32 = 31 - x as u32;
            self.rows[y] & (1u32 << shift) != 0
        } else {
            false
        }
    }

    /// Sets the pixel in column `x` of row `y` and leaves every other pixel
    /// as it was. A position off the canvas is dropped: nothing changes.
    pub fn set_pixel(&mut self, x: usize, y: usize)
        ensures
            on_canvas(x as int, y as int) ==> final(self)@ == old(self)@.insert(
                (x as int, y as int),
            ),
            !on_canvas(x as int, y as int) ==> *final(self) == *old(self),
    {
        if x < 32 && y < 32 {
            let shift: u32 = 31 - x as u32;
            let row: u32 = self.rows[y];
            self.rows[y] = row | (1u32 << shift);
            proof {
                let before = *old(self);
                let after = *self;
                assert forall|px: int, py: int|
                    after.pixel(px, py) == (before.pixel(px, py) || (px == x && py
                        == y)) by {
                    if on_canvas(px, py) {
                        if py == y {
                            lemma_set_bit(row, shift, (31 - px) as u32);
                        } else {
                            assert(after.rows[py] == before.rows[py]);
                        }
                    }
                }
                assert(after@ =~= before@.insert((x as int, y as int)));
            }
        }
    }
}

} // verus!

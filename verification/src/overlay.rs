use vstd::prelude::*;

verus! {

/// Columns of one glyph.
pub const FONT_WIDTH: usize = 3;

/// Rows of one glyph.
pub const FONT_HEIGHT: usize = 5;

/// How long frames are counted before the displayed rate changes, in nanoseconds.
pub const FPS_UPDATE_INTERVAL_NANOS: u128 = 250_000_000;

/// Nanoseconds per second.
pub const NANOS_PER_SECOND: u128 = 1_000_000_000;

// ---------------------------------------------------------------------------
// Frame rate
// ---------------------------------------------------------------------------
/// The rate of `frames` frames in `nanos` nanoseconds, in frames per second, rounded to the
/// nearest integer with halves rounded up, and capped at `u32::MAX`.
pub open spec fn spec_rounded_rate(frames: int, nanos: int) -> int {
    let rate = (2 * frames * NANOS_PER_SECOND + nanos) / (2 * nanos);
    if rate > u32::MAX {
        u32::MAX as int
    } else {
        rate
    }
}

/// The rounded rate is the integer nearest to the exact rate (a half rounds up), unless
/// the cap applies.
pub proof fn lemma_rounded_rate_is_nearest(frames: int, nanos: int)
    requires
        frames >= 0,
        nanos > 0,
    ensures
        spec_rounded_rate(frames, nanos) >= 0,
        spec_rounded_rate(frames, nanos) < u32::MAX ==> ({
            let r = spec_rounded_rate(frames, nanos);
            &&& -nanos < 2 * (r * nanos - frames * NANOS_PER_SECOND)
            &&& 2 * (r * nanos - frames * NANOS_PER_SECOND) <= nanos
        }),
{
    let total = 2 * frames * NANOS_PER_SECOND + nanos;
    let q = total / (2 * nanos);
    vstd::arithmetic::div_mod::lemma_fundamental_div_mod(total, 2 * nanos);
    assert(0 <= total % (2 * nanos) < 2 * nanos);
    assert(q >= 0) by (nonlinear_arith)
        requires
            total == 2 * nanos * q + total % (2 * nanos),
            0 <= total % (2 * nanos) < 2 * nanos,
            total >= 0,
            nanos > 0,
    ;
    if q < u32::MAX {
        assert(-nanos < 2 * (q * nanos - frames * NANOS_PER_SECOND) && 2 * (q * nanos - frames
            * NANOS_PER_SECOND) <= nanos) by (nonlinear_arith)
            requires
                total == 2 * nanos * q + total % (2 * nanos),
                0 <= total % (2 * nanos) < 2 * nanos,
                total == 2 * frames * NANOS_PER_SECOND + nanos,
        ;
    }
}

/// `frames` frames over `nanos` nanoseconds, as a whole frames-per-second figure.
fn rounded_rate(frames: u32, nanos: u128) -> (rate: u32)
    requires
        nanos > 0,
        nanos <= u64::MAX as u128 + FPS_UPDATE_INTERVAL_NANOS,
    ensures
        rate == spec_rounded_rate(frames as int, nanos as int),
{
    let numerator = 2 * (frames as u128) * NANOS_PER_SECOND + nanos;
    let rate = numerator / (2 * nanos);
    if rate > u32::MAX as u128 {
        u32::MAX
    } else {
        rate as u32
    }
}

/// Counts frames and shows their rate, updated at most once per
/// `FPS_UPDATE_INTERVAL_NANOS`. Times are nanoseconds since a fixed start chosen by the
/// caller.
pub struct FpsCounter {
    last_frame_nanos: Option<u64>,
    accumulated_nanos: u128,
    accumulated_frames: u32,
    displayed_fps: u32,
}

impl FpsCounter {
    /// The time of the last frame, if any frame was counted.
    pub closed spec fn last_frame(&self) -> Option<u64> {
        self.last_frame_nanos
    }

    /// Time counted since the displayed rate last changed.
    pub closed spec fn accumulated_nanos(&self) -> int {
        self.accumulated_nanos as int
    }

    /// Frames counted since the displayed rate last changed.
    pub closed spec fn accumulated_frames(&self) -> int {
        self.accumulated_frames as int
    }

    /// The rate shown.
    pub closed spec fn displayed_fps(&self) -> int {
        self.displayed_fps as int
    }

    /// The counted time is below one update interval.
    #[verifier::type_invariant]
    spec fn counted_time_below_interval(self) -> bool {
        self.accumulated_nanos < FPS_UPDATE_INTERVAL_NANOS
    }

    /// Counting one more frame cannot overflow the frame count.
    pub open spec fn can_tick(&self) -> bool {
        self.last_frame() is Some ==> self.accumulated_frames() < u32::MAX
    }

    /// Whether counting one more frame is safe (the frame count is not full).
    pub fn ready_for_tick(&self) -> (ready: bool)
        ensures
            ready == self.can_tick(),
    {
        self.last_frame_nanos.is_none() || self.accumulated_frames < u32::MAX
    }

    /// A counter that has seen no frame and shows zero.
    pub fn new() -> (counter: Self)
        ensures
            counter.last_frame() is None,
            counter.accumulated_nanos() == 0,
            counter.accumulated_frames() == 0,
            counter.displayed_fps() == 0,
    {
        FpsCounter {
            last_frame_nanos: None,
            accumulated_nanos: 0,
            accumulated_frames: 0,
            displayed_fps: 0,
        }
    }

    /// Counts a frame shown at `now_nanos` and returns the rate to show. The first frame
    /// only starts the clock. Later frames add the time since the previous frame (zero if
    /// the clock went back) and one frame; once a full update interval is counted, the
    /// shown rate becomes the counted frames over the counted time and the count restarts.
    pub fn tick(&mut self, now_nanos: u64) -> (fps: u32)
        requires
            old(self).can_tick(),
        ensures
            final(self).accumulated_nanos() < FPS_UPDATE_INTERVAL_NANOS,
            final(self).last_frame() == Some(now_nanos),
            fps == final(self).displayed_fps(),
            match old(self).last_frame() {
                None => {
                    &&& final(self).accumulated_nanos() == old(self).accumulated_nanos()
                    &&& final(self).accumulated_frames() == old(self).accumulated_frames()
                    &&& final(self).displayed_fps() == old(self).displayed_fps()
                },
                Some(previous) => {
                    let elapsed = if now_nanos >= previous {
                        now_nanos - previous
                    } else {
                        0
                    };
                    let time = old(self).accumulated_nanos() + elapsed;
                    let frames = old(self).accumulated_frames() + 1;
                    if time >= FPS_UPDATE_INTERVAL_NANOS {
                        &&& final(self).displayed_fps() == spec_rounded_rate(frames, time)
                        &&& final(self).accumulated_nanos() == 0
                        &&& final(self).accumulated_frames() == 0
                    } else {
                        &&& final(self).displayed_fps() == old(self).displayed_fps()
                        &&& final(self).accumulated_nanos() == time
                        &&& final(self).accumulated_frames() == frames
                    }
                },
            },
    {
        proof {
            use_type_invariant(&*self);
        }
        let previous = self.last_frame_nanos;
        self.last_frame_nanos = Some(now_nanos);
        let previous_frame = match previous {
            Some(previous_frame) => previous_frame,
            None => {
                return self.displayed_fps;
            },
        };
        let elapsed = now_nanos.saturating_sub(previous_frame);
        let time = self.accumulated_nanos + elapsed as u128;
        let frames = self.accumulated_frames + 1;
        if time >= FPS_UPDATE_INTERVAL_NANOS {
            self.displayed_fps = rounded_rate(frames, time);
            self.accumulated_nanos = 0;
            self.accumulated_frames = 0;
        } else {
            self.accumulated_nanos = time;
            self.accumulated_frames = frames;
        }
        self.displayed_fps
    }
}

// ---------------------------------------------------------------------------
// Glyphs
// ---------------------------------------------------------------------------
/// The rows of the glyph of `ch`, top row first; in each row the leftmost column is the
/// highest of the `FONT_WIDTH` low bits. Only the digits and the letters of "FPS" have one.
pub open spec fn glyph_pattern(ch: char) -> Option<Seq<u8>> {
    if ch == '0' {
        Some(seq![0b111u8, 0b101u8, 0b101u8, 0b101u8, 0b111u8])
    } else if ch == '1' {
        Some(seq![0b010u8, 0b110u8, 0b010u8, 0b010u8, 0b111u8])
    } else if ch == '2' {
        Some(seq![0b111u8, 0b001u8, 0b111u8, 0b100u8, 0b111u8])
    } else if ch == '3' {
        Some(seq![0b111u8, 0b001u8, 0b111u8, 0b001u8, 0b111u8])
    } else if ch == '4' {
        Some(seq![0b101u8, 0b101u8, 0b111u8, 0b001u8, 0b001u8])
    } else if ch == '5' {
        Some(seq![0b111u8, 0b100u8, 0b111u8, 0b001u8, 0b111u8])
    } else if ch == '6' {
        Some(seq![0b111u8, 0b100u8, 0b111u8, 0b101u8, 0b111u8])
    } else if ch == '7' {
        Some(seq![0b111u8, 0b001u8, 0b001u8, 0b001u8, 0b001u8])
    } else if ch == '8' {
        Some(seq![0b111u8, 0b101u8, 0b111u8, 0b101u8, 0b111u8])
    } else if ch == '9' {
        Some(seq![0b111u8, 0b101u8, 0b111u8, 0b001u8, 0b111u8])
    } else if ch == 'F' {
        Some(seq![0b111u8, 0b100u8, 0b111u8, 0b100u8, 0b100u8])
    } else if ch == 'P' {
        Some(seq![0b110u8, 0b101u8, 0b110u8, 0b100u8, 0b100u8])
    } else if ch == 'S' {
        Some(seq![0b111u8, 0b100u8, 0b111u8, 0b001u8, 0b111u8])
    } else {
        None
    }
}

/// The glyph rows read as one number, top row in the lowest three bits.
spec fn glyph_number(rows: Seq<u8>) -> int {
    rows[0] + 8 * rows[1] + 64 * rows[2] + 512 * rows[3] + 4096 * rows[4]
}

/// The font draws the digits, 'F', 'P' and 'S' and nothing else, each as `FONT_HEIGHT` rows
/// of `FONT_WIDTH` bits. Two characters share a glyph only if they are the same character,
/// or are '5' and 'S', which the font draws alike: so distinct digits always look distinct
/// and a shown rate reads back unambiguously.
pub proof fn lemma_glyphs_are_distinct(a: char, b: char)
    ensures
        glyph_pattern(a) is Some <==> ('0' <= a <= '9' || a == 'F' || a == 'P' || a == 'S'),
        glyph_pattern(a) matches Some(rows) ==> rows.len() == FONT_HEIGHT && forall|i: int|
            0 <= i < rows.len() ==> #[trigger] rows[i] < 8,
        glyph_pattern(a) is Some && glyph_pattern(a) == glyph_pattern(b) ==> a == b || (a == '5'
            && b == 'S') || (a == 'S' && b == '5'),
{
    if glyph_pattern(a) is Some && glyph_pattern(a) == glyph_pattern(b) {
        assert(glyph_number(glyph_pattern(a).unwrap()) == glyph_number(glyph_pattern(b).unwrap()));
    }
}

/// The rows of the glyph of `ch`, or `None` for a character without one.
pub fn glyph_rows(ch: char) -> (rows: Option<[u8; 5]>)
    ensures
        match rows {
            Some(r) => glyph_pattern(ch) == Some(r@),
            None => glyph_pattern(ch) is None,
        },
{
    let rows = match ch {
        '0' => Some([0b111, 0b101, 0b101, 0b101, 0b111]),
        '1' => Some([0b010, 0b110, 0b010, 0b010, 0b111]),
        '2' => Some([0b111, 0b001, 0b111, 0b100, 0b111]),
        '3' => Some([0b111, 0b001, 0b111, 0b001, 0b111]),
        '4' => Some([0b101, 0b101, 0b111, 0b001, 0b001]),
        '5' => Some([0b111, 0b100, 0b111, 0b001, 0b111]),
        '6' => Some([0b111, 0b100, 0b111, 0b101, 0b111]),
        '7' => Some([0b111, 0b001, 0b001, 0b001, 0b001]),
        '8' => Some([0b111, 0b101, 0b111, 0b101, 0b111]),
        '9' => Some([0b111, 0b101, 0b111, 0b001, 0b111]),
        'F' => Some([0b111, 0b100, 0b111, 0b100, 0b100]),
        'P' => Some([0b110, 0b101, 0b110, 0b100, 0b100]),
        'S' => Some([0b111, 0b100, 0b111, 0b001, 0b111]),
        _ => None,
    };
    proof {
        if let Some(r) = rows {
            assert(r@ =~= glyph_pattern(ch).unwrap());
        }
    }
    rows
}

/// One lit cell of the overlay text: the character's place in the text, and the row and
/// column of the cell inside its glyph.
#[derive(Clone, Copy, Debug, PartialEq, Eq)]
pub struct GlyphCell {
    pub slot: usize,
    pub row: usize,
    pub column: usize,
}

/// Column `column` of a glyph row is lit.
pub open spec fn cell_lit(bits: u8, column: int) -> bool {
    bits & (1u8 << ((FONT_WIDTH - column - 1) as u8)) != 0
}

/// The lit cells among the first `columns` columns of row `row` of the glyph in `slot`.
pub open spec fn row_cells(slot: int, row: int, bits: u8, columns: int) -> Seq<GlyphCell>
    decreases columns,
{
    if columns <= 0 {
        Seq::empty()
    } else {
        row_cells(slot, row, bits, columns - 1) + if cell_lit(bits, columns - 1) {
            seq![GlyphCell { slot: slot as usize, row: row as usize, column: (columns - 1) as usize }]
        } else {
            Seq::empty()
        }
    }
}

/// The lit cells of the first `count` rows of a glyph in `slot`, row by row.
pub open spec fn rows_cells(slot: int, rows: Seq<u8>, count: int) -> Seq<GlyphCell>
    decreases count,
{
    if count <= 0 {
        Seq::empty()
    } else {
        rows_cells(slot, rows, count - 1) + row_cells(
            slot,
            count - 1,
            rows[count - 1],
            FONT_WIDTH as int,
        )
    }
}

/// The lit cells of character `ch` in `slot`: none for a space or a character without a
/// glyph.
pub open spec fn char_cells(slot: int, ch: char) -> Seq<GlyphCell> {
    if ch == ' ' {
        Seq::empty()
    } else {
        match glyph_pattern(ch) {
            Some(rows) => rows_cells(slot, rows, FONT_HEIGHT as int),
            None => Seq::empty(),
        }
    }
}

/// The lit cells of a text, character by character, then row by row, then column by
/// column.
pub open spec fn text_cells(text: Seq<char>) -> Seq<GlyphCell>
    decreases text.len(),
{
    if text.len() == 0 {
        Seq::empty()
    } else {
        text_cells(text.drop_last()) + char_cells(text.len() - 1, text.last())
    }
}

/// The lit cells of the overlay text `text`. Every character, drawn or not, takes one glyph
/// advance, so a cell's place on screen follows from its slot, row and column.
pub fn text_glyph_cells(text: &str) -> (cells: Vec<GlyphCell>)
    ensures
        cells@ == text_cells(text@),
{
    let length = text.unicode_len();
    let mut cells: Vec<GlyphCell> = Vec::new();
    let mut slot: usize = 0;
    while slot < length
        invariant
            slot <= length,
            length == text@.len(),
            cells@ == text_cells(text@.take(slot as int)),
        decreases length - slot,
    {
        let ch = text.get_char(slot);
        let ghost base = cells@;
        assert(text@.take(slot + 1).drop_last() =~= text@.take(slot as int));
        if ch != ' ' {
            match glyph_rows(ch) {
                Some(rows) => {
                    let mut row: usize = 0;
                    while row < FONT_HEIGHT
                        invariant
                            row <= FONT_HEIGHT,
                            rows@.len() == FONT_HEIGHT,
                            cells@ == base + rows_cells(slot as int, rows@, row as int),
                        decreases FONT_HEIGHT - row,
                    {
                        let bits = rows[row];
                        let ghost row_base = cells@;
                        let mut column: usize = 0;
                        while column < FONT_WIDTH
                            invariant
                                column <= FONT_WIDTH,
                                row < FONT_HEIGHT,
                                cells@ == row_base + row_cells(
                                    slot as int,
                                    row as int,
                                    bits,
                                    column as int,
                                ),
                            decreases FONT_WIDTH - column,
                        {
                            let shift = (FONT_WIDTH - column - 1) as u8;
                            if bits & (1u8 << shift) != 0 {
                                cells.push(GlyphCell { slot, row, column });
                            }
                            assert(cells@ =~= row_base + row_cells(
                                slot as int,
                                row as int,
                                bits,
                                column + 1,
                            ));
                            column = column + 1;
                        }
                        assert(cells@ =~= base + rows_cells(slot as int, rows@, row + 1));
                        row = row + 1;
                    }
                },
                None => {},
            }
        }
        assert(cells@ =~= text_cells(text@.take(slot + 1)));
        slot = slot + 1;
    }
    assert(text@.take(length as int) =~= text@);
    cells
}

} // verus!

use crate::buffer::{is_grid, Buffer, BUFFER_HEIGHT, BUFFER_WIDTH};
use crate::color::{ColorCode, ScreenChar};
use vstd::prelude::*;
use vstd::string::*;

verus! {

/// Stored in place of any byte that the display cannot show.
pub const PLACEHOLDER: u8 = 0xfe;

pub const NEWLINE: u8 = 0x0a;

pub open spec fn is_printable(b: u8) -> bool {
    0x20 <= b <= 0x7e
}

/// The byte that reaches the display for an input byte.
pub open spec fn sanitize(b: u8) -> u8 {
    if is_printable(b) || b == NEWLINE {
        b
    } else {
        PLACEHOLDER
    }
}

pub open spec fn sanitized(bytes: Seq<u8>) -> Seq<u8> {
    bytes.map_values(|b: u8| sanitize(b))
}

pub open spec fn blank_cells(code: ColorCode) -> Seq<ScreenChar> {
    Seq::new(BUFFER_WIDTH as nat, |c: int| ScreenChar { ascii_character: 0x20, color_code: code })
}

/// Every row moves up by one, the top row is dropped and the bottom row is blank.
pub open spec fn scrolled(g: Seq<Seq<ScreenChar>>, code: ColorCode) -> Seq<Seq<ScreenChar>> {
    Seq::new(
        BUFFER_HEIGHT as nat,
        |r: int|
            if r < BUFFER_HEIGHT - 1 {
                g[r + 1]
            } else {
                blank_cells(code)
            },
    )
}

/// Grid and column after one byte goes to a writer with grid `g` at column `col`:
/// a newline scrolls; any other byte first scrolls when the bottom row is full,
/// then lands at the column, which moves on by one.
pub open spec fn after_byte(g: Seq<Seq<ScreenChar>>, col: nat, code: ColorCode, b: u8) -> (
    Seq<Seq<ScreenChar>>,
    nat,
) {
    if b == NEWLINE {
        (scrolled(g, code), 0)
    } else {
        let g1 = if col >= BUFFER_WIDTH {
            scrolled(g, code)
        } else {
            g
        };
        let c1: nat = if col >= BUFFER_WIDTH {
            0
        } else {
            col
        };
        let bottom = BUFFER_HEIGHT - 1;
        (
            g1.update(
                bottom,
                g1[bottom].update(c1 as int, ScreenChar { ascii_character: b, color_code: code }),
            ),
            c1 + 1,
        )
    }
}

/// Grid and column after the bytes go to the writer one after the other.
pub open spec fn after_bytes(
    g: Seq<Seq<ScreenChar>>,
    col: nat,
    code: ColorCode,
    bytes: Seq<u8>,
) -> (Seq<Seq<ScreenChar>>, nat)
    decreases bytes.len(),
{
    if bytes.len() == 0 {
        (g, col)
    } else {
        let prev = after_bytes(g, col, code, bytes.drop_last());
        after_byte(prev.0, prev.1, code, bytes.last())
    }
}

/// Grid and column after a string is written: each byte sanitized, then written.
pub open spec fn after_text(g: Seq<Seq<ScreenChar>>, col: nat, code: ColorCode, s: Seq<u8>) -> (
    Seq<Seq<ScreenChar>>,
    nat,
) {
    after_bytes(g, col, code, sanitized(s))
}

/// A line-oriented writer that always writes to the bottom row of a display.
pub struct Writer {
    color_code: ColorCode,
    column_position: usize,
    buffer: &'static mut Buffer,
}

impl Writer {
    pub closed spec fn column(&self) -> nat {
        self.column_position as nat
    }

    pub closed spec fn code(&self) -> ColorCode {
        self.color_code
    }

    pub closed spec fn grid(&self) -> Seq<Seq<ScreenChar>> {
        (*self.buffer)@
    }

    pub open spec fn wf(&self) -> bool {
        &&& self.column() <= BUFFER_WIDTH
        &&& is_grid(self.grid())
    }

    /// A writer at column 0 over `buffer`, writing with attribute `color_code`.
    pub fn new(color_code: ColorCode, buffer: &'static mut Buffer) -> (r: Writer)
        ensures
            r.wf(),
            r.column() == 0,
            r.code() == color_code,
            r.grid() == old(buffer)@,
    {
        proof {
            buffer.lemma_shape();
        }
        Writer { color_code, column_position: 0, buffer }
    }

    pub fn column_position(&self) -> (r: usize)
        ensures
            r == self.column(),
    {
        self.column_position
    }

    pub fn color_code(&self) -> (r: ColorCode)
        ensures
            r == self.code(),
    {
        self.color_code
    }

    /// The cell at `(row, col)` of the display.
    pub fn cell(&self, row: usize, col: usize) -> (r: ScreenChar)
        requires
            row < BUFFER_HEIGHT,
            col < BUFFER_WIDTH,
        ensures
            r == self.grid()[row as int][col as int],
    {
        self.buffer.read(row, col)
    }

    /// Writes one byte as it is; see `after_byte`.
    pub fn write_byte(&mut self, byte: u8)
        requires
            old(self).wf(),
        ensures
            final(self).wf(),
            final(self).code() == old(self).code(),
            (final(self).grid(), final(self).column()) == after_byte(
                old(self).grid(),
                old(self).column(),
                old(self).code(),
                byte,
            ),
    {
        if byte == NEWLINE {
            self.new_line();
        } else {
            if self.column_position >= BUFFER_WIDTH {
                self.new_line();
            }
            let row = BUFFER_HEIGHT - 1;
            let col = self.column_position;
            let color_code = self.color_code;
            self.buffer.write(row, col, ScreenChar { ascii_character: byte, color_code });
            self.column_position = self.column_position + 1;
        }
    }

    /// Writes a string byte by byte, each byte outside the printable range
    /// other than a newline replaced by `PLACEHOLDER`; see `after_text`.
    pub fn write_string(&mut self, s: &str)
        requires
            old(self).wf(),
        ensures
            final(self).wf(),
            final(self).code() == old(self).code(),
            (final(self).grid(), final(self).column()) == after_text(
                old(self).grid(),
                old(self).column(),
                old(self).code(),
                s.spec_bytes(),
            ),
    {
        let bytes = s.as_bytes();
        let ghost g0 = self.grid();
        let ghost c0 = self.column();
        let mut i: usize = 0;
        while i < bytes.len()
            invariant
                bytes@ == s.spec_bytes(),
                0 <= i <= bytes@.len(),
                self.wf(),
                self.code() == old(self).code(),
                g0 == old(self).grid(),
                is_grid(g0),
                c0 == old(self).column(),
                (self.grid(), self.column()) == after_bytes(
                    g0,
                    c0,
                    self.code(),
                    sanitized(bytes@.subrange(0, i as int)),
                ),
            decreases bytes@.len() - i,
        {
            let byte = bytes[i];
            let out: u8 = if (0x20 <= byte && byte <= 0x7e) || byte == NEWLINE {
                byte
            } else {
                PLACEHOLDER
            };
            self.write_byte(out);
            proof {
                let next = sanitized(bytes@.subrange(0, i + 1));
                assert(next.drop_last() =~= sanitized(bytes@.subrange(0, i as int)));
                assert(next.last() == out);
            }
            i = i + 1;
        }
        proof {
            assert(bytes@.subrange(0, i as int) =~= bytes@);
        }
    }

    /// Moves every row up by one and blanks the bottom row; see `scrolled`.
    fn new_line(&mut self)
        requires
            old(self).wf(),
        ensures
            final(self).wf(),
            final(self).code() == old(self).code(),
            final(self).column() == 0,
            final(self).grid() == scrolled(old(self).grid(), old(self).code()),
    {
        let ghost g0 = self.grid();
        let mut row: usize = 1;
        while row < BUFFER_HEIGHT
            invariant
                1 <= row <= BUFFER_HEIGHT,
                g0 == old(self).grid(),
                is_grid(g0),
                self.code() == old(self).code(),
                self.column() == old(self).column(),
                is_grid(self.grid()),
                forall|r: int| 0 <= r < row - 1 ==> #[trigger] self.grid()[r] == g0[r + 1],
                forall|r: int| row - 1 <= r < BUFFER_HEIGHT ==> #[trigger] self.grid()[r] == g0[r],
            decreases BUFFER_HEIGHT - row,
        {
            let mut col: usize = 0;
            while col < BUFFER_WIDTH
                invariant
                    1 <= row < BUFFER_HEIGHT,
                    0 <= col <= BUFFER_WIDTH,
                    g0 == old(self).grid(),
                    is_grid(g0),
                    self.code() == old(self).code(),
                    self.column() == old(self).column(),
                    is_grid(self.grid()),
                    forall|r: int| 0 <= r < row - 1 ==> #[trigger] self.grid()[r] == g0[r + 1],
                    forall|r: int| row <= r < BUFFER_HEIGHT ==> #[trigger] self.grid()[r] == g0[r],
                    forall|c: int|
                        0 <= c < col ==> #[trigger] self.grid()[row - 1][c] == g0[row as int][c],
                    forall|c: int|
                        col <= c < BUFFER_WIDTH ==> #[trigger] self.grid()[row - 1][c] == g0[row
                            - 1][c],
                decreases BUFFER_WIDTH - col,
            {
                let character = self.buffer.read(row, col);
                self.buffer.write(row - 1, col, character);
                col = col + 1;
            }
            assert(self.grid()[row - 1] =~= g0[row as int]);
            row = row + 1;
        }
        self.clear_row(BUFFER_HEIGHT - 1);
        self.column_position = 0;
        assert(self.grid() =~= scrolled(g0, self.code()));
    }

    /// Sets every cell of `row` to a space with the current attribute.
    fn clear_row(&mut self, row: usize)
        requires
            row < BUFFER_HEIGHT,
            is_grid(old(self).grid()),
        ensures
            is_grid(final(self).grid()),
            final(self).code() == old(self).code(),
            final(self).column() == old(self).column(),
            final(self).grid() == old(self).grid().update(row as int, blank_cells(old(self).code())),
    {
        let blank = ScreenChar { ascii_character: 0x20, color_code: self.color_code };
        let ghost g0 = self.grid();
        let mut col: usize = 0;
        while col < BUFFER_WIDTH
            invariant
                row < BUFFER_HEIGHT,
                0 <= col <= BUFFER_WIDTH,
                g0 == old(self).grid(),
                is_grid(g0),
                blank == (ScreenChar { ascii_character: 0x20, color_code: old(self).code() }),
                self.code() == old(self).code(),
                self.column() == old(self).column(),
                is_grid(self.grid()),
                forall|r: int| 0 <= r < BUFFER_HEIGHT && r != row ==> #[trigger] self.grid()[r] == g0[r],
                forall|c: int| 0 <= c < col ==> #[trigger] self.grid()[row as int][c] == blank,
                forall|c: int|
                    col <= c < BUFFER_WIDTH ==> #[trigger] self.grid()[row as int][c] == g0[row as int][c],
            decreases BUFFER_WIDTH - col,
        {
            self.buffer.write(row, col, blank);
            col = col + 1;
        }
        assert(self.grid()[row as int] =~= blank_cells(self.code()));
        assert(self.grid() =~= g0.update(row as int, blank_cells(self.code())));
    }
}

/// Any byte outside `0x20..=0x7e` other than a newline is stored as
/// `PLACEHOLDER` when written, and so never as itself unless it is that byte.
pub proof fn lemma_unprintable_stored_as_placeholder(
    g: Seq<Seq<ScreenChar>>,
    col: nat,
    code: ColorCode,
    b: u8,
)
    requires
        is_grid(g),
        col <= BUFFER_WIDTH,
        !is_printable(b),
        b != NEWLINE,
    ensures
        ({
            let (g2, c2) = after_text(g, col, code, seq![b]);
            &&& 1 <= c2 <= BUFFER_WIDTH
            &&& g2[BUFFER_HEIGHT - 1][c2 - 1] == (ScreenChar {
                ascii_character: PLACEHOLDER,
                color_code: code,
            })
            &&& b != PLACEHOLDER ==> g2[BUFFER_HEIGHT - 1][c2 - 1].ascii_character != b
        }),
{
    assert(sanitized(seq![b]) =~= seq![PLACEHOLDER]);
    lemma_single_byte(g, col, code, PLACEHOLDER);
    lemma_scroll_keeps_row_order(g, code);
}

/// A byte that a cell may hold: printable, or the placeholder.
pub open spec fn is_displayable(b: u8) -> bool {
    is_printable(b) || b == PLACEHOLDER
}

pub open spec fn cells_displayable(g: Seq<Seq<ScreenChar>>) -> bool {
    forall|r: int, c: int|
        0 <= r < BUFFER_HEIGHT && 0 <= c < BUFFER_WIDTH ==> is_displayable(
            #[trigger] g[r][c].ascii_character,
        )
}

proof fn lemma_bytes_keep_cells_displayable(
    g: Seq<Seq<ScreenChar>>,
    col: nat,
    code: ColorCode,
    bytes: Seq<u8>,
)
    requires
        is_grid(g),
        col <= BUFFER_WIDTH,
        cells_displayable(g),
        forall|i: int| 0 <= i < bytes.len() ==> #[trigger] bytes[i] == NEWLINE || is_displayable(bytes[i]),
    ensures
        is_grid(after_bytes(g, col, code, bytes).0),
        after_bytes(g, col, code, bytes).1 <= BUFFER_WIDTH,
        cells_displayable(after_bytes(g, col, code, bytes).0),
    decreases bytes.len(),
{
    if bytes.len() > 0 {
        let rest = bytes.drop_last();
        lemma_bytes_keep_cells_displayable(g, col, code, rest);
        let prev = after_bytes(g, col, code, rest);
        assert(bytes.last() == bytes[bytes.len() - 1]);
        lemma_scroll_keeps_row_order(prev.0, code);
    }
}

/// Writing text keeps the display free of bytes it cannot show: when every
/// cell holds a printable byte or the placeholder, so does every cell after.
pub proof fn lemma_text_keeps_cells_displayable(
    g: Seq<Seq<ScreenChar>>,
    col: nat,
    code: ColorCode,
    s: Seq<u8>,
)
    requires
        is_grid(g),
        col <= BUFFER_WIDTH,
        cells_displayable(g),
    ensures
        is_grid(after_text(g, col, code, s).0),
        cells_displayable(after_text(g, col, code, s).0),
{
    lemma_bytes_keep_cells_displayable(g, col, code, sanitized(s));
}

/// A newline scrolls, whatever the column, including column 0.
pub proof fn lemma_newline_always_scrolls(g: Seq<Seq<ScreenChar>>, col: nat, code: ColorCode)
    ensures
        after_byte(g, col, code, NEWLINE) == (scrolled(g, code), 0nat),
        after_text(g, col, code, seq![NEWLINE]) == (scrolled(g, code), 0nat),
{
    assert(sanitized(seq![NEWLINE]) =~= seq![NEWLINE]);
    lemma_single_byte(g, col, code, NEWLINE);
}

proof fn lemma_single_byte(g: Seq<Seq<ScreenChar>>, col: nat, code: ColorCode, b: u8)
    ensures
        after_bytes(g, col, code, seq![b]) == after_byte(g, col, code, b),
{
    assert(seq![b].drop_last() =~= Seq::<u8>::empty());
    assert(after_bytes(g, col, code, Seq::<u8>::empty()) == (g, col));
    assert(seq![b].last() == b);
}

/// Scrolling keeps the order of rows: each row below the top one is found,
/// cell for cell, one row higher afterwards.
pub proof fn lemma_scroll_keeps_row_order(g: Seq<Seq<ScreenChar>>, code: ColorCode)
    requires
        is_grid(g),
    ensures
        is_grid(scrolled(g, code)),
        forall|r: int, c: int|
            1 <= r < BUFFER_HEIGHT && 0 <= c < BUFFER_WIDTH ==> #[trigger] scrolled(g, code)[r
                - 1][c] == g[r][c],
{
}

/// The bottom row after the first `k` of `bytes` went out from column 0.
pub open spec fn partly_filled(g: Seq<Seq<ScreenChar>>, code: ColorCode, bytes: Seq<u8>, k: nat) -> Seq<Seq<ScreenChar>> {
    g.update(
        BUFFER_HEIGHT - 1,
        Seq::new(
            BUFFER_WIDTH as nat,
            |c: int|
                if c < k {
                    ScreenChar { ascii_character: bytes[c], color_code: code }
                } else {
                    g[BUFFER_HEIGHT - 1][c]
                },
        ),
    )
}

proof fn lemma_fill_bottom_row(g: Seq<Seq<ScreenChar>>, code: ColorCode, bytes: Seq<u8>, k: nat)
    requires
        is_grid(g),
        k <= BUFFER_WIDTH,
        k <= bytes.len(),
        forall|i: int| 0 <= i < bytes.len() ==> bytes[i] != NEWLINE,
    ensures
        after_bytes(g, 0, code, bytes.subrange(0, k as int)) == (partly_filled(g, code, bytes, k), k),
    decreases k,
{
    if k == 0 {
        assert(partly_filled(g, code, bytes, 0)[BUFFER_HEIGHT - 1] =~= g[BUFFER_HEIGHT - 1]);
        assert(partly_filled(g, code, bytes, 0) =~= g);
    } else {
        let km1 = (k - 1) as nat;
        lemma_fill_bottom_row(g, code, bytes, km1);
        assert(bytes.subrange(0, k as int).drop_last() =~= bytes.subrange(0, km1 as int));
        let prev = partly_filled(g, code, bytes, km1);
        let next = after_byte(prev, km1, code, bytes[km1 as int]);
        assert(next.0[BUFFER_HEIGHT - 1] =~= partly_filled(g, code, bytes, k)[BUFFER_HEIGHT - 1]);
        assert(next.0 =~= partly_filled(g, code, bytes, k));
    }
}

/// From column 0, `BUFFER_WIDTH + 1` printable bytes scroll exactly once:
/// the first `BUFFER_WIDTH` fill the row that moves up by one, and the last
/// lands at column 0 of the fresh bottom row, scrolled in before it was placed.
pub proof fn lemma_overflow_scrolls_once(g: Seq<Seq<ScreenChar>>, code: ColorCode, bytes: Seq<u8>)
    requires
        is_grid(g),
        bytes.len() == BUFFER_WIDTH + 1,
        forall|i: int| 0 <= i < bytes.len() ==> is_printable(#[trigger] bytes[i]),
    ensures
        ({
            let (g2, c2) = after_text(g, 0, code, bytes);
            &&& c2 == 1
            &&& forall|r: int| 0 <= r < BUFFER_HEIGHT - 2 ==> #[trigger] g2[r] == g[r + 1]
            &&& forall|c: int|
                0 <= c < BUFFER_WIDTH ==> #[trigger] g2[BUFFER_HEIGHT - 2][c] == (ScreenChar {
                    ascii_character: bytes[c],
                    color_code: code,
                })
            &&& g2[BUFFER_HEIGHT - 1][0] == (ScreenChar {
                ascii_character: bytes[BUFFER_WIDTH as int],
                color_code: code,
            })
            &&& forall|c: int|
                1 <= c < BUFFER_WIDTH ==> #[trigger] g2[BUFFER_HEIGHT - 1][c] == (ScreenChar {
                    ascii_character: 0x20,
                    color_code: code,
                })
        }),
{
    assert(sanitized(bytes) =~= bytes);
    assert forall|i: int| 0 <= i < bytes.len() implies bytes[i] != NEWLINE by {
        assert(is_printable(bytes[i]));
    }
    lemma_fill_bottom_row(g, code, bytes, BUFFER_WIDTH as nat);
    assert(bytes.drop_last() =~= bytes.subrange(0, BUFFER_WIDTH as int));
}

proof fn lemma_after_bytes_append(
    g: Seq<Seq<ScreenChar>>,
    col: nat,
    code: ColorCode,
    a: Seq<u8>,
    b: Seq<u8>,
)
    ensures
        ({
            let mid = after_bytes(g, col, code, a);
            after_bytes(mid.0, mid.1, code, b) == after_bytes(g, col, code, a + b)
        }),
    decreases b.len(),
{
    if b.len() == 0 {
        assert(a + b =~= a);
    } else {
        lemma_after_bytes_append(g, col, code, a, b.drop_last());
        assert((a + b).drop_last() =~= a + b.drop_last());
        assert((a + b).last() == b.last());
    }
}

/// Writing `a` and then `b` leaves the display exactly as writing `a`
/// followed by `b` in one text does: each text reaches the display whole and
/// in order, with nothing of it moved or mixed into the other.
pub proof fn lemma_writes_concatenate(
    g: Seq<Seq<ScreenChar>>,
    col: nat,
    code: ColorCode,
    a: Seq<u8>,
    b: Seq<u8>,
)
    ensures
        ({
            let mid = after_text(g, col, code, a);
            after_text(mid.0, mid.1, code, b) == after_text(g, col, code, a + b)
        }),
{
    assert(sanitized(a + b) =~= sanitized(a) + sanitized(b));
    lemma_after_bytes_append(g, col, code, sanitized(a), sanitized(b));
}

/// Writes a whole formatted text through one exclusive borrow of the writer,
/// so no other output lands between its bytes.
pub fn _print(writer: &mut Writer, s: &str)
    requires
        old(writer).wf(),
    ensures
        final(writer).wf(),
        final(writer).code() == old(writer).code(),
        (final(writer).grid(), final(writer).column()) == after_text(
            old(writer).grid(),
            old(writer).column(),
            old(writer).code(),
            s.spec_bytes(),
        ),
{
    writer.write_string(s);
}

} // verus!

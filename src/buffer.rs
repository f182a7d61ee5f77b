use crate::color::ScreenChar;
use vstd::prelude::*;

verus! {

pub const BUFFER_WIDTH: usize = 80;

pub const BUFFER_HEIGHT: usize = 25;

#[verifier::external_type_specification]
#[verifier::external_body]
#[verifier::reject_recursive_types(T)]
pub struct ExVolatile<T: Copy>(volatile::Volatile<T>);

/// The cell value that a volatile slot holds.
pub uninterp spec fn cell_content(v: volatile::Volatile<ScreenChar>) -> ScreenChar;

/// Relies on volatile::Volatile::new: the slot starts out holding `c`.
#[verifier::external_body]
fn fresh_cell(c: ScreenChar) -> (r: volatile::Volatile<ScreenChar>)
    ensures
        cell_content(r) == c,
{
    volatile::Volatile::new(c)
}

/// Relies on volatile::Volatile::read: a volatile load of the value held.
#[verifier::external_body]
fn load_cell(v: &volatile::Volatile<ScreenChar>) -> (r: ScreenChar)
    ensures
        r == cell_content(*v),
{
    v.read()
}

/// Relies on volatile::Volatile::write: a volatile store of `c`, which the
/// slot then holds.
#[verifier::external_body]
fn store_cell(v: &mut volatile::Volatile<ScreenChar>, c: ScreenChar)
    ensures
        cell_content(*final(v)) == c,
{
    v.write(c)
}

/// A grid shaped like the display: `BUFFER_HEIGHT` rows of `BUFFER_WIDTH` cells.
pub open spec fn is_grid(g: Seq<Seq<ScreenChar>>) -> bool {
    &&& g.len() == BUFFER_HEIGHT
    &&& forall|r: int| 0 <= r < BUFFER_HEIGHT ==> #[trigger] g[r].len() == BUFFER_WIDTH
}

/// The display memory: rows of cells, each character byte followed by its
/// attribute byte, every access made through a volatile load or store.
pub struct Buffer {
    chars: [[volatile::Volatile<ScreenChar>; BUFFER_WIDTH]; BUFFER_HEIGHT],
}

impl View for Buffer {
    type V = Seq<Seq<ScreenChar>>;

    closed spec fn view(&self) -> Seq<Seq<ScreenChar>> {
        Seq::new(
            BUFFER_HEIGHT as nat,
            |r: int| Seq::new(BUFFER_WIDTH as nat, |c: int| cell_content(self.chars[r][c])),
        )
    }
}

fn blank_row(c: ScreenChar) -> (r: [volatile::Volatile<ScreenChar>; BUFFER_WIDTH])
    ensures
        forall|j: int| 0 <= j < BUFFER_WIDTH ==> cell_content(#[trigger] r[j]) == c,
{
    [
            fresh_cell(c), fresh_cell(c), fresh_cell(c), fresh_cell(c), fresh_cell(c), fresh_cell(c), fresh_cell(c), fresh_cell(c), fresh_cell(c), fresh_cell(c),
            fresh_cell(c), fresh_cell(c), fresh_cell(c), fresh_cell(c), fresh_cell(c), fresh_cell(c), fresh_cell(c), fresh_cell(c), fresh_cell(c), fresh_cell(c),
            fresh_cell(c), fresh_cell(c), fresh_cell(c), fresh_cell(c), fresh_cell(c), fresh_cell(c), fresh_cell(c), fresh_cell(c), fresh_cell(c), fresh_cell(c),
            fresh_cell(c), fresh_cell(c), fresh_cell(c), fresh_cell(c), fresh_cell(c), fresh_cell(c), fresh_cell(c), fresh_cell(c), fresh_cell(c), fresh_cell(c),
            fresh_cell(c), fresh_cell(c), fresh_cell(c), fresh_cell(c), fresh_cell(c), fresh_cell(c), fresh_cell(c), fresh_cell(c), fresh_cell(c), fresh_cell(c),
            fresh_cell(c), fresh_cell(c), fresh_cell(c), fresh_cell(c), fresh_cell(c), fresh_cell(c), fresh_cell(c), fresh_cell(c), fresh_cell(c), fresh_cell(c),
            fresh_cell(c), fresh_cell(c), fresh_cell(c), fresh_cell(c), fresh_cell(c), fresh_cell(c), fresh_cell(c), fresh_cell(c), fresh_cell(c), fresh_cell(c),
            fresh_cell(c), fresh_cell(c), fresh_cell(c), fresh_cell(c), fresh_cell(c), fresh_cell(c), fresh_cell(c), fresh_cell(c), fresh_cell(c), fresh_cell(c),
    ]
}

impl Buffer {
    pub proof fn lemma_shape(&self)
        ensures
            is_grid(self@),
    {
    }

    /// A buffer in ordinary memory with every cell set to `c`.
    pub fn filled(c: ScreenChar) -> (r: Buffer)
        ensures
            is_grid(r@),
            forall|i: int, j: int|
                0 <= i < BUFFER_HEIGHT && 0 <= j < BUFFER_WIDTH ==> #[trigger] r@[i][j] == c,
    {
        Buffer {
            chars: [
                blank_row(c), blank_row(c), blank_row(c), blank_row(c), blank_row(c),
                blank_row(c), blank_row(c), blank_row(c), blank_row(c), blank_row(c),
                blank_row(c), blank_row(c), blank_row(c), blank_row(c), blank_row(c),
                blank_row(c), blank_row(c), blank_row(c), blank_row(c), blank_row(c),
                blank_row(c), blank_row(c), blank_row(c), blank_row(c), blank_row(c),
            ],
        }
    }

    /// Volatile load of the cell at `(row, col)`.
    pub fn read(&self, row: usize, col: usize) -> (r: ScreenChar)
        requires
            row < BUFFER_HEIGHT,
            col < BUFFER_WIDTH,
        ensures
            r == self@[row as int][col as int],
    {
        load_cell(&self.chars[row][col])
    }

    /// Volatile store of `c` into the cell at `(row, col)`; no other cell changes.
    pub fn write(&mut self, row: usize, col: usize, c: ScreenChar)
        requires
            row < BUFFER_HEIGHT,
            col < BUFFER_WIDTH,
        ensures
            final(self)@ == old(self)@.update(
                row as int,
                old(self)@[row as int].update(col as int, c),
            ),
    {
        store_cell(&mut self.chars[row][col], c);
        assert(self@ =~~= old(self)@.update(row as int, old(self)@[row as int].update(col as int, c)));
    }
}

} // verus!

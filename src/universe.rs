use vstd::prelude::*;
use vstd::arithmetic::div_mod::lemma_fundamental_div_mod_converse;

use crate::text::{decimal, push_decimal};
use vstd::string::StringExecFns;
use crate::grid::{lemma_index_in_range, wrap_after, wrap_before, GridError};

verus! {

/// A cell of the classic universe, as three colour channels. A cell is alive
/// when any channel is non-zero.
#[derive(Clone, Copy, Debug, PartialEq, Eq)]
pub struct Cell {
    properties: [u8; 3],
}

/// Whether the channels describe a live cell.
pub open spec fn channels_alive(p: Seq<u8>) -> bool {
    p[0] != 0 || p[1] != 0 || p[2] != 0
}

/// The channels of a live cell made by a birth or a toggle.
pub open spec fn live_channels() -> Seq<u8> {
    seq![255u8, 0u8, 0u8]
}

/// The channels of a dead cell.
pub open spec fn dead_channels() -> Seq<u8> {
    seq![0u8, 0u8, 0u8]
}

/// What a toggle makes of a cell with channels `p`: a live cell dies, a dead
/// one becomes live and red.
pub open spec fn toggled_channels(p: Seq<u8>) -> Seq<u8> {
    if channels_alive(p) {
        dead_channels()
    } else {
        live_channels()
    }
}

impl Cell {
    /// The three channels.
    pub closed spec fn channels(&self) -> Seq<u8> {
        self.properties@
    }

    pub open spec fn alive(&self) -> bool {
        channels_alive(self.channels())
    }

    /// A cell with the given channels.
    pub fn new(properties: [u8; 3]) -> (r: Cell)
        ensures
            r.channels() == properties@,
    {
        Cell { properties }
    }

    /// The three channels.
    pub fn properties(&self) -> (r: [u8; 3])
        ensures
            r@ == self.channels(),
    {
        self.properties
    }

    /// Whether any channel is non-zero.
    pub fn is_alive(&self) -> (r: bool)
        ensures
            r == self.alive(),
    {
        self.properties[0] != 0u8 || self.properties[1] != 0u8 || self.properties[2] != 0u8
    }

    /// A live cell becomes dead, a dead one becomes a live red cell.
    pub fn toggle(&mut self)
        ensures
            final(self).channels() == toggled_channels(old(self).channels()),
    {
        if self.is_alive() {
            self.properties = [0, 0, 0];
        } else {
            self.properties = [255, 0, 0];
        }
        proof {
            assert(self.properties@ =~= dead_channels() || self.properties@ =~= live_channels());
        }
    }
}

/// The next state of a cell with `n` live neighbours: a live cell dies with
/// fewer than two or more than three, a dead cell with exactly three is born,
/// and any other cell stays as it is.
pub open spec fn next_channels(p: Seq<u8>, n: nat) -> Seq<u8> {
    if channels_alive(p) && n < 2 {
        dead_channels()
    } else if channels_alive(p) && (n == 2 || n == 3) {
        p
    } else if channels_alive(p) && n > 3 {
        dead_channels()
    } else if !channels_alive(p) && n == 3 {
        live_channels()
    } else {
        p
    }
}

/// 1 if (`tr`, `tc`) is not (`r`, `c`) and holds a live cell, else 0.
pub open spec fn live_hit(cells: Seq<Cell>, w: nat, r: nat, c: nat, tr: nat, tc: nat) -> nat {
    if tr == r && tc == c {
        0
    } else if cells[(tr * w + tc) as int].alive() {
        1
    } else {
        0
    }
}

/// Live cells in row `tr` of the neighbourhood of (`r`, `c`).
pub open spec fn live_row(cells: Seq<Cell>, w: nat, r: nat, c: nat, tr: nat) -> nat {
    live_hit(cells, w, r, c, tr, wrap_before(c, w)) + live_hit(cells, w, r, c, tr, c) + live_hit(
        cells,
        w,
        r,
        c,
        tr,
        wrap_after(c, w),
    )
}

/// Live cells among the wrapped neighbours of (`r`, `c`), the cell itself
/// left out.
pub open spec fn live_neighbors(cells: Seq<Cell>, w: nat, h: nat, r: nat, c: nat) -> nat {
    live_row(cells, w, r, c, wrap_before(r, h)) + live_row(cells, w, r, c, r) + live_row(
        cells,
        w,
        r,
        c,
        wrap_after(r, h),
    )
}

/// The channels of cell `i` (row-major) in the next generation.
pub open spec fn next_at(cells: Seq<Cell>, w: nat, h: nat, i: int) -> Seq<u8> {
    next_channels(
        cells[i].channels(),
        live_neighbors(cells, w, h, (i / w as int) as nat, (i % w as int) as nat),
    )
}

/// Whether `next` is the generation after `cells` on a `w` by `h` grid.
pub open spec fn is_next_generation(cells: Seq<Cell>, next: Seq<Cell>, w: nat, h: nat) -> bool {
    &&& next.len() == cells.len()
    &&& forall|i: int| 0 <= i < cells.len() ==> (#[trigger] next[i]).channels() == next_at(cells, w, h, i)
}

/// Every cell is dead with all channels zero.
pub open spec fn is_cleared(cells: Seq<Cell>, n: nat) -> bool {
    &&& cells.len() == n
    &&& forall|i: int| 0 <= i < n ==> (#[trigger] cells[i]).channels() == dead_channels()
}

/// The classic Game of Life on a wrapped grid, with two buffers that take
/// turns: a tick writes the next generation into the inactive one and makes
/// it active.
pub struct Universe {
    width: u32,
    height: u32,
    buffer_a: Vec<Cell>,
    buffer_b: Vec<Cell>,
    cell_buffer_index: usize,
}

impl Universe {
    pub closed spec fn spec_width(&self) -> nat {
        self.width as nat
    }

    pub closed spec fn spec_height(&self) -> nat {
        self.height as nat
    }

    /// Which buffer is current: 0 or 1.
    pub closed spec fn spec_active(&self) -> nat {
        self.cell_buffer_index as nat
    }

    /// The buffer numbered `k`.
    pub closed spec fn spec_buffer(&self, k: nat) -> Seq<Cell> {
        if k == 0 {
            self.buffer_a@
        } else {
            self.buffer_b@
        }
    }

    /// The current generation, row by row.
    pub open spec fn spec_cells(&self) -> Seq<Cell> {
        self.spec_buffer(self.spec_active())
    }

    /// Both dimensions positive, their product within `u32`, both buffers one
    /// cell per place, and the active index 0 or 1.
    pub open spec fn wf(&self) -> bool {
        &&& self.spec_width() > 0
        &&& self.spec_height() > 0
        &&& self.spec_width() * self.spec_height() <= u32::MAX
        &&& self.spec_buffer(0).len() == self.spec_width() * self.spec_height()
        &&& self.spec_buffer(1).len() == self.spec_width() * self.spec_height()
        &&& self.spec_active() < 2
    }

    /// The row-major index of (`row`, `column`).
    pub open spec fn spec_index(&self, row: nat, column: nat) -> nat {
        row * self.spec_width() + column
    }
}

/// 1 if the cell at (`tr`, `tc`) is a live neighbour of (`row`, `column`).
fn count_one(cells: &Vec<Cell>, width: u32, height: u32, row: u32, column: u32, tr: u32, tc: u32) -> (r: u8)
    requires
        width > 0,
        height > 0,
        width * height <= u32::MAX,
        cells@.len() == width * height,
        row < height,
        column < width,
        tr < height,
        tc < width,
    ensures
        r == live_hit(cells@, width as nat, row as nat, column as nat, tr as nat, tc as nat),
{
    if tr == row && tc == column {
        return 0;
    }
    proof {
        lemma_index_in_range(tr as nat, tc as nat, width as nat, height as nat);
    }
    if cells[(tr * width + tc) as usize].is_alive() {
        1
    } else {
        0
    }
}

/// Live neighbours of (`row`, `column`) in row `tr`.
fn count_row(cells: &Vec<Cell>, width: u32, height: u32, row: u32, column: u32, tr: u32, left: u32, right: u32) -> (r: u8)
    requires
        width > 0,
        height > 0,
        width * height <= u32::MAX,
        cells@.len() == width * height,
        row < height,
        column < width,
        tr < height,
        left as nat == wrap_before(column as nat, width as nat),
        right as nat == wrap_after(column as nat, width as nat),
    ensures
        r == live_row(cells@, width as nat, row as nat, column as nat, tr as nat),
        r <= 3,
{
    count_one(cells, width, height, row, column, tr, left) + count_one(cells, width, height, row, column, tr, column)
        + count_one(cells, width, height, row, column, tr, right)
}

/// Live cells among the eight wrapped neighbours of (`row`, `column`) in `cells`.
fn count_neighbors(cells: &Vec<Cell>, width: u32, height: u32, row: u32, column: u32) -> (r: u8)
    requires
        width > 0,
        height > 0,
        width * height <= u32::MAX,
        cells@.len() == width * height,
        row < height,
        column < width,
    ensures
        r == live_neighbors(cells@, width as nat, height as nat, row as nat, column as nat),
{
    let row_above = if row == 0 { height - 1 } else { row - 1 };
    let row_below = if row >= height - 1 { 0 } else { row + 1 };
    let column_left = if column == 0 { width - 1 } else { column - 1 };
    let column_right = if column >= width - 1 { 0 } else { column + 1 };
    count_row(cells, width, height, row, column, row_above, column_left, column_right)
        + count_row(cells, width, height, row, column, row, column_left, column_right)
        + count_row(cells, width, height, row, column, row_below, column_left, column_right)
}

/// The classic rule applied to one cell with `neighbors` live neighbours.
fn next_state(cell: Cell, neighbors: u8) -> (r: Cell)
    ensures
        r.channels() == next_channels(cell.channels(), neighbors as nat),
{
    let alive = cell.is_alive();
    let r = if alive && neighbors < 2 {
        Cell::new([0, 0, 0])
    } else if alive && (neighbors == 2 || neighbors == 3) {
        cell
    } else if alive && neighbors > 3 {
        Cell::new([0, 0, 0])
    } else if !alive && neighbors == 3 {
        Cell::new([255, 0, 0])
    } else {
        cell
    };
    proof {
        assert([0u8, 0u8, 0u8]@ =~= dead_channels());
        assert([255u8, 0u8, 0u8]@ =~= live_channels());
    }
    r
}

/// Writes into `next` the generation after `current`, a `width` by `height` grid.
fn step_into(current: &Vec<Cell>, next: &mut Vec<Cell>, width: u32, height: u32)
    requires
        width > 0,
        height > 0,
        width * height <= u32::MAX,
        current@.len() == width * height,
        old(next)@.len() == width * height,
    ensures
        is_next_generation(current@, final(next)@, width as nat, height as nat),
{
    let ghost w = width as nat;
    let ghost h = height as nat;
    let mut row: u32 = 0;
    while row < height
        invariant
            width > 0,
            height > 0,
            width * height <= u32::MAX,
            current@.len() == w * h,
            next@.len() == w * h,
            w == width,
            h == height,
            row <= h,
            forall|i: int| 0 <= i < row * w ==> (#[trigger] next@[i]).channels() == next_at(current@, w, h, i),
        decreases h - row,
    {
        let mut col: u32 = 0;
        while col < width
            invariant
                width > 0,
                height > 0,
                width * height <= u32::MAX,
                current@.len() == w * h,
                next@.len() == w * h,
                w == width,
                h == height,
                row < h,
                col <= w,
                forall|i: int| 0 <= i < row * w + col ==> (#[trigger] next@[i]).channels() == next_at(current@, w, h, i),
            decreases w - col,
        {
            proof {
                lemma_index_in_range(row as nat, col as nat, w, h);
            }
            let idx = (row * width + col) as usize;
            let n = count_neighbors(current, width, height, row, col);
            let cell = next_state(current[idx], n);
            proof {
                lemma_fundamental_div_mod_converse(idx as int, w as int, row as int, col as int);
            }
            next.set(idx, cell);
            col = col + 1;
        }
        assert((row + 1) * w == row * w + w) by (nonlinear_arith);
        row = row + 1;
    }
}

/// Whether cell `i` is alive in the fixed pattern: every third and every fifth
/// cell, counting from the first.
pub open spec fn in_pattern(i: int) -> bool {
    i % 3 == 0 || i % 5 == 0
}

/// A vector of `n` dead cells.
fn dead_cells(n: u32) -> (r: Vec<Cell>)
    ensures
        is_cleared(r@, n as nat),
{
    let mut r: Vec<Cell> = Vec::new();
    let mut i: u32 = 0;
    while i < n
        invariant
            i <= n,
            is_cleared(r@, i as nat),
        decreases n - i,
    {
        let c = Cell::new([0, 0, 0]);
        assert([0u8, 0u8, 0u8]@ =~= dead_channels());
        r.push(c);
        i = i + 1;
    }
    r
}

impl Universe {
    /// A `width` by `height` universe, both buffers dead. Zero dimensions, and
    /// a cell count beyond `u32`, are refused.
    pub fn new(width: u32, height: u32) -> (r: Result<Universe, GridError>)
        ensures
            (width == 0 || height == 0 || width * height > u32::MAX) <==> r is Err,
            r is Err ==> r == Err::<Universe, GridError>(GridError::InvalidDimension),
            r matches Ok(u) ==> {
                &&& u.wf()
                &&& u.spec_width() == width
                &&& u.spec_height() == height
                &&& u.spec_active() == 0
                &&& is_cleared(u.spec_buffer(0), (width * height) as nat)
                &&& is_cleared(u.spec_buffer(1), (width * height) as nat)
            },
    {
        if width == 0 || height == 0 {
            return Err(GridError::InvalidDimension);
        }
        let count = match width.checked_mul(height) {
            Some(n) => n,
            None => return Err(GridError::InvalidDimension),
        };
        Ok(Universe {
            width,
            height,
            buffer_a: dead_cells(count),
            buffer_b: dead_cells(count),
            cell_buffer_index: 0,
        })
    }

    /// Writes the next generation into the inactive buffer, makes it the
    /// active one, and returns its number.
    pub fn tick(&mut self) -> (r: usize)
        requires
            old(self).wf(),
        ensures
            final(self).wf(),
            final(self).spec_width() == old(self).spec_width(),
            final(self).spec_height() == old(self).spec_height(),
            r == final(self).spec_active(),
            final(self).spec_active() == 1 - old(self).spec_active(),
            final(self).spec_buffer(old(self).spec_active()) == old(self).spec_cells(),
            is_next_generation(
                old(self).spec_cells(),
                final(self).spec_cells(),
                old(self).spec_width(),
                old(self).spec_height(),
            ),
    {
        if self.cell_buffer_index == 0 {
            step_into(&self.buffer_a, &mut self.buffer_b, self.width, self.height);
            self.cell_buffer_index = 1;
        } else {
            step_into(&self.buffer_b, &mut self.buffer_a, self.width, self.height);
            self.cell_buffer_index = 0;
        }
        self.cell_buffer_index
    }

    /// Sets cell `i` of the active buffer to `cell`.
    fn set_active(&mut self, i: usize, cell: Cell)
        requires
            old(self).wf(),
            i < old(self).spec_cells().len(),
        ensures
            final(self).wf(),
            final(self).spec_width() == old(self).spec_width(),
            final(self).spec_height() == old(self).spec_height(),
            final(self).spec_active() == old(self).spec_active(),
            final(self).spec_cells() == old(self).spec_cells().update(i as int, cell),
    {
        if self.cell_buffer_index == 0 {
            self.buffer_a.set(i, cell);
        } else {
            self.buffer_b.set(i, cell);
        }
    }

    /// The number of cells in each buffer.
    fn cell_count(&self) -> (r: usize)
        requires
            self.wf(),
        ensures
            r == self.spec_cells().len(),
    {
        if self.cell_buffer_index == 0 {
            self.buffer_a.len()
        } else {
            self.buffer_b.len()
        }
    }

    /// Sets each cell of the active buffer from a draw: live where the draw is
    /// true, dead where it is false.
    pub fn randomise(&mut self, draws: &[bool])
        requires
            old(self).wf(),
            draws@.len() == old(self).spec_cells().len(),
        ensures
            final(self).wf(),
            final(self).spec_width() == old(self).spec_width(),
            final(self).spec_height() == old(self).spec_height(),
            final(self).spec_active() == old(self).spec_active(),
            final(self).spec_cells().len() == draws@.len(),
            forall|i: int|
                0 <= i < draws@.len() ==> (#[trigger] final(self).spec_cells()[i]).channels() == if draws@[i] {
                    live_channels()
                } else {
                    dead_channels()
                },
    {
        let n = self.cell_count();
        let mut i: usize = 0;
        while i < n
            invariant
                self.wf(),
                n == self.spec_cells().len(),
                n == draws@.len(),
                i <= n,
                self.spec_width() == old(self).spec_width(),
                self.spec_height() == old(self).spec_height(),
                self.spec_active() == old(self).spec_active(),
                forall|k: int|
                    0 <= k < i ==> (#[trigger] self.spec_cells()[k]).channels() == if draws@[k] {
                        live_channels()
                    } else {
                        dead_channels()
                    },
            decreases n - i,
        {
            let cell = if draws[i] {
                Cell::new([255, 0, 0])
            } else {
                Cell::new([0, 0, 0])
            };
            assert([0u8, 0u8, 0u8]@ =~= dead_channels());
            assert([255u8, 0u8, 0u8]@ =~= live_channels());
            self.set_active(i, cell);
            i = i + 1;
        }
    }

    /// Fills the active buffer with a fixed pattern: cell `i` (row-major) is
    /// alive when `i` is a multiple of 3 or of 5.
    pub fn set_pattern(&mut self)
        requires
            old(self).wf(),
        ensures
            final(self).wf(),
            final(self).spec_width() == old(self).spec_width(),
            final(self).spec_height() == old(self).spec_height(),
            final(self).spec_active() == old(self).spec_active(),
            final(self).spec_cells().len() == old(self).spec_cells().len(),
            forall|i: int|
                0 <= i < old(self).spec_cells().len() ==> (#[trigger] final(self).spec_cells()[i]).channels() == if in_pattern(i) {
                    live_channels()
                } else {
                    dead_channels()
                },
    {
        let n = self.cell_count();
        let mut i: usize = 0;
        while i < n
            invariant
                self.wf(),
                n == self.spec_cells().len(),
                i <= n,
                self.spec_width() == old(self).spec_width(),
                self.spec_height() == old(self).spec_height(),
                self.spec_active() == old(self).spec_active(),
                forall|k: int|
                    0 <= k < i ==> (#[trigger] self.spec_cells()[k]).channels() == if in_pattern(k) {
                        live_channels()
                    } else {
                        dead_channels()
                    },
            decreases n - i,
        {
            let cell = if i % 3 == 0 || i % 5 == 0 {
                Cell::new([255, 0, 0])
            } else {
                Cell::new([0, 0, 0])
            };
            assert([0u8, 0u8, 0u8]@ =~= dead_channels());
            assert([255u8, 0u8, 0u8]@ =~= live_channels());
            self.set_active(i, cell);
            i = i + 1;
        }
    }

    /// Sets every cell of the active buffer dead.
    pub fn clear_cells(&mut self)
        requires
            old(self).wf(),
        ensures
            final(self).wf(),
            final(self).spec_width() == old(self).spec_width(),
            final(self).spec_height() == old(self).spec_height(),
            final(self).spec_active() == old(self).spec_active(),
            is_cleared(final(self).spec_cells(), old(self).spec_width() * old(self).spec_height()),
    {
        let cells = dead_cells(self.width * self.height);
        if self.cell_buffer_index == 0 {
            self.buffer_a = cells;
        } else {
            self.buffer_b = cells;
        }
    }

    /// The row-major index of (`row`, `column`).
    pub fn get_index(&self, row: u32, column: u32) -> (r: usize)
        requires
            self.wf(),
            row < self.spec_height(),
            column < self.spec_width(),
        ensures
            r == self.spec_index(row as nat, column as nat),
            r < self.spec_cells().len(),
    {
        proof {
            lemma_index_in_range(row as nat, column as nat, self.width as nat, self.height as nat);
        }
        (row * self.width + column) as usize
    }

    /// Toggles the cell at (`row`, `column`) between dead and live. A
    /// coordinate outside the grid is refused.
    pub fn toggle_cell(&mut self, row: u32, column: u32) -> (r: Result<(), GridError>)
        requires
            old(self).wf(),
        ensures
            final(self).wf(),
            final(self).spec_width() == old(self).spec_width(),
            final(self).spec_height() == old(self).spec_height(),
            final(self).spec_active() == old(self).spec_active(),
            (row >= old(self).spec_height() || column >= old(self).spec_width()) <==> r is Err,
            r is Err ==> r == Err::<(), GridError>(GridError::IndexOutOfRange) && *final(self) == *old(self),
            r is Ok ==> {
                let i = old(self).spec_index(row as nat, column as nat) as int;
                &&& final(self).spec_cells().len() == old(self).spec_cells().len()
                &&& forall|k: int| 0 <= k < old(self).spec_cells().len() && k != i ==> #[trigger] final(self).spec_cells()[k] == old(self).spec_cells()[k]
                &&& final(self).spec_cells()[i].channels() == toggled_channels(old(self).spec_cells()[i].channels())
            },
    {
        if row >= self.height || column >= self.width {
            return Err(GridError::IndexOutOfRange);
        }
        let idx = self.get_index(row, column);
        let mut cell = if self.cell_buffer_index == 0 {
            self.buffer_a[idx]
        } else {
            self.buffer_b[idx]
        };
        cell.toggle();
        self.set_active(idx, cell);
        Ok(())
    }

    pub fn width(&self) -> (r: u32)
        ensures
            r == self.spec_width(),
    {
        self.width
    }

    pub fn height(&self) -> (r: u32)
        ensures
            r == self.spec_height(),
    {
        self.height
    }

    /// The buffer numbered `buffer_index` (0 or 1), for a renderer that reads
    /// it in place.
    pub fn get_cell_buffer_ptr(&self, buffer_index: usize) -> (r: &[Cell])
        requires
            buffer_index < 2,
        ensures
            r@ == self.spec_buffer(buffer_index as nat),
    {
        if buffer_index == 0 {
            self.buffer_a.as_slice()
        } else {
            self.buffer_b.as_slice()
        }
    }

    /// The current generation, row by row.
    pub fn get_cells(&self) -> (r: &[Cell])
        ensures
            r@ == self.spec_cells(),
    {
        if self.cell_buffer_index == 0 {
            self.buffer_a.as_slice()
        } else {
            self.buffer_b.as_slice()
        }
    }

    /// The number of live neighbours of (`row`, `column`) in the current generation.
    pub fn neighbor_count(&self, row: u32, column: u32) -> (r: u8)
        requires
            self.wf(),
            row < self.spec_height(),
            column < self.spec_width(),
        ensures
            r == live_neighbors(self.spec_cells(), self.spec_width(), self.spec_height(), row as nat, column as nat),
    {
        if self.cell_buffer_index == 0 {
            count_neighbors(&self.buffer_a, self.width, self.height, row, column)
        } else {
            count_neighbors(&self.buffer_b, self.width, self.height, row, column)
        }
    }
}

/// A dead cell toggled once is alive; toggled twice it is dead again, with
/// all channels zero.
pub proof fn lemma_toggle_twice(p: Seq<u8>)
    requires
        p.len() == 3,
        !channels_alive(p),
    ensures
        channels_alive(toggled_channels(p)),
        !channels_alive(toggled_channels(toggled_channels(p))),
        toggled_channels(toggled_channels(p)) == dead_channels(),
{
}

/// The next generation is determined by the current one: two results of a
/// tick from the same cells agree on every cell.
pub proof fn lemma_tick_deterministic(cells: Seq<Cell>, a: Seq<Cell>, b: Seq<Cell>, w: nat, h: nat)
    requires
        is_next_generation(cells, a, w, h),
        is_next_generation(cells, b, w, h),
    ensures
        a.len() == b.len(),
        forall|i: int| 0 <= i < a.len() ==> (#[trigger] a[i]).channels() == b[i].channels(),
{
    assert forall|i: int| 0 <= i < a.len() implies (#[trigger] a[i]).channels() == b[i].channels() by {
        assert(a[i].channels() == next_at(cells, w, h, i));
        assert(b[i].channels() == next_at(cells, w, h, i));
    }
}

/// Clearing twice gives the same buffer as clearing once: every cell dead,
/// with all channels zero.
pub proof fn lemma_clear_idempotent(a: Seq<Cell>, b: Seq<Cell>, n: nat)
    requires
        is_cleared(a, n),
        is_cleared(b, n),
    ensures
        a.len() == b.len(),
        forall|i: int| 0 <= i < a.len() ==> (#[trigger] a[i]).channels() == b[i].channels() && !a[i].alive(),
{
    assert forall|i: int| 0 <= i < a.len() implies (#[trigger] a[i]).channels() == b[i].channels() && !a[i].alive() by {
        assert(a[i].channels() == dead_channels());
        assert(b[i].channels() == dead_channels());
    }
}

/// The grid wraps: a live cell in the last row is a neighbour of the cell
/// in the first row of the same column, and a live cell in the last column
/// is a neighbour of the cell in the first column of the same row.
pub proof fn lemma_wrap_neighbors(cells: Seq<Cell>, w: nat, h: nat, r: nat, c: nat)
    requires
        w > 1,
        h > 1,
        r < h,
        c < w,
        cells.len() == w * h,
    ensures
        cells[((h - 1) * w + c) as int].alive() ==> live_neighbors(cells, w, h, 0, c) >= 1,
        cells[(r * w + (w - 1)) as int].alive() ==> live_neighbors(cells, w, h, r, 0) >= 1,
{
    assert(live_hit(cells, w, 0, c, (h - 1) as nat, c) <= live_row(cells, w, 0, c, (h - 1) as nat));
    assert(live_hit(cells, w, r, 0, r, (w - 1) as nat) <= live_row(cells, w, r, 0, r));
}

/// A cell as text: `Cell(r,g,b)` with its three channels in decimal.
pub open spec fn cell_text(p: Seq<u8>) -> Seq<char> {
    "Cell("@ + decimal(p[0] as nat) + ","@ + decimal(p[1] as nat) + ","@ + decimal(p[2] as nat) + ")"@
}

/// The diagnostic line for the cell at (`r`, `c`) with channels `p` and `n`
/// live neighbours.
pub open spec fn stats_text(r: u32, c: u32, p: Seq<u8>, n: nat) -> Seq<char> {
    "("@ + decimal(r as nat) + ","@ + decimal(c as nat) + ") "@ + cell_text(p) + " - Neighbors: "@ + decimal(n)
}

impl Cell {
    /// The cell as text, `Cell(r,g,b)`.
    pub fn to_string(&self) -> (r: String)
        ensures
            r@ == cell_text(self.channels()),
    {
        let s = String::from_str("Cell(");
        let s = push_decimal(s, self.properties[0] as u32);
        let s = s.concat(",");
        let s = push_decimal(s, self.properties[1] as u32);
        let s = s.concat(",");
        let s = push_decimal(s, self.properties[2] as u32);
        s.concat(")")
    }
}

impl Universe {
    /// A readable line giving the cell at (`row`, `column`), its channels, and
    /// its number of live neighbours.
    pub fn get_cell_stats(&self, row: u32, column: u32) -> (r: String)
        requires
            self.wf(),
            row < self.spec_height(),
            column < self.spec_width(),
        ensures
            r@ == stats_text(
                row,
                column,
                self.spec_cells()[self.spec_index(row as nat, column as nat) as int].channels(),
                live_neighbors(self.spec_cells(), self.spec_width(), self.spec_height(), row as nat, column as nat),
            ),
    {
        let idx = self.get_index(row, column);
        let cell = if self.cell_buffer_index == 0 {
            self.buffer_a[idx]
        } else {
            self.buffer_b[idx]
        };
        let n = self.neighbor_count(row, column);
        let s = String::from_str("(");
        let s = push_decimal(s, row);
        let s = s.concat(",");
        let s = push_decimal(s, column);
        let s = s.concat(") ");
        let s = s.concat(cell.to_string().as_str());
        let s = s.concat(" - Neighbors: ");
        push_decimal(s, n as u32)
    }
}

} // verus!

use vstd::prelude::*;
use vstd::arithmetic::div_mod::lemma_fundamental_div_mod_converse;

use crate::text::{decimal, push_decimal};
use vstd::string::StringExecFns;
use crate::grid::{lemma_index_in_range, wrap_after, wrap_before, GridError};

verus! {

/// The state of one cell of the food-chain universe: dead, or one of three
/// species that form a predator cycle (red eats green, green eats blue, blue
/// eats red).
#[derive(Clone, Copy, Debug, PartialEq, Eq, Structural)]
pub enum Cell {
    Dead,
    Red,
    Green,
    Blue,
}

/// The species that `c` preys on.
pub open spec fn food_of(c: Cell) -> Cell {
    match c {
        Cell::Red => Cell::Green,
        Cell::Green => Cell::Blue,
        Cell::Blue => Cell::Red,
        Cell::Dead => Cell::Dead,
    }
}

/// The species that preys on `c`.
pub open spec fn foe_of(c: Cell) -> Cell {
    match c {
        Cell::Red => Cell::Blue,
        Cell::Green => Cell::Red,
        Cell::Blue => Cell::Green,
        Cell::Dead => Cell::Dead,
    }
}

/// The state that a toggle moves a cell to: Dead, Red, Green, Blue, and round again.
pub open spec fn toggled(c: Cell) -> Cell {
    match c {
        Cell::Dead => Cell::Red,
        Cell::Red => Cell::Green,
        Cell::Green => Cell::Blue,
        Cell::Blue => Cell::Dead,
    }
}

/// The cell state numbered `n` in the order Dead, Red, Green, Blue.
pub open spec fn cell_of_index(n: int) -> Cell {
    if n == 0 {
        Cell::Dead
    } else if n == 1 {
        Cell::Red
    } else if n == 2 {
        Cell::Green
    } else {
        Cell::Blue
    }
}

/// The name of a cell state as text.
pub open spec fn cell_name(c: Cell) -> Seq<char> {
    match c {
        Cell::Dead => seq!['D', 'e', 'a', 'd'],
        Cell::Red => seq!['R', 'e', 'd'],
        Cell::Green => seq!['G', 'r', 'e', 'e', 'n'],
        Cell::Blue => seq!['B', 'l', 'u', 'e'],
    }
}

impl Cell {
    /// Moves the cell one step along Dead, Red, Green, Blue, Dead.
    pub fn toggle(&mut self)
        ensures
            *final(self) == toggled(*old(self)),
    {
        *self = match *self {
            Cell::Dead => Cell::Red,
            Cell::Red => Cell::Green,
            Cell::Green => Cell::Blue,
            Cell::Blue => Cell::Dead,
        };
    }

    /// The species this one preys on. Dead cells have no food.
    pub fn food(&self) -> (r: Cell)
        requires
            *self != Cell::Dead,
        ensures
            r == food_of(*self),
    {
        match self {
            Cell::Blue => Cell::Red,
            Cell::Red => Cell::Green,
            _ => Cell::Blue,
        }
    }

    /// The species that preys on this one. Dead cells have no foes.
    pub fn foe(&self) -> (r: Cell)
        requires
            *self != Cell::Dead,
        ensures
            r == foe_of(*self),
    {
        match self {
            Cell::Blue => Cell::Green,
            Cell::Red => Cell::Blue,
            _ => Cell::Red,
        }
    }

    /// The cell state numbered `n` (Dead, Red, Green, Blue), if there is one.
    pub fn from_index(n: u8) -> (r: Option<Cell>)
        ensures
            n < 4 ==> r == Some(cell_of_index(n as int)),
            n >= 4 ==> r is None,
    {
        if n == 0 {
            Some(Cell::Dead)
        } else if n == 1 {
            Some(Cell::Red)
        } else if n == 2 {
            Some(Cell::Green)
        } else if n == 3 {
            Some(Cell::Blue)
        } else {
            None
        }
    }

    /// The name of the state: "Dead", "Red", "Green" or "Blue".
    pub fn to_string(&self) -> (r: String)
        ensures
            r@ == cell_name(*self),
    {
        let s = match *self {
            Cell::Dead => "Dead",
            Cell::Red => "Red",
            Cell::Green => "Green",
            Cell::Blue => "Blue",
        };
        proof {
            reveal_strlit("Dead");
            reveal_strlit("Red");
            reveal_strlit("Green");
            reveal_strlit("Blue");
        }
        s.to_owned()
    }
}

/// The grid: `width` by `height` cells stored row by row, with edges that wrap
/// around.
pub struct Universe {
    width: u32,
    height: u32,
    cells: Vec<Cell>,
}

/// A neighbourhood statistic: a species, how many of its kind remain among the
/// neighbours, and how many of its prey it ate.
pub type Stat = (Cell, u8, u8);

/// Whether the cell at (`tr`, `tc`) is a neighbour of (`r`, `c`) of species `x`.
pub open spec fn hit(cells: Seq<Cell>, w: nat, r: nat, c: nat, tr: nat, tc: nat, x: Cell) -> nat {
    if tr == r && tc == c {
        0
    } else if cells[(tr * w + tc) as int] == x {
        1
    } else {
        0
    }
}

/// How many cells of species `x` stand in row `tr` of the neighbourhood of (`r`, `c`).
pub open spec fn row_hits(cells: Seq<Cell>, w: nat, r: nat, c: nat, tr: nat, x: Cell) -> nat {
    hit(cells, w, r, c, tr, wrap_before(c, w), x) + hit(cells, w, r, c, tr, c, x) + hit(
        cells,
        w,
        r,
        c,
        tr,
        wrap_after(c, w),
        x,
    )
}

/// How many of the wrapped neighbours of (`r`, `c`) are of species `x`. The
/// three rows and three columns around the cell are scanned, the cell itself
/// left out; on a grid one cell wide or high a place may be met more than once.
pub open spec fn census(cells: Seq<Cell>, w: nat, h: nat, r: nat, c: nat, x: Cell) -> nat {
    row_hits(cells, w, r, c, wrap_before(r, h), x) + row_hits(cells, w, r, c, r, x) + row_hits(
        cells,
        w,
        r,
        c,
        wrap_after(r, h),
        x,
    )
}

/// The species with a non-zero count, in the order Red, Green, Blue.
pub open spec fn present(nr: u8, ng: u8, nb: u8) -> Seq<Stat> {
    (if nr > 0 { seq![(Cell::Red, nr, 0u8)] } else { Seq::empty() }) + (if ng > 0 {
        seq![(Cell::Green, ng, 0u8)]
    } else {
        Seq::empty()
    }) + (if nb > 0 { seq![(Cell::Blue, nb, 0u8)] } else { Seq::empty() })
}

/// `x` put into `s` after every entry whose population is at least its own.
pub open spec fn insert_by_population(s: Seq<Stat>, x: Stat) -> Seq<Stat>
    decreases s.len(),
{
    if s.len() == 0 {
        seq![x]
    } else if s[0].1 >= x.1 {
        seq![s[0]] + insert_by_population(s.drop_first(), x)
    } else {
        seq![x] + s
    }
}

/// `s` sorted by population, largest first, keeping the order of equal entries.
pub open spec fn sort_by_population(s: Seq<Stat>) -> Seq<Stat>
    decreases s.len(),
{
    if s.len() == 0 {
        s
    } else {
        insert_by_population(sort_by_population(s.drop_last()), s.last())
    }
}

/// Entry `ci` eats from entry `ti` if `ti` is its food: it records as eaten the
/// smaller of the two populations, and that much is taken from the prey.
pub open spec fn eat(s: Seq<Stat>, ci: int, ti: int) -> Seq<Stat> {
    if s[ci].0 != Cell::Dead && food_of(s[ci].0) == s[ti].0 {
        let a = if s[ti].1 <= s[ci].1 { s[ti].1 } else { s[ci].1 };
        let s1 = s.update(ci, (s[ci].0, s[ci].1, a));
        s1.update(ti, (s1[ti].0, (s1[ti].1 - a) as u8, s1[ti].2))
    } else {
        s
    }
}

/// Entry `ci` tried against the first `t` entries in turn.
pub open spec fn eat_upto(s: Seq<Stat>, ci: int, t: int) -> Seq<Stat>
    decreases t,
{
    if t <= 0 {
        s
    } else {
        eat(eat_upto(s, ci, t - 1), ci, t - 1)
    }
}

/// The first `c` entries, in order, each tried against every entry: a single
/// pass, not a search for a fixed point.
pub open spec fn predation_upto(s: Seq<Stat>, c: int) -> Seq<Stat>
    decreases c,
{
    if c <= 0 {
        s
    } else {
        let p = predation_upto(s, c - 1);
        eat_upto(p, c - 1, p.len() as int)
    }
}

/// One pass of predation over all entries.
pub open spec fn predation(s: Seq<Stat>) -> Seq<Stat> {
    predation_upto(s, s.len() as int)
}

/// Population plus what was eaten.
pub open spec fn strength(e: Stat) -> int {
    e.1 + e.2
}

/// The first entry of greatest strength, or a dead entry where there is none.
pub open spec fn elect(s: Seq<Stat>) -> Stat
    decreases s.len(),
{
    if s.len() == 0 {
        (Cell::Dead, 0u8, 0u8)
    } else {
        let t = elect(s.drop_first());
        if s.len() > 1 && strength(t) > strength(s[0]) {
            t
        } else {
            s[0]
        }
    }
}

/// The entry of species `c`, or `c` with nothing counted where there is none.
pub open spec fn find_own(s: Seq<Stat>, c: Cell) -> Stat
    decreases s.len(),
{
    if s.len() == 0 {
        (c, 0u8, 0u8)
    } else if s[0].0 == c {
        s[0]
    } else {
        find_own(s.drop_first(), c)
    }
}

/// The neighbourhood statistics of (`r`, `c`) for a cell in state `cell`: for a
/// dead cell the elected birth candidate, for a live one its own species.
pub open spec fn friendliness(cells: Seq<Cell>, w: nat, h: nat, r: nat, c: nat, cell: Cell) -> Stat {
    let s = predation(
        sort_by_population(
            present(
                census(cells, w, h, r, c, Cell::Red) as u8,
                census(cells, w, h, r, c, Cell::Green) as u8,
                census(cells, w, h, r, c, Cell::Blue) as u8,
            ),
        ),
    );
    if cell == Cell::Dead {
        elect(s)
    } else {
        find_own(s, cell)
    }
}

/// The food-chain rule: what a cell becomes, given its neighbourhood statistic.
/// Starvation is tried before survival.
pub open spec fn next_cell(cell: Cell, st: Stat) -> Cell {
    let f = st.1 as int;
    let food = st.2 as int;
    if cell == Cell::Dead && f == 3 {
        st.0
    } else if cell == Cell::Dead && f > 0 && food > 0 {
        st.0
    } else if f + food < 2 {
        Cell::Dead
    } else if f == 2 || f == 3 {
        cell
    } else if food > 0 {
        cell
    } else if f > 3 {
        Cell::Dead
    } else {
        cell
    }
}

/// The state of cell `i` (row-major) in the next generation.
pub open spec fn next_at(cells: Seq<Cell>, w: nat, h: nat, i: int) -> Cell {
    next_cell(
        cells[i],
        friendliness(cells, w, h, (i / w as int) as nat, (i % w as int) as nat, cells[i]),
    )
}

/// The next generation of a `w` by `h` grid: every cell computed from the
/// same current generation.
pub open spec fn next_generation(cells: Seq<Cell>, w: nat, h: nat) -> Seq<Cell> {
    Seq::new(cells.len(), |i: int| next_at(cells, w, h, i))
}

/// A sequence of `n` dead cells.
pub open spec fn all_dead(n: nat) -> Seq<Cell> {
    Seq::new(n, |i: int| Cell::Dead)
}

impl Universe {
    pub closed spec fn spec_width(&self) -> nat {
        self.width as nat
    }

    pub closed spec fn spec_height(&self) -> nat {
        self.height as nat
    }

    /// The cells, row by row.
    pub closed spec fn spec_cells(&self) -> Seq<Cell> {
        self.cells@
    }

    /// Both dimensions positive, their product within `u32`, and one cell for
    /// each place.
    pub open spec fn wf(&self) -> bool {
        &&& self.spec_width() > 0
        &&& self.spec_height() > 0
        &&& self.spec_width() * self.spec_height() <= u32::MAX
        &&& self.spec_cells().len() == self.spec_width() * self.spec_height()
    }

    /// The row-major index of (`row`, `column`).
    pub open spec fn spec_index(&self, row: nat, column: nat) -> nat {
        row * self.spec_width() + column
    }
}

impl Universe {
    /// The row-major index of (`row`, `column`).
    pub fn get_index(&self, row: u32, column: u32) -> (r: usize)
        requires
            self.wf(),
            row < self.spec_height(),
            column < self.spec_width(),
        ensures
            r == self.spec_index(row as nat, column as nat),
            r < self.spec_cells().len(),
    {
        proof {
            lemma_index_in_range(row as nat, column as nat, self.width as nat, self.height as nat);
        }
        (row * self.width + column) as usize
    }

    /// Counts the cell at (`tr`, `tc`) towards the neighbours of (`row`, `column`).
    fn tally_one(&self, row: u32, column: u32, tr: u32, tc: u32, nr: &mut u8, ng: &mut u8, nb: &mut u8)
        requires
            self.wf(),
            row < self.spec_height(),
            column < self.spec_width(),
            tr < self.spec_height(),
            tc < self.spec_width(),
            *old(nr) < 255,
            *old(ng) < 255,
            *old(nb) < 255,
        ensures
            *final(nr) == *old(nr) + hit(self.spec_cells(), self.spec_width(), row as nat, column as nat, tr as nat, tc as nat, Cell::Red),
            *final(ng) == *old(ng) + hit(self.spec_cells(), self.spec_width(), row as nat, column as nat, tr as nat, tc as nat, Cell::Green),
            *final(nb) == *old(nb) + hit(self.spec_cells(), self.spec_width(), row as nat, column as nat, tr as nat, tc as nat, Cell::Blue),
    {
        if tr == row && tc == column {
            return;
        }
        let target = self.cells[self.get_index(tr, tc)];
        match target {
            Cell::Red => *nr = *nr + 1,
            Cell::Green => *ng = *ng + 1,
            Cell::Blue => *nb = *nb + 1,
            Cell::Dead => {},
        }
    }

    /// Counts the three cells of row `tr` around `column`.
    fn tally_row(&self, row: u32, column: u32, tr: u32, left: u32, right: u32, nr: &mut u8, ng: &mut u8, nb: &mut u8)
        requires
            self.wf(),
            row < self.spec_height(),
            column < self.spec_width(),
            tr < self.spec_height(),
            left as nat == wrap_before(column as nat, self.spec_width()),
            right as nat == wrap_after(column as nat, self.spec_width()),
            *old(nr) <= 6,
            *old(ng) <= 6,
            *old(nb) <= 6,
        ensures
            *final(nr) == *old(nr) + row_hits(self.spec_cells(), self.spec_width(), row as nat, column as nat, tr as nat, Cell::Red),
            *final(ng) == *old(ng) + row_hits(self.spec_cells(), self.spec_width(), row as nat, column as nat, tr as nat, Cell::Green),
            *final(nb) == *old(nb) + row_hits(self.spec_cells(), self.spec_width(), row as nat, column as nat, tr as nat, Cell::Blue),
    {
        self.tally_one(row, column, tr, left, nr, ng, nb);
        self.tally_one(row, column, tr, column, nr, ng, nb);
        self.tally_one(row, column, tr, right, nr, ng, nb);
    }
}

/// Every entry names a live species.
pub open spec fn all_live(s: Seq<Stat>) -> bool {
    forall|k: int| 0 <= k < s.len() ==> #[trigger] s[k].0 != Cell::Dead
}

proof fn lemma_insert_at(s: Seq<Stat>, x: Stat, p: int)
    requires
        0 <= p <= s.len(),
        forall|k: int| 0 <= k < p ==> #[trigger] s[k].1 >= x.1,
        p == s.len() || s[p].1 < x.1,
    ensures
        insert_by_population(s, x) == s.take(p) + seq![x] + s.skip(p),
    decreases p,
{
    if p == 0 {
        if s.len() == 0 {
            assert(s.take(0) + seq![x] + s.skip(0) =~= seq![x]);
        } else {
            assert(s.take(0) + seq![x] + s.skip(0) =~= seq![x] + s);
        }
    } else {
        let t = s.drop_first();
        assert forall|k: int| 0 <= k < p - 1 implies #[trigger] t[k].1 >= x.1 by {
            assert(s[k + 1].1 >= x.1);
        }
        lemma_insert_at(t, x, p - 1);
        assert(seq![s[0]] + (t.take(p - 1) + seq![x] + t.skip(p - 1)) =~= s.take(p) + seq![x] + s.skip(p));
    }
}

proof fn lemma_insert_keeps(s: Seq<Stat>, x: Stat)
    ensures
        insert_by_population(s, x).len() == s.len() + 1,
        all_live(s) && x.0 != Cell::Dead ==> all_live(insert_by_population(s, x)),
    decreases s.len(),
{
    if s.len() > 0 && s[0].1 >= x.1 {
        lemma_insert_keeps(s.drop_first(), x);
        let r = insert_by_population(s, x);
        let t = insert_by_population(s.drop_first(), x);
        assert(r == seq![s[0]] + t);
        if all_live(s) && x.0 != Cell::Dead {
            assert forall|k: int| 0 <= k < r.len() implies #[trigger] r[k].0 != Cell::Dead by {
                if k > 0 {
                    assert(r[k] == t[k - 1]);
                }
            }
        }
    } else if s.len() > 0 {
        let r = insert_by_population(s, x);
        if all_live(s) && x.0 != Cell::Dead {
            assert forall|k: int| 0 <= k < r.len() implies #[trigger] r[k].0 != Cell::Dead by {
                if k > 0 {
                    assert(r[k] == s[k - 1]);
                }
            }
        }
    }
}

proof fn lemma_sort_keeps(s: Seq<Stat>)
    ensures
        sort_by_population(s).len() == s.len(),
        all_live(s) ==> all_live(sort_by_population(s)),
    decreases s.len(),
{
    if s.len() > 0 {
        let d = s.drop_last();
        lemma_sort_keeps(d);
        lemma_insert_keeps(sort_by_population(d), s.last());
        if all_live(s) {
            assert forall|k: int| 0 <= k < d.len() implies #[trigger] d[k].0 != Cell::Dead by {
                assert(d[k] == s[k]);
            }
        }
    }
}

/// `x` put into `v` after every entry whose population is at least its own.
fn insert_stat(v: &Vec<Stat>, x: Stat) -> (r: Vec<Stat>)
    ensures
        r@ == insert_by_population(v@, x),
{
    let mut r: Vec<Stat> = Vec::new();
    let mut i: usize = 0;
    while i < v.len() && v[i].1 >= x.1
        invariant
            i <= v@.len(),
            r@ == v@.take(i as int),
            forall|k: int| 0 <= k < i ==> #[trigger] v@[k].1 >= x.1,
        decreases v@.len() - i,
    {
        r.push(v[i]);
        i = i + 1;
        assert(r@ =~= v@.take(i as int));
    }
    let ghost p = i as int;
    proof {
        lemma_insert_at(v@, x, p);
    }
    r.push(x);
    while i < v.len()
        invariant
            0 <= p <= i <= v@.len(),
            r@ == v@.take(p) + seq![x] + v@.subrange(p, i as int),
        decreases v@.len() - i,
    {
        let ghost prev = r@;
        r.push(v[i]);
        i = i + 1;
        assert(v@.subrange(p, i as int) =~= v@.subrange(p, i - 1).push(v@[i - 1]));
        assert(r@ =~= prev.push(v@[i - 1]));
        assert(r@ =~= v@.take(p) + seq![x] + v@.subrange(p, i as int));
    }
    assert(v@.subrange(p, v@.len() as int) =~= v@.skip(p));
    r
}

/// The entries sorted by population, largest first; equal entries keep their order.
fn sort_stats(v: &Vec<Stat>) -> (r: Vec<Stat>)
    ensures
        r@ == sort_by_population(v@),
{
    let mut r: Vec<Stat> = Vec::new();
    let mut i: usize = 0;
    assert(v@.take(0) =~= Seq::<Stat>::empty());
    while i < v.len()
        invariant
            i <= v@.len(),
            r@ == sort_by_population(v@.take(i as int)),
        decreases v@.len() - i,
    {
        assert(v@.take(i as int + 1).drop_last() =~= v@.take(i as int));
        r = insert_stat(&r, v[i]);
        i = i + 1;
    }
    assert(v@.take(v@.len() as int) =~= v@);
    r
}

/// One pass of predation over the entries, in their order.
fn predate(v: &mut Vec<Stat>)
    requires
        all_live(old(v)@),
    ensures
        final(v)@ == predation(old(v)@),
{
    let n = v.len();
    let ghost s0 = v@;
    let mut ci: usize = 0;
    while ci < n
        invariant
            n == s0.len(),
            ci <= n,
            v@.len() == n,
            v@ == predation_upto(s0, ci as int),
            forall|k: int| 0 <= k < n ==> #[trigger] v@[k].0 == s0[k].0,
            all_live(s0),
        decreases n - ci,
    {
        let ghost p = v@;
        let mut ti: usize = 0;
        while ti < n
            invariant
                n == s0.len(),
                ci < n,
                ti <= n,
                p.len() == n,
                v@.len() == n,
                v@ == eat_upto(p, ci as int, ti as int),
                p == predation_upto(s0, ci as int),
                forall|k: int| 0 <= k < n ==> #[trigger] v@[k].0 == s0[k].0,
                all_live(s0),
            decreases n - ti,
        {
            let ghost before = v@;
            assert(v@[ci as int].0 == s0[ci as int].0);
            if v[ci].0.food() == v[ti].0 {
                let a = if v[ti].1 <= v[ci].1 { v[ti].1 } else { v[ci].1 };
                let c = v[ci];
                v.set(ci, (c.0, c.1, a));
                let t = v[ti];
                v.set(ti, (t.0, t.1 - a, t.2));
            }
            assert(v@ =~= eat(before, ci as int, ti as int));
            ti = ti + 1;
        }
        ci = ci + 1;
    }
}

/// The first entry of greatest strength, or a dead entry where there is none.
fn elect_stat(v: &Vec<Stat>) -> (r: Stat)
    ensures
        r == elect(v@),
{
    let mut best: Stat = (Cell::Dead, 0, 0);
    let mut i: usize = v.len();
    assert(v@.skip(i as int) =~= Seq::<Stat>::empty());
    while i > 0
        invariant
            i <= v@.len(),
            best == elect(v@.skip(i as int)),
        decreases i,
    {
        let e = v[i - 1];
        assert(v@.skip(i - 1).drop_first() =~= v@.skip(i as int));
        if !(i < v.len() && (best.1 as u16 + best.2 as u16) > (e.1 as u16 + e.2 as u16)) {
            best = e;
        }
        i = i - 1;
    }
    assert(v@.skip(0) =~= v@);
    best
}

/// The entry of species `c`, or `c` with nothing counted where there is none.
fn own_stat(v: &Vec<Stat>, c: Cell) -> (r: Stat)
    ensures
        r == find_own(v@, c),
{
    let mut found: Stat = (c, 0, 0);
    let mut i: usize = v.len();
    assert(v@.skip(i as int) =~= Seq::<Stat>::empty());
    while i > 0
        invariant
            i <= v@.len(),
            found == find_own(v@.skip(i as int), c),
        decreases i,
    {
        assert(v@.skip(i - 1).drop_first() =~= v@.skip(i as int));
        if v[i - 1].0 == c {
            found = v[i - 1];
        }
        i = i - 1;
    }
    assert(v@.skip(0) =~= v@);
    found
}

impl Universe {
    /// The neighbourhood statistic of (`row`, `column`) for a cell in state
    /// `cell`: the species counts among the eight wrapped neighbours, sorted by
    /// population, one pass of predation, then for a dead cell the strongest
    /// candidate and for a live one its own species.
    pub fn neighbor_friendliness(&self, cell: Cell, row: u32, column: u32) -> (r: Stat)
        requires
            self.wf(),
            row < self.spec_height(),
            column < self.spec_width(),
        ensures
            r == friendliness(self.spec_cells(), self.spec_width(), self.spec_height(), row as nat, column as nat, cell),
    {
        let row_above = if row == 0 { self.height - 1 } else { row - 1 };
        let row_below = if row >= self.height - 1 { 0 } else { row + 1 };
        let column_left = if column == 0 { self.width - 1 } else { column - 1 };
        let column_right = if column >= self.width - 1 { 0 } else { column + 1 };

        let mut nr: u8 = 0;
        let mut ng: u8 = 0;
        let mut nb: u8 = 0;
        self.tally_row(row, column, row_above, column_left, column_right, &mut nr, &mut ng, &mut nb);
        self.tally_row(row, column, row, column_left, column_right, &mut nr, &mut ng, &mut nb);
        self.tally_row(row, column, row_below, column_left, column_right, &mut nr, &mut ng, &mut nb);

        let mut counts: Vec<Stat> = Vec::new();
        if nr > 0 {
            counts.push((Cell::Red, nr, 0));
        }
        if ng > 0 {
            counts.push((Cell::Green, ng, 0));
        }
        if nb > 0 {
            counts.push((Cell::Blue, nb, 0));
        }
        assert(counts@ =~= present(nr, ng, nb));
        assert(all_live(counts@));

        let mut sorted = sort_stats(&counts);
        proof {
            lemma_sort_keeps(counts@);
        }
        predate(&mut sorted);

        if cell == Cell::Dead {
            elect_stat(&sorted)
        } else {
            own_stat(&sorted, cell)
        }
    }
}

/// Whether one of the first `n` coordinates addresses index `i` of a grid
/// `w` cells wide.
pub open spec fn is_listed(coords: Seq<(u32, u32)>, n: int, w: nat, i: int) -> bool {
    exists|k: int| 0 <= k < n && #[trigger] coord_index(coords[k], w) == i
}

/// The row-major index of a (row, column) pair.
pub open spec fn coord_index(p: (u32, u32), w: nat) -> int {
    p.0 * w + p.1
}

/// A vector of `n` dead cells.
fn dead_cells(n: u32) -> (r: Vec<Cell>)
    ensures
        r@ == all_dead(n as nat),
{
    let mut r: Vec<Cell> = Vec::new();
    let mut i: u32 = 0;
    while i < n
        invariant
            i <= n,
            r@ == all_dead(i as nat),
        decreases n - i,
    {
        r.push(Cell::Dead);
        i = i + 1;
        assert(r@ =~= all_dead(i as nat));
    }
    r
}

impl Universe {
    /// The next generation, computed cell by cell from the current one.
    fn next_cells(&self) -> (r: Vec<Cell>)
        requires
            self.wf(),
        ensures
            r@ == next_generation(self.spec_cells(), self.spec_width(), self.spec_height()),
    {
        let ghost w = self.spec_width();
        let ghost h = self.spec_height();
        let ghost cells = self.spec_cells();
        let mut next: Vec<Cell> = Vec::new();
        let mut row: u32 = 0;
        while row < self.height
            invariant
                self.wf(),
                w == self.spec_width(),
                h == self.spec_height(),
                cells == self.spec_cells(),
                row <= h,
                next@.len() == row * w,
                forall|i: int| 0 <= i < next@.len() ==> #[trigger] next@[i] == next_at(cells, w, h, i),
            decreases h - row,
        {
            let mut col: u32 = 0;
            while col < self.width
                invariant
                    self.wf(),
                    w == self.spec_width(),
                    h == self.spec_height(),
                    cells == self.spec_cells(),
                    row < h,
                    col <= w,
                    next@.len() == row * w + col,
                    forall|i: int| 0 <= i < next@.len() ==> #[trigger] next@[i] == next_at(cells, w, h, i),
                decreases w - col,
            {
                let idx = self.get_index(row, col);
                let cell = self.cells[idx];
                let (candidate, friendly, food) = self.neighbor_friendliness(cell, row, col);
                let friendly = friendly as u16;
                let food = food as u16;
                let next_cell = if cell == Cell::Dead && friendly == 3 {
                    candidate
                } else if cell == Cell::Dead && friendly > 0 && food > 0 {
                    candidate
                } else if friendly + food < 2 {
                    Cell::Dead
                } else if friendly == 2 || friendly == 3 {
                    cell
                } else if food > 0 {
                    cell
                } else if friendly > 3 {
                    Cell::Dead
                } else {
                    cell
                };
                proof {
                    lemma_fundamental_div_mod_converse(idx as int, w as int, row as int, col as int);
                }
                next.push(next_cell);
                col = col + 1;
            }
            assert(next@.len() == (row + 1) * w) by (nonlinear_arith)
                requires
                    next@.len() == row * w + w,
            ;
            row = row + 1;
        }
        assert(next@.len() == cells.len()) by (nonlinear_arith)
            requires
                next@.len() == row * w,
                row == h,
                cells.len() == w * h,
        ;
        assert(next@ =~= next_generation(cells, w, h));
        next
    }

    /// Advances every cell one generation under the food-chain rule.
    pub fn tick(&mut self)
        requires
            old(self).wf(),
        ensures
            final(self).wf(),
            final(self).spec_width() == old(self).spec_width(),
            final(self).spec_height() == old(self).spec_height(),
            final(self).spec_cells() == next_generation(
                old(self).spec_cells(),
                old(self).spec_width(),
                old(self).spec_height(),
            ),
    {
        let next = self.next_cells();
        self.cells = next;
    }

    /// A `width` by `height` universe of dead cells. Zero dimensions, and a
    /// cell count beyond `u32`, are refused.
    pub fn new(width: u32, height: u32) -> (r: Result<Universe, GridError>)
        ensures
            (width == 0 || height == 0 || width * height > u32::MAX) <==> r is Err,
            r is Err ==> r == Err::<Universe, GridError>(GridError::InvalidDimension),
            r matches Ok(u) ==> {
                &&& u.wf()
                &&& u.spec_width() == width
                &&& u.spec_height() == height
                &&& u.spec_cells() == all_dead((width * height) as nat)
            },
    {
        if width == 0 || height == 0 {
            return Err(GridError::InvalidDimension);
        }
        let count = match width.checked_mul(height) {
            Some(n) => n,
            None => return Err(GridError::InvalidDimension),
        };
        let cells = dead_cells(count);
        Ok(Universe { width, height, cells })
    }

    /// Gives the universe new dimensions, all cells dead. Zero dimensions, and
    /// a cell count beyond `u32`, are refused and leave it as it was.
    pub fn resize(&mut self, width: u32, height: u32) -> (r: Result<(), GridError>)
        requires
            old(self).wf(),
        ensures
            final(self).wf(),
            (width == 0 || height == 0 || width * height > u32::MAX) <==> r is Err,
            r is Err ==> r == Err::<(), GridError>(GridError::InvalidDimension) && *final(self) == *old(self),
            r is Ok ==> {
                &&& final(self).spec_width() == width
                &&& final(self).spec_height() == height
                &&& final(self).spec_cells() == all_dead((width * height) as nat)
            },
    {
        if width == 0 || height == 0 {
            return Err(GridError::InvalidDimension);
        }
        let count = match width.checked_mul(height) {
            Some(n) => n,
            None => return Err(GridError::InvalidDimension),
        };
        self.cells = dead_cells(count);
        self.width = width;
        self.height = height;
        Ok(())
    }

    /// Sets every cell dead.
    pub fn clear_cells(&mut self)
        requires
            old(self).wf(),
        ensures
            final(self).wf(),
            final(self).spec_width() == old(self).spec_width(),
            final(self).spec_height() == old(self).spec_height(),
            final(self).spec_cells() == all_dead(old(self).spec_width() * old(self).spec_height()),
    {
        self.cells = dead_cells(self.width * self.height);
    }

    /// Moves the cell at (`row`, `column`) one step along Dead, Red, Green,
    /// Blue, Dead. A coordinate outside the grid is refused.
    pub fn toggle_cell(&mut self, row: u32, column: u32) -> (r: Result<(), GridError>)
        requires
            old(self).wf(),
        ensures
            final(self).wf(),
            final(self).spec_width() == old(self).spec_width(),
            final(self).spec_height() == old(self).spec_height(),
            (row >= old(self).spec_height() || column >= old(self).spec_width()) <==> r is Err,
            r is Err ==> r == Err::<(), GridError>(GridError::IndexOutOfRange) && *final(self) == *old(self),
            r is Ok ==> final(self).spec_cells() == old(self).spec_cells().update(
                old(self).spec_index(row as nat, column as nat) as int,
                toggled(old(self).spec_cells()[old(self).spec_index(row as nat, column as nat) as int]),
            ),
    {
        if row >= self.height || column >= self.width {
            return Err(GridError::IndexOutOfRange);
        }
        let idx = self.get_index(row, column);
        let mut cell = self.cells[idx];
        cell.toggle();
        self.cells.set(idx, cell);
        Ok(())
    }

    pub fn width(&self) -> (r: u32)
        ensures
            r == self.spec_width(),
    {
        self.width
    }

    pub fn height(&self) -> (r: u32)
        ensures
            r == self.spec_height(),
    {
        self.height
    }

    /// The cells, row by row.
    pub fn get_cells(&self) -> (r: &[Cell])
        ensures
            r@ == self.spec_cells(),
    {
        self.cells.as_slice()
    }

    /// Sets each listed cell to Red. If any coordinate lies outside the grid,
    /// nothing is changed and the call is refused.
    pub fn set_cells(&mut self, cells: &[(u32, u32)]) -> (r: Result<(), GridError>)
        requires
            old(self).wf(),
        ensures
            final(self).wf(),
            final(self).spec_width() == old(self).spec_width(),
            final(self).spec_height() == old(self).spec_height(),
            (exists|k: int|
                0 <= k < cells@.len() && (#[trigger] cells@[k].0 >= old(self).spec_height() || cells@[k].1
                    >= old(self).spec_width())) <==> r is Err,
            r is Err ==> r == Err::<(), GridError>(GridError::IndexOutOfRange) && *final(self) == *old(self),
            r is Ok ==> final(self).spec_cells().len() == old(self).spec_cells().len(),
            r is Ok ==> forall|i: int|
                0 <= i < old(self).spec_cells().len() ==> #[trigger] final(self).spec_cells()[i] == if is_listed(
                    cells@,
                    cells@.len() as int,
                    old(self).spec_width(),
                    i,
                ) {
                    Cell::Red
                } else {
                    old(self).spec_cells()[i]
                },
    {
        let mut j: usize = 0;
        while j < cells.len()
            invariant
                self.wf(),
                *self == *old(self),
                j <= cells@.len(),
                forall|k: int|
                    0 <= k < j ==> #[trigger] cells@[k].0 < self.spec_height() && cells@[k].1 < self.spec_width(),
            decreases cells@.len() - j,
        {
            let (row, column) = cells[j];
            if row >= self.height || column >= self.width {
                return Err(GridError::IndexOutOfRange);
            }
            j = j + 1;
        }
        let ghost before = self.spec_cells();
        let ghost w = self.spec_width();
        let mut j: usize = 0;
        while j < cells.len()
            invariant
                self.wf(),
                j <= cells@.len(),
                w == self.spec_width(),
                self.spec_width() == old(self).spec_width(),
                self.spec_height() == old(self).spec_height(),
                before == old(self).spec_cells(),
                self.spec_cells().len() == before.len(),
                forall|k: int|
                    0 <= k < cells@.len() ==> #[trigger] cells@[k].0 < self.spec_height() && cells@[k].1 < self.spec_width(),
                forall|i: int|
                    0 <= i < before.len() ==> #[trigger] self.spec_cells()[i] == if is_listed(cells@, j as int, w, i) {
                        Cell::Red
                    } else {
                        before[i]
                    },
            decreases cells@.len() - j,
        {
            let (row, column) = cells[j];
            let idx = self.get_index(row, column);
            self.cells.set(idx, Cell::Red);
            proof {
                assert(coord_index(cells@[j as int], w) == idx);
                assert forall|i: int| 0 <= i < before.len() implies #[trigger] self.spec_cells()[i] == if is_listed(
                    cells@,
                    j + 1,
                    w,
                    i,
                ) {
                    Cell::Red
                } else {
                    before[i]
                } by {
                    if i != idx {
                        if is_listed(cells@, j + 1, w, i) {
                            let k = choose|k: int| 0 <= k < j + 1 && #[trigger] coord_index(cells@[k], w) == i;
                            assert(k != j);
                            assert(is_listed(cells@, j as int, w, i));
                        }
                        if is_listed(cells@, j as int, w, i) {
                            let k = choose|k: int| 0 <= k < j && #[trigger] coord_index(cells@[k], w) == i;
                            assert(is_listed(cells@, j + 1, w, i));
                        }
                    } else {
                        assert(is_listed(cells@, j + 1, w, i));
                    }
                }
            }
            j = j + 1;
        }
        Ok(())
    }

    /// Fills the grid from draws numbered as the cell states are (Dead, Red,
    /// Green, Blue), one draw per cell in row-major order.
    pub fn randomise(&mut self, draws: &[u8])
        requires
            old(self).wf(),
            draws@.len() == old(self).spec_cells().len(),
            forall|i: int| 0 <= i < draws@.len() ==> #[trigger] draws@[i] < 4,
        ensures
            final(self).wf(),
            final(self).spec_width() == old(self).spec_width(),
            final(self).spec_height() == old(self).spec_height(),
            final(self).spec_cells() == Seq::new(draws@.len(), |i: int| cell_of_index(draws@[i] as int)),
    {
        let mut next: Vec<Cell> = Vec::new();
        let mut i: usize = 0;
        while i < draws.len()
            invariant
                i <= draws@.len(),
                forall|k: int| 0 <= k < draws@.len() ==> #[trigger] draws@[k] < 4,
                next@ == Seq::new(i as nat, |k: int| cell_of_index(draws@[k] as int)),
            decreases draws@.len() - i,
        {
            match Cell::from_index(draws[i]) {
                Some(c) => next.push(c),
                None => next.push(Cell::Dead),
            }
            i = i + 1;
            assert(next@ =~= Seq::new(i as nat, |k: int| cell_of_index(draws@[k] as int)));
        }
        self.cells = next;
    }
}

/// Each species' food is another species, and the three form a cycle: taking
/// the food three times returns to the start, the foe of one's food is oneself
/// (so never the food itself), and `foe` walks the cycle backwards.
pub proof fn lemma_food_chain_cycle(x: Cell)
    requires
        x != Cell::Dead,
    ensures
        food_of(x) != Cell::Dead,
        food_of(x) != x,
        foe_of(food_of(x)) != food_of(x),
        food_of(food_of(food_of(x))) == x,
        foe_of(food_of(x)) == x,
        food_of(foe_of(x)) == x,
{
}

/// Toggling walks Dead, Red, Green, Blue and back to Dead: four toggles
/// return any cell to where it started.
pub proof fn lemma_toggle_cycle(c: Cell)
    ensures
        toggled(Cell::Dead) == Cell::Red,
        toggled(Cell::Red) == Cell::Green,
        toggled(Cell::Green) == Cell::Blue,
        toggled(Cell::Blue) == Cell::Dead,
        toggled(toggled(toggled(toggled(c)))) == c,
{
}

/// Two universes with the same dimensions and the same cells tick to the
/// same next generation.
pub proof fn lemma_tick_deterministic(a: Universe, b: Universe)
    requires
        a.wf(),
        b.wf(),
        a.spec_width() == b.spec_width(),
        a.spec_height() == b.spec_height(),
        a.spec_cells() == b.spec_cells(),
    ensures
        next_generation(a.spec_cells(), a.spec_width(), a.spec_height()) == next_generation(
            b.spec_cells(),
            b.spec_width(),
            b.spec_height(),
        ),
{
}

/// Clearing a cleared universe changes nothing: both give the same all-dead
/// cells.
pub proof fn lemma_clear_idempotent(a: Universe, b: Universe)
    requires
        a.wf(),
        b.wf(),
        a.spec_width() == b.spec_width(),
        a.spec_height() == b.spec_height(),
        a.spec_cells() == all_dead(a.spec_width() * a.spec_height()),
        b.spec_cells() == all_dead(b.spec_width() * b.spec_height()),
    ensures
        a.spec_cells() == b.spec_cells(),
        forall|i: int| 0 <= i < a.spec_cells().len() ==> #[trigger] a.spec_cells()[i] == Cell::Dead,
{
}

/// With a single coordinate (`r`, `c`) listed, exactly its own index is
/// addressed: `set_cells` makes that cell Red and leaves every other one.
pub proof fn lemma_set_single(coords: Seq<(u32, u32)>, r: u32, c: u32, w: nat, h: nat)
    requires
        coords == seq![(r, c)],
        r < h,
        c < w,
    ensures
        forall|i: int| 0 <= i < w * h ==> (is_listed(coords, 1, w, i) <==> i == r * w + c),
{
    assert(coord_index(coords[0], w) == r * w + c);
}

/// The diagnostic line for the cell at (`r`, `c`) in state `cell` with
/// neighbourhood statistic `st`.
pub open spec fn stats_text(r: u32, c: u32, cell: Cell, st: Stat) -> Seq<char> {
    "("@ + decimal(r as nat) + ","@ + decimal(c as nat) + ") "@ + cell_name(cell) + " - Candidate: "@
        + cell_name(st.0) + ", Friendliness: "@ + decimal(st.1 as nat) + ", Food: "@ + decimal(
        st.2 as nat,
    )
}

impl Universe {
    /// A readable line giving the cell at (`row`, `column`), its state, and its
    /// neighbourhood statistic.
    pub fn get_cell_stats(&self, row: u32, column: u32) -> (r: String)
        requires
            self.wf(),
            row < self.spec_height(),
            column < self.spec_width(),
        ensures
            ({
                let cell = self.spec_cells()[self.spec_index(row as nat, column as nat) as int];
                r@ == stats_text(
                    row,
                    column,
                    cell,
                    friendliness(self.spec_cells(), self.spec_width(), self.spec_height(), row as nat, column as nat, cell),
                )
            }),
    {
        let cell = self.cells[self.get_index(row, column)];
        let st = self.neighbor_friendliness(cell, row, column);
        let s = String::from_str("(");
        let s = push_decimal(s, row);
        let s = s.concat(",");
        let s = push_decimal(s, column);
        let s = s.concat(") ");
        let s = s.concat(cell.to_string().as_str());
        let s = s.concat(" - Candidate: ");
        let s = s.concat(st.0.to_string().as_str());
        let s = s.concat(", Friendliness: ");
        let s = push_decimal(s, st.1 as u32);
        let s = s.concat(", Food: ");
        push_decimal(s, st.2 as u32)
    }

    /// The cells, row by row, for a renderer that reads them in place.
    pub fn cells(&self) -> (r: &[Cell])
        ensures
            r@ == self.spec_cells(),
    {
        self.cells.as_slice()
    }
}

} // verus!

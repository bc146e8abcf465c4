use vstd::prelude::*;

use crate::account::AccountIndex;
use crate::errors::PlaceError;

verus! {

/// Number of cells in one board row.
pub const BOARD_WIDTH: u32 = 50;
/// Number of rows on the board.
pub const BOARD_HEIGHT: u32 = 50;
/// Fixed total cell count of the board.
pub const TOTAL_NUM_PIXELS: u32 = BOARD_WIDTH * BOARD_HEIGHT;
/// Largest representable color value (24-bit RGB).
pub const MAX_COLOR: u32 = 0xff_ff_ff;
/// Color of an untouched cell.
pub const DEFAULT_COLOR: u32 = 0xff_ff_ff;

/// One board cell: a color and the index of the owning account. The owner
/// index is a weak back-reference into the account table, never ownership.
#[derive(Clone, Copy, Debug, PartialEq, Eq, Structural)]
pub struct Pixel {
    pub color: u32,
    pub owner_id: AccountIndex,
}

impl Default for Pixel {
    /// An untouched cell: background color, owned by the bootstrap account.
    fn default() -> (r: Self)
        ensures
            r == (Pixel { color: DEFAULT_COLOR, owner_id: 0u32 }),
    {
        Pixel { color: DEFAULT_COLOR, owner_id: 0 }
    }
}

/// One board row.
pub struct PixelLine(pub Vec<Pixel>);

impl View for PixelLine {
    type V = Seq<Pixel>;

    open spec fn view(&self) -> Seq<Pixel> {
        self.0@
    }
}

impl Clone for PixelLine {
    fn clone(&self) -> (r: Self)
        ensures
            r@ == self@,
    {
        let r = PixelLine(self.0.clone());
        proof {
            assert(r@ =~= self@);
        }
        r
    }
}

impl Default for PixelLine {
    /// A full row of untouched cells.
    fn default() -> (r: Self)
        ensures
            r@.len() == BOARD_WIDTH,
            forall|x: int|
                0 <= x < BOARD_WIDTH ==> r@[x] == (Pixel { color: DEFAULT_COLOR, owner_id: 0u32 }),
    {
        let mut cells: Vec<Pixel> = Vec::new();
        let mut x: u32 = 0;
        while x < BOARD_WIDTH
            invariant
                x <= BOARD_WIDTH,
                cells@.len() == x,
                forall|i: int|
                    0 <= i < x ==> cells@[i] == (Pixel { color: DEFAULT_COLOR, owner_id: 0u32 }),
            decreases BOARD_WIDTH - x,
        {
            cells.push(Pixel { color: DEFAULT_COLOR, owner_id: 0 });
            x = x + 1;
        }
        PixelLine(cells)
    }
}

/// A request to paint the cell at column `x` of row `y` with `color`.
#[derive(Clone, Copy, Debug, PartialEq, Eq, Structural)]
pub struct SetPixelRequest {
    pub x: u32,
    pub y: u32,
    pub color: u32,
}

impl SetPixelRequest {
    /// Whether the coordinates lie on the board and the color is
    /// representable.
    pub open spec fn valid(self) -> bool {
        &&& self.x < BOARD_WIDTH
        &&& self.y < BOARD_HEIGHT
        &&& self.color <= MAX_COLOR
    }

    /// Checks coordinates and color range.
    pub fn assert_valid(&self) -> (r: Result<(), PlaceError>)
        ensures
            match r {
                Ok(()) => self.valid(),
                Err(e) => !self.valid() && e == PlaceError::ValidationFailure,
            },
    {
        if self.x >= BOARD_WIDTH {
            return Err(PlaceError::ValidationFailure);
        }
        if self.y >= BOARD_HEIGHT {
            return Err(PlaceError::ValidationFailure);
        }
        if self.color > MAX_COLOR {
            return Err(PlaceError::ValidationFailure);
        }
        Ok(())
    }
}

/// How many cells of row `s` are owned by account index `owner`.
pub open spec fn count_line(s: Seq<Pixel>, owner: int) -> int
    decreases s.len(),
{
    if s.len() == 0 {
        0
    } else {
        count_line(s.drop_last(), owner) + if (s.last().owner_id as int) == owner {
            1int
        } else {
            0int
        }
    }
}

/// How many cells of the whole grid `g` are owned by account index `owner`.
pub open spec fn count_grid(g: Seq<Seq<Pixel>>, owner: int) -> int
    decreases g.len(),
{
    if g.len() == 0 {
        0
    } else {
        count_grid(g.drop_last(), owner) + count_line(g.last(), owner)
    }
}

pub proof fn lemma_count_line_bounds(s: Seq<Pixel>, owner: int)
    ensures
        0 <= count_line(s, owner) <= s.len(),
    decreases s.len(),
{
    if s.len() > 0 {
        lemma_count_line_bounds(s.drop_last(), owner);
    }
}

pub proof fn lemma_count_grid_bounds(g: Seq<Seq<Pixel>>, owner: int)
    requires
        forall|y: int| 0 <= y < g.len() ==> (#[trigger] g[y]).len() == BOARD_WIDTH,
    ensures
        0 <= count_grid(g, owner) <= g.len() * BOARD_WIDTH,
    decreases g.len(),
{
    if g.len() > 0 {
        assert(forall|y: int|
            0 <= y < g.drop_last().len() ==> (#[trigger] g.drop_last()[y]).len() == BOARD_WIDTH);
        lemma_count_grid_bounds(g.drop_last(), owner);
        lemma_count_line_bounds(g.last(), owner);
        assert((g.len() - 1) * BOARD_WIDTH + BOARD_WIDTH == g.len() * BOARD_WIDTH)
            by (nonlinear_arith);
    }
}

pub proof fn lemma_count_line_update(s: Seq<Pixel>, j: int, p: Pixel, owner: int)
    requires
        0 <= j < s.len(),
    ensures
        count_line(s.update(j, p), owner) == count_line(s, owner) - (if (s[j].owner_id as int)
            == owner {
            1int
        } else {
            0int
        }) + (if (p.owner_id as int) == owner {
            1int
        } else {
            0int
        }),
    decreases s.len(),
{
    let t = s.update(j, p);
    if j == s.len() - 1 {
        assert(t.drop_last() =~= s.drop_last());
        assert(t.last() == p);
    } else {
        assert(t.drop_last() =~= s.drop_last().update(j, p));
        assert(t.last() == s.last());
        lemma_count_line_update(s.drop_last(), j, p, owner);
    }
}

pub proof fn lemma_count_grid_update(g: Seq<Seq<Pixel>>, y: int, x: int, p: Pixel, owner: int)
    requires
        0 <= y < g.len(),
        0 <= x < g[y].len(),
    ensures
        count_grid(g.update(y, g[y].update(x, p)), owner) == count_grid(g, owner) - (if (g[y][x].owner_id
            as int) == owner {
            1int
        } else {
            0int
        }) + (if (p.owner_id as int) == owner {
            1int
        } else {
            0int
        }),
    decreases g.len(),
{
    let t = g.update(y, g[y].update(x, p));
    if y == g.len() - 1 {
        assert(t.drop_last() =~= g.drop_last());
        assert(t.last() == g[y].update(x, p));
        lemma_count_line_update(g[y], x, p, owner);
    } else {
        assert(t.drop_last() =~= g.drop_last().update(y, g.drop_last()[y].update(x, p)));
        assert(t.last() == g.last());
        lemma_count_grid_update(g.drop_last(), y, x, p, owner);
    }
}

pub proof fn lemma_count_line_all(s: Seq<Pixel>, o: int)
    requires
        forall|x: int| 0 <= x < s.len() ==> (#[trigger] s[x].owner_id as int) == o,
    ensures
        count_line(s, o) == s.len(),
    decreases s.len(),
{
    if s.len() > 0 {
        assert(forall|x: int|
            0 <= x < s.drop_last().len() ==> (#[trigger] s.drop_last()[x].owner_id as int) == o);
        lemma_count_line_all(s.drop_last(), o);
    }
}

/// An account index that owns every cell owns all of them.
pub proof fn lemma_count_grid_all(g: Seq<Seq<Pixel>>, o: int)
    requires
        forall|y: int| 0 <= y < g.len() ==> (#[trigger] g[y]).len() == BOARD_WIDTH,
        forall|y: int, x: int|
            0 <= y < g.len() && 0 <= x < g[y].len() ==> (#[trigger] g[y][x].owner_id as int) == o,
    ensures
        count_grid(g, o) == g.len() * BOARD_WIDTH,
    decreases g.len(),
{
    if g.len() > 0 {
        assert(forall|y: int|
            0 <= y < g.drop_last().len() ==> (#[trigger] g.drop_last()[y]).len() == BOARD_WIDTH);
        assert(forall|y: int, x: int|
            0 <= y < g.drop_last().len() && 0 <= x < g.drop_last()[y].len() ==> (
            #[trigger] g.drop_last()[y][x].owner_id as int) == o);
        lemma_count_grid_all(g.drop_last(), o);
        assert(forall|x: int|
            0 <= x < g.last().len() ==> (#[trigger] g.last()[x].owner_id as int) == o) by {
            assert(forall|x: int|
                0 <= x < g[g.len() - 1].len() ==> (#[trigger] g[g.len() - 1][x].owner_id as int)
                    == o);
        }
        lemma_count_line_all(g.last(), o);
        assert((g.len() - 1) * BOARD_WIDTH + BOARD_WIDTH == g.len() * BOARD_WIDTH)
            by (nonlinear_arith);
    }
}

pub proof fn lemma_count_line_zero(s: Seq<Pixel>, n: int, o: int)
    requires
        forall|x: int| 0 <= x < s.len() ==> (#[trigger] s[x].owner_id as int) < n,
        o >= n,
    ensures
        count_line(s, o) == 0,
    decreases s.len(),
{
    if s.len() > 0 {
        assert(forall|x: int|
            0 <= x < s.drop_last().len() ==> (#[trigger] s.drop_last()[x].owner_id as int) < n);
        lemma_count_line_zero(s.drop_last(), n, o);
    }
}

/// An account index that no cell refers to owns no cells.
pub proof fn lemma_count_grid_zero(g: Seq<Seq<Pixel>>, n: int, o: int)
    requires
        grid_owners_below(g, n),
        o >= n,
    ensures
        count_grid(g, o) == 0,
    decreases g.len(),
{
    if g.len() > 0 {
        assert(forall|y: int, x: int|
            0 <= y < g.drop_last().len() && 0 <= x < g.drop_last()[y].len() ==> (
            #[trigger] g.drop_last()[y][x].owner_id as int) < n);
        lemma_count_grid_zero(g.drop_last(), n, o);
        assert(forall|x: int|
            0 <= x < g.last().len() ==> (#[trigger] g.last()[x].owner_id as int) < n) by {
            assert(forall|x: int|
                0 <= x < g[g.len() - 1].len() ==> (#[trigger] g[g.len() - 1][x].owner_id as int)
                    < n);
        }
        lemma_count_line_zero(g.last(), n, o);
    }
}

/// The grid after the batch `reqs` was painted with owner `owner`, request
/// by request in order.
pub open spec fn grid_after(
    g: Seq<Seq<Pixel>>,
    owner: AccountIndex,
    reqs: Seq<SetPixelRequest>,
) -> Seq<Seq<Pixel>>
    decreases reqs.len(),
{
    if reqs.len() == 0 {
        g
    } else {
        let prev = grid_after(g, owner, reqs.drop_last());
        let r = reqs.last();
        prev.update(
            r.y as int,
            prev[r.y as int].update(r.x as int, Pixel { color: r.color, owner_id: owner }),
        )
    }
}

/// How many of the cells painted by `reqs` were owned by account index `o`
/// at the moment they were overwritten. A cell painted twice in one batch
/// is counted once for its original owner and once for `owner` itself.
pub open spec fn delta_count(
    g: Seq<Seq<Pixel>>,
    owner: AccountIndex,
    reqs: Seq<SetPixelRequest>,
    o: int,
) -> int
    decreases reqs.len(),
{
    if reqs.len() == 0 {
        0
    } else {
        let prev = grid_after(g, owner, reqs.drop_last());
        let r = reqs.last();
        delta_count(g, owner, reqs.drop_last(), o) + if (prev[r.y as int][r.x as int].owner_id
            as int) == o {
            1int
        } else {
            0int
        }
    }
}

/// Whether the grid has the fixed board shape.
pub open spec fn grid_shaped(g: Seq<Seq<Pixel>>) -> bool {
    &&& g.len() == BOARD_HEIGHT
    &&& forall|y: int| 0 <= y < g.len() ==> (#[trigger] g[y]).len() == BOARD_WIDTH
}

/// Whether every cell owner index of `g` lies below `n`.
pub open spec fn grid_owners_below(g: Seq<Seq<Pixel>>, n: int) -> bool {
    forall|y: int, x: int|
        0 <= y < g.len() && 0 <= x < g[y].len() ==> (#[trigger] g[y][x].owner_id as int) < n
}

/// Whether every cell color of `g` is representable.
pub open spec fn grid_colors_ok(g: Seq<Seq<Pixel>>) -> bool {
    forall|y: int, x: int|
        0 <= y < g.len() && 0 <= x < g[y].len() ==> (#[trigger] g[y][x].color) <= MAX_COLOR
}

/// Whether some request of `reqs` paints a cell of row `y`.
pub open spec fn row_touched(reqs: Seq<SetPixelRequest>, y: int) -> bool {
    exists|i: int| 0 <= i < reqs.len() && (#[trigger] reqs[i].y as int) == y
}

/// Painting a batch preserves the grid shape and leaves untouched rows
/// unchanged.
pub proof fn lemma_grid_after_shape(
    g: Seq<Seq<Pixel>>,
    owner: AccountIndex,
    reqs: Seq<SetPixelRequest>,
)
    requires
        grid_shaped(g),
        forall|i: int| 0 <= i < reqs.len() ==> (#[trigger] reqs[i]).valid(),
    ensures
        grid_shaped(grid_after(g, owner, reqs)),
        forall|y: int|
            0 <= y < BOARD_HEIGHT && !row_touched(reqs, y) ==> #[trigger] grid_after(
                g,
                owner,
                reqs,
            )[y] == g[y],
    decreases reqs.len(),
{
    if reqs.len() > 0 {
        assert(forall|i: int| 0 <= i < reqs.drop_last().len() ==> (#[trigger] reqs.drop_last()[i]).valid());
        lemma_grid_after_shape(g, owner, reqs.drop_last());
        let prev = grid_after(g, owner, reqs.drop_last());
        let r = reqs.last();
        assert(r.valid());
        assert forall|y: int|
            0 <= y < BOARD_HEIGHT && !row_touched(reqs, y) implies #[trigger] grid_after(
            g,
            owner,
            reqs,
        )[y] == g[y] by {
            assert(!row_touched(reqs.drop_last(), y));
            assert((r.y as int) != y);
        }
    }
}

/// Painting a batch keeps owner indices below any bound that also covers
/// the new owner, and keeps colors representable.
pub proof fn lemma_grid_after_owners(
    g: Seq<Seq<Pixel>>,
    owner: AccountIndex,
    reqs: Seq<SetPixelRequest>,
    n: int,
)
    requires
        grid_shaped(g),
        grid_owners_below(g, n),
        grid_colors_ok(g),
        (owner as int) < n,
        forall|i: int| 0 <= i < reqs.len() ==> (#[trigger] reqs[i]).valid(),
    ensures
        grid_owners_below(grid_after(g, owner, reqs), n),
        grid_colors_ok(grid_after(g, owner, reqs)),
    decreases reqs.len(),
{
    if reqs.len() > 0 {
        assert(forall|i: int| 0 <= i < reqs.drop_last().len() ==> (#[trigger] reqs.drop_last()[i]).valid());
        lemma_grid_after_owners(g, owner, reqs.drop_last(), n);
        lemma_grid_after_shape(g, owner, reqs.drop_last());
        assert(reqs.last().valid());
    }
}

/// The central counting fact of a batched paint: for every account index
/// `o`, the number of cells it owns afterwards equals what it owned before,
/// minus the cells taken from it, plus (for the new owner only) one cell
/// per request. The taken count never exceeds the batch size.
pub proof fn lemma_delta_counts(
    g: Seq<Seq<Pixel>>,
    owner: AccountIndex,
    reqs: Seq<SetPixelRequest>,
    o: int,
)
    requires
        grid_shaped(g),
        forall|i: int| 0 <= i < reqs.len() ==> (#[trigger] reqs[i]).valid(),
    ensures
        count_grid(grid_after(g, owner, reqs), o) == count_grid(g, o) - delta_count(
            g,
            owner,
            reqs,
            o,
        ) + (if (owner as int) == o {
            reqs.len() as int
        } else {
            0int
        }),
        0 <= delta_count(g, owner, reqs, o) <= reqs.len(),
    decreases reqs.len(),
{
    if reqs.len() > 0 {
        assert(forall|i: int| 0 <= i < reqs.drop_last().len() ==> (#[trigger] reqs.drop_last()[i]).valid());
        lemma_delta_counts(g, owner, reqs.drop_last(), o);
        lemma_grid_after_shape(g, owner, reqs.drop_last());
        let prev = grid_after(g, owner, reqs.drop_last());
        let r = reqs.last();
        assert(r.valid());
        lemma_count_grid_update(prev, r.y as int, r.x as int, Pixel { color: r.color, owner_id: owner }, o);
    }
}

/// The pixel board: a fixed-height sequence of rows, each paired with a
/// version counter that is incremented exactly once whenever any cell of
/// the row changes, so readers can detect stale rows cheaply.
pub struct PixelBoard {
    pub lines: Vec<PixelLine>,
    pub line_versions: Vec<u32>,
}

impl PixelBoard {
    /// The board content as a grid of cells.
    pub open spec fn grid(self) -> Seq<Seq<Pixel>> {
        self.lines@.map_values(|l: PixelLine| l@)
    }

    /// Fixed shape, representable colors, one version counter per row.
    pub open spec fn wf(self) -> bool {
        &&& self.line_versions@.len() == BOARD_HEIGHT
        &&& grid_shaped(self.grid())
        &&& grid_colors_ok(self.grid())
    }

    /// Whether every cell's owner index lies below `n`.
    pub open spec fn owners_below(self, n: int) -> bool {
        grid_owners_below(self.grid(), n)
    }

    /// A fresh board: every cell untouched and owned by the bootstrap
    /// account, every row version zero.
    pub fn new() -> (r: PixelBoard)
        ensures
            r.wf(),
            r.owners_below(1),
            forall|y: int|
                0 <= y < BOARD_HEIGHT ==> r.line_versions@[y] == 0u32,
            forall|y: int, x: int|
                0 <= y < BOARD_HEIGHT && 0 <= x < BOARD_WIDTH ==> r.grid()[y][x] == (Pixel {
                    color: DEFAULT_COLOR,
                    owner_id: 0u32,
                }),
    {
        let mut lines: Vec<PixelLine> = Vec::new();
        let mut line_versions: Vec<u32> = Vec::new();
        let mut y: u32 = 0;
        while y < BOARD_HEIGHT
            invariant
                y <= BOARD_HEIGHT,
                lines@.len() == y,
                line_versions@.len() == y,
                forall|j: int| 0 <= j < y ==> line_versions@[j] == 0u32,
                forall|j: int| 0 <= j < y ==> (#[trigger] lines@[j])@.len() == BOARD_WIDTH,
                forall|j: int, x: int|
                    0 <= j < y && 0 <= x < BOARD_WIDTH ==> lines@[j]@[x] == (Pixel {
                        color: DEFAULT_COLOR,
                        owner_id: 0u32,
                    }),
            decreases BOARD_HEIGHT - y,
        {
            lines.push(PixelLine::default());
            line_versions.push(0);
            y = y + 1;
        }
        let r = PixelBoard { lines, line_versions };
        r
    }

    /// A copy of the row at `index`.
    pub fn get_line(&self, index: u32) -> (r: PixelLine)
        requires
            self.wf(),
            index < BOARD_HEIGHT,
        ensures
            r@ == self.grid()[index as int],
    {
        self.lines[index as usize].clone()
    }

    /// Paints a batch of cells for `new_owner_id` and reports, per previous
    /// owner index, how many cells were taken over. All requests are
    /// validated, and every row version that the batch would touch is
    /// checked for headroom, before anything is painted: on `Err` the board
    /// is untouched. Each touched row's version rises by exactly one, no
    /// matter how many of its cells changed. The count reported for
    /// `new_owner_id` itself includes its own overwritten cells, so a
    /// caller adjusting ownership tallies must subtract it rather than
    /// count those cells twice.
    pub fn set_pixels(
        &mut self,
        new_owner_id: AccountIndex,
        pixels: &Vec<SetPixelRequest>,
        num_owners: u32,
    ) -> (r: Result<Vec<usize>, PlaceError>)
        requires
            old(self).wf(),
            old(self).owners_below(num_owners as int),
            new_owner_id < num_owners,
        ensures
            final(self).wf(),
            final(self).owners_below(num_owners as int),
            match r {
                Ok(deltas) => {
                    &&& forall|i: int| 0 <= i < pixels@.len() ==> (#[trigger] pixels@[i]).valid()
                    &&& final(self).grid() == grid_after(old(self).grid(), new_owner_id, pixels@)
                    &&& forall|y: int|
                        0 <= y < BOARD_HEIGHT ==> final(self).line_versions@[y] == old(
                            self,
                        ).line_versions@[y] + (if row_touched(pixels@, y) {
                            1int
                        } else {
                            0int
                        })
                    &&& deltas@.len() == num_owners as int
                    &&& forall|o: int|
                        0 <= o < num_owners as int ==> deltas@[o] == delta_count(
                            old(self).grid(),
                            new_owner_id,
                            pixels@,
                            o,
                        )
                    &&& forall|o: int|
                        0 <= o < num_owners as int ==> 0 <= #[trigger] deltas@[o] <= pixels@.len()
                    &&& forall|o: int|
                        0 <= o < num_owners as int ==> count_grid(final(self).grid(), o)
                            == count_grid(old(self).grid(), o) - deltas@[o] + (if o == new_owner_id
                            as int {
                            pixels@.len() as int
                        } else {
                            0int
                        })
                },
                Err(e) => {
                    &&& *final(self) == *old(self)
                    &&& (e == PlaceError::ValidationFailure || e == PlaceError::ArithmeticOverflow)
                    &&& (e == PlaceError::ValidationFailure <==> exists|i: int|
                        0 <= i < pixels@.len() && !(#[trigger] pixels@[i]).valid())
                    &&& (e == PlaceError::ArithmeticOverflow <==> ((forall|i: int|
                        0 <= i < pixels@.len() ==> (#[trigger] pixels@[i]).valid()) && exists|y: int|
                        0 <= y < BOARD_HEIGHT && row_touched(pixels@, y) && old(
                            self,
                        ).line_versions@[y] == u32::MAX))
                },
            },
    {
        // Validate every request before mutating anything.
        let mut i: usize = 0;
        while i < pixels.len()
            invariant
                i <= pixels@.len(),
                *self == *old(self),
                self.wf(),
                self.owners_below(num_owners as int),
                forall|j: int| 0 <= j < i ==> (#[trigger] pixels@[j]).valid(),
            decreases pixels@.len() - i,
        {
            match pixels[i].assert_valid() {
                Ok(()) => {},
                Err(e) => {
                    return Err(e);
                },
            }
            i = i + 1;
        }
        // Check version headroom of every touched row before mutating.
        i = 0;
        while i < pixels.len()
            invariant
                i <= pixels@.len(),
                *self == *old(self),
                self.wf(),
                self.owners_below(num_owners as int),
                forall|j: int| 0 <= j < pixels@.len() ==> (#[trigger] pixels@[j]).valid(),
                forall|j: int|
                    0 <= j < i ==> self.line_versions@[#[trigger] pixels@[j].y as int] < u32::MAX,
            decreases pixels@.len() - i,
        {
            let yy = pixels[i].y as usize;
            if self.line_versions[yy] == u32::MAX {
                proof {
                    assert(row_touched(pixels@, pixels@[i as int].y as int));
                }
                return Err(PlaceError::ArithmeticOverflow);
            }
            i = i + 1;
        }
        assert forall|y: int|
            0 <= y < BOARD_HEIGHT && row_touched(pixels@, y) implies self.line_versions@[y]
            < u32::MAX by {
            let j = choose|j: int| 0 <= j < pixels@.len() && (#[trigger] pixels@[j].y as int) == y;
            assert(self.line_versions@[pixels@[j].y as int] < u32::MAX);
        }
        let ghost g0 = self.grid();
        let ghost v0 = self.line_versions@;
        // Paint, tallying previous owners and touched rows.
        let mut deltas: Vec<usize> = Vec::new();
        let mut o: u32 = 0;
        while o < num_owners
            invariant
                o <= num_owners,
                deltas@.len() == o as int,
                forall|j: int| 0 <= j < o ==> deltas@[j] == 0int,
            decreases num_owners - o,
        {
            deltas.push(0);
            o = o + 1;
        }
        let mut touched: Vec<bool> = Vec::new();
        let mut y: u32 = 0;
        while y < BOARD_HEIGHT
            invariant
                y <= BOARD_HEIGHT,
                touched@.len() == y as int,
                forall|j: int| 0 <= j < y ==> touched@[j] == false,
            decreases BOARD_HEIGHT - y,
        {
            touched.push(false);
            y = y + 1;
        }
        i = 0;
        while i < pixels.len()
            invariant
                i <= pixels@.len(),
                forall|j: int| 0 <= j < pixels@.len() ==> (#[trigger] pixels@[j]).valid(),
                new_owner_id < num_owners,
                self.line_versions@ == v0,
                grid_shaped(g0),
                grid_colors_ok(g0),
                grid_owners_below(g0, num_owners as int),
                self.grid() == grid_after(g0, new_owner_id, pixels@.take(i as int)),
                grid_shaped(self.grid()),
                grid_colors_ok(self.grid()),
                grid_owners_below(self.grid(), num_owners as int),
                deltas@.len() == num_owners as int,
                forall|o: int|
                    0 <= o < num_owners as int ==> deltas@[o] == delta_count(
                        g0,
                        new_owner_id,
                        pixels@.take(i as int),
                        o,
                    ),
                touched@.len() == BOARD_HEIGHT,
                forall|j: int|
                    0 <= j < BOARD_HEIGHT ==> touched@[j] == row_touched(
                        pixels@.take(i as int),
                        j,
                    ),
            decreases pixels@.len() - i,
        {
            let r = pixels[i];
            let yy = r.y as usize;
            let xx = r.x as usize;
            let ghost gprev = self.grid();
            let mut row = PixelLine(Vec::new());
            self.lines.set_and_swap(yy, &mut row);
            assert(row@ == gprev[yy as int]);
            assert(row.0@.len() == BOARD_WIDTH);
            let old_px: Pixel = row.0[xx];
            assert(old_px == gprev[yy as int][xx as int]);
            row.0.set(xx, Pixel { color: r.color, owner_id: new_owner_id });
            self.lines.set_and_swap(yy, &mut row);
            proof {
                assert(self.grid() =~= gprev.update(
                    yy as int,
                    gprev[yy as int].update(
                        xx as int,
                        Pixel { color: r.color, owner_id: new_owner_id },
                    ),
                ));
                assert(pixels@.take(i + 1).drop_last() =~= pixels@.take(i as int));
                assert(pixels@.take(i + 1).last() == pixels@[i as int]);
                assert(self.grid() == grid_after(g0, new_owner_id, pixels@.take(i + 1)));
                lemma_grid_after_owners(g0, new_owner_id, pixels@.take(i + 1), num_owners as int);
                lemma_grid_after_shape(g0, new_owner_id, pixels@.take(i + 1));
            }
            let oo = old_px.owner_id as usize;
            assert(oo < num_owners as int);
            let cur = deltas[oo];
            proof {
                lemma_delta_counts(g0, new_owner_id, pixels@.take(i as int), oo as int);
            }
            deltas.set(oo, cur + 1);
            touched.set(yy, true);
            proof {
                assert forall|o: int|
                    0 <= o < num_owners as int implies deltas@[o] == delta_count(
                    g0,
                    new_owner_id,
                    pixels@.take(i + 1),
                    o,
                ) by {
                    assert(pixels@.take(i + 1).drop_last() =~= pixels@.take(i as int));
                }
                assert forall|j: int|
                    0 <= j < BOARD_HEIGHT implies touched@[j] == row_touched(
                    pixels@.take(i + 1),
                    j,
                ) by {
                    if j == yy as int {
                        assert(pixels@.take(i + 1)[i as int].y as int == j);
                    } else if row_touched(pixels@.take(i + 1), j) {
                        let k = choose|k: int|
                            0 <= k < pixels@.take(i + 1).len() && (#[trigger] pixels@.take(
                                i + 1,
                            )[k].y as int) == j;
                        if k < i {
                            assert(pixels@.take(i as int)[k].y as int == j);
                        }
                    } else {
                        if row_touched(pixels@.take(i as int), j) {
                            let k = choose|k: int|
                                0 <= k < pixels@.take(i as int).len() && (#[trigger] pixels@.take(
                                    i as int,
                                )[k].y as int) == j;
                            assert(pixels@.take(i + 1)[k].y as int == j);
                        }
                    }
                }
            }
            i = i + 1;
        }
        proof {
            assert(pixels@.take(pixels@.len() as int) =~= pixels@);
        }
        // Bump each touched row's version exactly once.
        let mut y: usize = 0;
        let ghost lines1 = self.lines@;
        while y < (BOARD_HEIGHT as usize)
            invariant
                y <= BOARD_HEIGHT,
                self.lines@ == lines1,
                v0.len() == BOARD_HEIGHT,
                self.line_versions@.len() == BOARD_HEIGHT,
                touched@.len() == BOARD_HEIGHT,
                forall|j: int| 0 <= j < BOARD_HEIGHT ==> touched@[j] == row_touched(pixels@, j),
                forall|j: int|
                    0 <= j < BOARD_HEIGHT && row_touched(pixels@, j) ==> v0[j] < u32::MAX,
                forall|j: int|
                    0 <= j < y ==> self.line_versions@[j] == v0[j] + (if row_touched(pixels@, j) {
                        1int
                    } else {
                        0int
                    }),
                forall|j: int| y <= j < BOARD_HEIGHT ==> self.line_versions@[j] == v0[j],
            decreases BOARD_HEIGHT - y,
        {
            if touched[y] {
                let v = self.line_versions[y];
                self.line_versions.set(y, v + 1);
            }
            y = y + 1;
        }
        proof {
            assert forall|o: int| 0 <= o < num_owners as int implies 0 <= #[trigger] deltas@[o]
                <= pixels@.len() by {
                lemma_delta_counts(g0, new_owner_id, pixels@, o);
                assert(deltas@[o] == delta_count(g0, new_owner_id, pixels@, o));
            }
            assert forall|o: int| 0 <= o < num_owners as int implies count_grid(self.grid(), o)
                == count_grid(g0, o) - deltas@[o] + (if o == new_owner_id as int {
                pixels@.len() as int
            } else {
                0int
            }) by {
                lemma_delta_counts(g0, new_owner_id, pixels@, o);
                assert(deltas@[o] == delta_count(g0, new_owner_id, pixels@, o));
            }
        }
        Ok(deltas)
    }
}

} // verus!

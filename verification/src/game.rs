//! The minesweeper playfield: grid state, mine placement, adjacency
//! counting, flood reveal, flagging, and the win/loss state machine.
use vstd::prelude::*;

use rand::RngExt;

use crate::counting::count_true;
use crate::counting::lemma_count_true_bounds;
use crate::counting::lemma_count_true_le;
use crate::counting::lemma_count_true_set;
use crate::counting::lemma_count_true_zero;

verus! {

/// One game's grid. Three parallel boolean vectors of length
/// `width * height` record which cells hold a mine, which are open, and
/// which are flagged; cells are stored row by row, cell `(x, y)` (1-based)
/// at linear index `(y - 1) * width + (x - 1)`.
pub struct PlayField {
    pub width: usize,
    pub height: usize,
    pub open_vec: Vec<bool>,
    pub bomb_vec: Vec<bool>,
    pub flag_vec: Vec<bool>,
    pub game_over: bool,
}

pub type GameStateResult = Result<GameState, String>;

/// What one cell looks like to the player.
#[derive(Copy, Clone, PartialEq, Eq, Structural, Debug)]
pub enum PlayFieldSpot {
    Closed,
    Flagged,
    Bomb,
    Open(u8),
}

/// Outcome of a move.
#[derive(Copy, Clone, PartialEq, Eq, Structural, Debug)]
pub enum GameState {
    KeepPlaying,
    YouWin,
    YouLose,
}

impl PlayField {
    /// Number of cells.
    pub open spec fn size(self) -> int {
        self.width * self.height
    }

    /// Is `(x, y)` a 1-based coordinate inside the grid?
    pub open spec fn in_grid(self, x: int, y: int) -> bool {
        1 <= x <= self.width && 1 <= y <= self.height
    }

    /// Linear index of the 1-based coordinate `(x, y)`.
    pub open spec fn sidx(self, x: int, y: int) -> int {
        (y - 1) * self.width + (x - 1)
    }

    /// Column of the cell at linear index `i`.
    pub open spec fn x_of(self, i: int) -> int {
        i % (self.width as int) + 1
    }

    /// Row of the cell at linear index `i`.
    pub open spec fn y_of(self, i: int) -> int {
        i / (self.width as int) + 1
    }

    /// Does the in-grid cell `(x, y)` hold a mine?
    pub open spec fn mine_at(self, x: int, y: int) -> bool {
        self.in_grid(x, y) && self.bomb_vec@[self.sidx(x, y)]
    }

    /// Is the in-grid cell `(x, y)` open?
    pub open spec fn open_at(self, x: int, y: int) -> bool {
        self.in_grid(x, y) && self.open_vec@[self.sidx(x, y)]
    }

    /// Number of mines among the up-to-eight neighbors of `(x, y)`.
    pub open spec fn mine_count_at(self, x: int, y: int) -> int {
        (if self.mine_at(x - 1, y - 1) { 1int } else { 0int })
            + (if self.mine_at(x, y - 1) { 1int } else { 0int })
            + (if self.mine_at(x + 1, y - 1) { 1int } else { 0int })
            + (if self.mine_at(x - 1, y) { 1int } else { 0int })
            + (if self.mine_at(x + 1, y) { 1int } else { 0int })
            + (if self.mine_at(x - 1, y + 1) { 1int } else { 0int })
            + (if self.mine_at(x, y + 1) { 1int } else { 0int })
            + (if self.mine_at(x + 1, y + 1) { 1int } else { 0int })
    }

    /// A cell the flood reveal never has to visit: outside the grid, or
    /// already open, or a mine, or flagged.
    pub open spec fn covered(self, x: int, y: int) -> bool {
        !self.in_grid(x, y) || self.open_vec@[self.sidx(x, y)] || self.bomb_vec@[self.sidx(x, y)]
            || self.flag_vec@[self.sidx(x, y)]
    }

    /// All eight neighbors of `(x, y)` are covered.
    pub open spec fn neighbors_covered(self, x: int, y: int) -> bool {
        self.covered(x - 1, y - 1) && self.covered(x, y - 1) && self.covered(x + 1, y - 1)
            && self.covered(x - 1, y) && self.covered(x + 1, y) && self.covered(x - 1, y + 1)
            && self.covered(x, y + 1) && self.covered(x + 1, y + 1)
    }

    /// The flood reveal has nothing left to do at `(x, y)`: an open cell
    /// with no neighboring mine has every neighbor covered.
    pub open spec fn settled_at(self, x: int, y: int) -> bool {
        self.open_at(x, y) && self.mine_count_at(x, y) == 0 ==> self.neighbors_covered(x, y)
    }

    /// The open region is maximal: no open zero-count cell has a closed,
    /// unflagged, mine-free neighbor.
    pub open spec fn region_settled(self) -> bool {
        forall|x: int, y: int| #[trigger] self.settled_at(x, y)
    }

    /// The cell at linear index `i` has a neighbor that is open and has
    /// no neighboring mine. The flood reveal only reaches such cells:
    /// every cell it opens beyond the one the player chose borders the
    /// zero-count region it spread through.
    pub open spec fn borders_open_zero(self, i: int) -> bool {
        exists|a: int, b: int|
            #[trigger] self.open_at(a, b) && self.mine_count_at(a, b) == 0 && is_adjacent(
                self.x_of(i),
                self.y_of(i),
                a,
                b,
            )
    }

    /// The three cell vectors match the grid dimensions, which do not
    /// overflow a `usize`.
    pub open spec fn grid_wf(self) -> bool {
        &&& 1 <= self.width
        &&& 1 <= self.height
        &&& self.width * self.height <= usize::MAX
        &&& self.open_vec@.len() == self.size()
        &&& self.bomb_vec@.len() == self.size()
        &&& self.flag_vec@.len() == self.size()
    }

    /// No cell is both open and flagged, and no mine is ever open.
    pub open spec fn cells_wf(self) -> bool {
        &&& forall|i: int|
            0 <= i < self.size() && #[trigger] self.open_vec@[i] ==> !self.flag_vec@[i]
        &&& forall|i: int|
            0 <= i < self.size() && #[trigger] self.open_vec@[i] ==> !self.bomb_vec@[i]
    }

    /// Every playfield a caller can hold satisfies this: the constructor
    /// establishes it and every operation preserves it.
    pub open spec fn wf(self) -> bool {
        self.grid_wf() && self.cells_wf() && self.region_settled()
    }

    /// Every mine flagged and nothing else: the winning position.
    pub open spec fn flags_match_mines(self) -> bool {
        forall|i: int| 0 <= i < self.size() ==> self.flag_vec@[i] == #[trigger] self.bomb_vec@[i]
    }
}

/// Relies on `rand::rng` and `rand::Rng::random_range` on the range
/// `0..n`: the sample is drawn from that half-open range, so it is below
/// `n`. The range must not be empty, or `random_range` panics.
#[verifier::external_body]
fn random_below(n: usize) -> (r: usize)
    requires
        1 <= n,
    ensures
        r < n,
{
    rand::rng().random_range(0..n)
}

/// A vector of `n` entries, all `false`.
fn make_false_vec(n: usize) -> (v: Vec<bool>)
    ensures
        v@.len() == n,
        forall|i: int| 0 <= i < n ==> !v@[i],
{
    let mut v: Vec<bool> = Vec::new();
    let mut i: usize = 0;
    while i < n
        invariant
            i <= n,
            v@.len() == i,
            forall|j: int| 0 <= j < i ==> !v@[j],
        decreases n - i,
    {
        v.push(false);
        i = i + 1;
    }
    v
}

impl PlayField {
    /// A fresh field of `w * h` closed cells with exactly `bombs` mines,
    /// placed at random: one pass over the grid makes each cell a mine
    /// with probability (mines still to place) / (cells still to scan),
    /// which lands on every layout with equal chance and places exactly
    /// `bombs` mines.
    pub fn new(w: usize, h: usize, bombs: usize) -> (pf: PlayField)
        requires
            1 <= w,
            1 <= h,
            w * h <= usize::MAX,
            bombs <= w * h,
        ensures
            pf.wf(),
            pf.width == w,
            pf.height == h,
            count_true(pf.bomb_vec@) == bombs,
            forall|i: int| 0 <= i < pf.size() ==> !pf.open_vec@[i],
            forall|i: int| 0 <= i < pf.size() ==> !pf.flag_vec@[i],
            !pf.game_over,
    {
        let size = w * h;
        let mut b = make_false_vec(size);
        proof {
            lemma_count_true_zero(b@);
        }

        let mut placed: usize = 0;
        let mut i: usize = 0;
        while i < size
            invariant
                i <= size,
                placed <= bombs,
                bombs <= size,
                b@.len() == size,
                count_true(b@) == placed,
                bombs - placed <= size - i,
                forall|j: int| i <= j < size ==> !b@[j],
            decreases size - i,
        {
            if placed < bombs {
                let r = random_below(size - i);
                if r < bombs - placed {
                    proof {
                        lemma_count_true_set(b@, i as int);
                    }
                    b.set(i, true);
                    placed = placed + 1;
                }
            }
            i = i + 1;
        }

        let o = make_false_vec(size);
        let f = make_false_vec(size);

        let pf = PlayField {
            width: w,
            height: h,
            open_vec: o,
            flag_vec: f,
            bomb_vec: b,
            game_over: false,
        };
        proof {
            lemma_all_closed_settled(pf);
        }
        pf
    }

    /// A fresh field of closed cells whose mines sit exactly where
    /// `mines` is `true`: the deterministic counterpart of `new`, for
    /// callers that need a known layout.
    pub fn with_mines(w: usize, h: usize, mines: Vec<bool>) -> (pf: PlayField)
        requires
            1 <= w,
            1 <= h,
            w * h <= usize::MAX,
            mines@.len() == w * h,
        ensures
            pf.wf(),
            pf.width == w,
            pf.height == h,
            pf.bomb_vec@ == mines@,
            forall|i: int| 0 <= i < pf.size() ==> !pf.open_vec@[i],
            forall|i: int| 0 <= i < pf.size() ==> !pf.flag_vec@[i],
            !pf.game_over,
    {
        let size = w * h;
        let o = make_false_vec(size);
        let f = make_false_vec(size);
        let pf = PlayField {
            width: w,
            height: h,
            open_vec: o,
            flag_vec: f,
            bomb_vec: mines,
            game_over: false,
        };
        proof {
            lemma_all_closed_settled(pf);
        }
        pf
    }

    /// Linear index of the 1-based coordinate `(x, y)`, or which of the
    /// two coordinates is out of range.
    fn index_from_coord(&self, x: usize, y: usize) -> (r: Result<usize, String>)
        requires
            self.grid_wf(),
        ensures
            !(1 <= x <= self.width) ==> (r matches Err(m) && m@ == "Invalid X coordinate"@),
            1 <= x <= self.width && !(1 <= y <= self.height) ==> (r matches Err(m) && m@
                == "Invalid Y coordinate"@),
            self.in_grid(x as int, y as int) ==> (r matches Ok(i) && i == self.sidx(
                x as int,
                y as int,
            ) && i < self.size()),
    {
        if x > self.width || x == 0 {
            return Err("Invalid X coordinate".to_owned());
        }
        if y > self.height || y == 0 {
            return Err("Invalid Y coordinate".to_owned());
        }
        proof {
            lemma_sidx_in_range(self.width as int, self.height as int, x as int, y as int);
        }
        Ok((y - 1) * self.width + (x - 1))
    }

    /// 1-based coordinate of the linear index, the inverse of
    /// `index_from_coord` for every index inside the grid.
    fn coord_from_index(&self, index: usize) -> (r: Result<(usize, usize), String>)
        requires
            self.grid_wf(),
            index < self.size(),
        ensures
            r matches Ok(c) && c.0 == self.x_of(index as int) && c.1 == self.y_of(index as int)
                && self.in_grid(c.0 as int, c.1 as int) && self.sidx(c.0 as int, c.1 as int)
                == index,
    {
        if index > self.bomb_vec.len() {
            return Err("Invalid index".to_owned());
        }
        proof {
            lemma_coord_roundtrip(self.width as int, self.height as int, index as int);
        }
        Ok((index % self.width + 1, index / self.width + 1))
    }

    /// Grid width, as chosen at construction.
    pub fn get_width(&self) -> (r: usize)
        ensures
            r == self.width,
    {
        self.width
    }

    /// Grid height, as chosen at construction.
    pub fn get_height(&self) -> (r: usize)
        ensures
            r == self.height,
    {
        self.height
    }
}

/// Is `(a, b)` one of the up-to-eight neighbors of `(x, y)`?
pub open spec fn is_adjacent(x: int, y: int, a: int, b: int) -> bool {
    !(a == x && b == y) && x - 1 <= a <= x + 1 && y - 1 <= b <= y + 1
}

impl PlayField {
    /// Appends `(cx, cy)` to `v` exactly when it lies inside the grid.
    fn push_if_valid(&self, v: &mut Vec<(usize, usize)>, cx: usize, cy: usize)
        ensures
            old(v)@.len() <= final(v)@.len(),
            forall|k: int| 0 <= k < old(v)@.len() ==> final(v)@[k] == old(v)@[k],
            self.in_grid(cx as int, cy as int) ==> (final(v)@.len() == old(v)@.len() + 1
                && final(v)@[old(v)@.len() as int] == (cx, cy)),
            !self.in_grid(cx as int, cy as int) ==> final(v)@ == old(v)@,
    {
        if 1 <= cx && cx <= self.width && 1 <= cy && cy <= self.height {
            v.push((cx, cy));
        }
    }

    /// The neighbors of `(x, y)` that lie inside the grid, in a fixed
    /// scanning order. Every entry is an in-grid neighbor, and every
    /// in-grid neighbor is an entry.
    fn get_valid_neighbors(&self, x: usize, y: usize) -> (r: Vec<(usize, usize)>)
        requires
            1 <= x <= self.width,
            1 <= y <= self.height,
        ensures
            forall|k: int|
                #![trigger r@[k]]
                0 <= k < r@.len() ==> (self.in_grid(r@[k].0 as int, r@[k].1 as int) && is_adjacent(
                    x as int,
                    y as int,
                    r@[k].0 as int,
                    r@[k].1 as int,
                )),
            self.in_grid(x - 1, y - 1) ==> r@.contains((((x - 1) as usize), ((y - 1) as usize))),
            self.in_grid(x as int, y - 1) ==> r@.contains((x, ((y - 1) as usize))),
            self.in_grid(x + 1, y - 1) ==> r@.contains((((x + 1) as usize), ((y - 1) as usize))),
            self.in_grid(x - 1, y as int) ==> r@.contains((((x - 1) as usize), y)),
            self.in_grid(x + 1, y as int) ==> r@.contains((((x + 1) as usize), y)),
            self.in_grid(x - 1, y + 1) ==> r@.contains((((x - 1) as usize), ((y + 1) as usize))),
            self.in_grid(x as int, y + 1) ==> r@.contains((x, ((y + 1) as usize))),
            self.in_grid(x + 1, y + 1) ==> r@.contains((((x + 1) as usize), ((y + 1) as usize))),
    {
        let mut v: Vec<(usize, usize)> = Vec::new();
        let ghost k1: int = v@.len() as int;
        self.push_if_valid(&mut v, x - 1, y - 1);
        let ghost k2: int = v@.len() as int;
        self.push_if_valid(&mut v, x, y - 1);
        let ghost k3: int = v@.len() as int;
        if x < self.width {
            self.push_if_valid(&mut v, x + 1, y - 1);
        }
        let ghost k4: int = v@.len() as int;
        self.push_if_valid(&mut v, x - 1, y);
        let ghost k5: int = v@.len() as int;
        if x < self.width {
            self.push_if_valid(&mut v, x + 1, y);
        }
        let ghost k6: int = v@.len() as int;
        if y < self.height {
            self.push_if_valid(&mut v, x - 1, y + 1);
        }
        let ghost k7: int = v@.len() as int;
        if y < self.height {
            self.push_if_valid(&mut v, x, y + 1);
        }
        let ghost k8: int = v@.len() as int;
        if x < self.width && y < self.height {
            self.push_if_valid(&mut v, x + 1, y + 1);
        }
        proof {
            if self.in_grid(x - 1, y - 1) {
                assert(v@[k1] == (((x - 1) as usize), ((y - 1) as usize)));
            }
            if self.in_grid(x as int, y - 1) {
                assert(v@[k2] == (x, ((y - 1) as usize)));
            }
            if self.in_grid(x + 1, y - 1) {
                assert(v@[k3] == (((x + 1) as usize), ((y - 1) as usize)));
            }
            if self.in_grid(x - 1, y as int) {
                assert(v@[k4] == (((x - 1) as usize), y));
            }
            if self.in_grid(x + 1, y as int) {
                assert(v@[k5] == (((x + 1) as usize), y));
            }
            if self.in_grid(x - 1, y + 1) {
                assert(v@[k6] == (((x - 1) as usize), ((y + 1) as usize)));
            }
            if self.in_grid(x as int, y + 1) {
                assert(v@[k7] == (x, ((y + 1) as usize)));
            }
            if self.in_grid(x + 1, y + 1) {
                assert(v@[k8] == (((x + 1) as usize), ((y + 1) as usize)));
            }
        }
        v
    }

    /// 1 when `(x, y)` is an in-grid mine, 0 otherwise.
    fn mine_indicator(&self, x: usize, y: usize) -> (r: u8)
        requires
            self.grid_wf(),
        ensures
            r as int == if self.mine_at(x as int, y as int) {
                1int
            } else {
                0int
            },
    {
        if 1 <= x && x <= self.width && 1 <= y && y <= self.height {
            proof {
                lemma_sidx_in_range(self.width as int, self.height as int, x as int, y as int);
            }
            if self.bomb_vec[(y - 1) * self.width + (x - 1)] {
                1
            } else {
                0
            }
        } else {
            0
        }
    }

    /// Number of mines among the neighbors of the cell at `index`.
    fn get_bombs_around(&self, index: usize) -> (r: u8)
        requires
            self.grid_wf(),
            index < self.size(),
        ensures
            r as int == self.mine_count_at(self.x_of(index as int), self.y_of(index as int)),
            r <= 8,
    {
        let (x, y) = match self.coord_from_index(index) {
            Err(_) => {
                return 0;
            },
            Ok(w) => w,
        };
        let mut n: u8 = 0;
        n = n + self.mine_indicator(x - 1, y - 1);
        n = n + self.mine_indicator(x, y - 1);
        if x < self.width {
            n = n + self.mine_indicator(x + 1, y - 1);
        }
        n = n + self.mine_indicator(x - 1, y);
        if x < self.width {
            n = n + self.mine_indicator(x + 1, y);
        }
        if y < self.height {
            n = n + self.mine_indicator(x - 1, y + 1);
            n = n + self.mine_indicator(x, y + 1);
        }
        if x < self.width && y < self.height {
            n = n + self.mine_indicator(x + 1, y + 1);
        }
        n
    }
}

impl PlayField {
    /// The recursive reveal step: opens `(x, y)` unless it is a mine or
    /// flagged, and when the cell has no neighboring mine goes on to its
    /// closed neighbors. Cells it opens are never mines and never flagged,
    /// open cells stay open, and every cell that was settled before is
    /// settled after.
    #[verifier::loop_isolation(false)]
    fn inner_open(&mut self, x: usize, y: usize)
        requires
            old(self).grid_wf(),
            old(self).cells_wf(),
            old(self).in_grid(x as int, y as int),
            !old(self).open_vec@[old(self).sidx(x as int, y as int)],
        ensures
            final(self).grid_wf(),
            final(self).cells_wf(),
            final(self).width == old(self).width,
            final(self).height == old(self).height,
            final(self).bomb_vec@ == old(self).bomb_vec@,
            final(self).flag_vec@ == old(self).flag_vec@,
            final(self).game_over == old(self).game_over,
            forall|i: int|
                0 <= i < old(self).size() && #[trigger] old(self).open_vec@[i]
                    ==> final(self).open_vec@[i],
            forall|i: int|
                0 <= i < old(self).size() && #[trigger] final(self).open_vec@[i]
                    && !old(self).open_vec@[i] ==> (!old(self).bomb_vec@[i]
                    && !old(self).flag_vec@[i]),
            (old(self).bomb_vec@[old(self).sidx(x as int, y as int)]
                || old(self).flag_vec@[old(self).sidx(x as int, y as int)]) ==> *final(self)
                == *old(self),
            (!old(self).bomb_vec@[old(self).sidx(x as int, y as int)]
                && !old(self).flag_vec@[old(self).sidx(x as int, y as int)])
                ==> final(self).open_vec@[old(self).sidx(x as int, y as int)],
            count_true(final(self).open_vec@) >= count_true(old(self).open_vec@),
            forall|a: int, b: int|
                old(self).settled_at(a, b) ==> #[trigger] final(self).settled_at(a, b),
            forall|i: int|
                0 <= i < old(self).size() && #[trigger] final(self).open_vec@[i]
                    && !old(self).open_vec@[i] && i != old(self).sidx(x as int, y as int)
                    ==> final(self).borders_open_zero(i),
        decreases old(self).size() - count_true(old(self).open_vec@),
    {
        let ghost s0 = *old(self);
        let ghost xi = x as int;
        let ghost yi = y as int;
        let pos = match self.index_from_coord(x, y) {
            Err(_) => {
                return ;
            },
            Ok(v) => v,
        };

        if self.bomb_vec[pos] || self.flag_vec[pos] {
            return ;
        }
        proof {
            lemma_count_true_set(s0.open_vec@, pos as int);
        }
        self.open_vec.set(pos, true);
        let ghost s1 = *self;
        proof {
            lemma_open_one_preserves_settled(s0, s1, xi, yi);
        }

        let count = self.get_bombs_around(pos);
        proof {
            lemma_sidx_roundtrip(s0.width as int, s0.height as int, xi, yi);
        }

        if count == 0 {
            let ns = self.get_valid_neighbors(x, y);
            let mut k: usize = 0;
            while k < ns.len()
                invariant
                    k <= ns.len(),
                    self.grid_wf(),
                    self.cells_wf(),
                    self.width == s0.width,
                    self.height == s0.height,
                    self.bomb_vec@ == s0.bomb_vec@,
                    self.flag_vec@ == s0.flag_vec@,
                    self.game_over == s0.game_over,
                    self.open_vec@[pos as int],
                    forall|i: int|
                        0 <= i < s0.size() && #[trigger] s0.open_vec@[i] ==> self.open_vec@[i],
                    forall|i: int|
                        0 <= i < s0.size() && #[trigger] self.open_vec@[i] && !s0.open_vec@[i] ==> (
                        !s0.bomb_vec@[i] && !s0.flag_vec@[i]),
                    count_true(self.open_vec@) > count_true(s0.open_vec@),
                    forall|a: int, b: int|
                        s0.settled_at(a, b) && !(a == xi && b == yi)
                            ==> #[trigger] self.settled_at(a, b),
                    forall|i: int|
                        0 <= i < s0.size() && #[trigger] self.open_vec@[i] && !s0.open_vec@[i] && i
                            != pos ==> self.borders_open_zero(i),
                    forall|j: int|
                        #![trigger ns@[j]]
                        0 <= j < k ==> self.covered(ns@[j].0 as int, ns@[j].1 as int),
                decreases ns.len() - k,
            {
                let p = ns[k];
                let xx = p.0;
                let yy = p.1;
                let ghost before = *self;
                match self.index_from_coord(xx, yy) {
                    Err(_) => {},
                    Ok(pos2) => {
                        if !self.open_vec[pos2] {
                            proof {
                                lemma_count_true_bounds(before.open_vec@);
                            }
                            self.inner_open(xx, yy);
                            proof {
                                lemma_count_true_le(before.open_vec@, self.open_vec@);
                                lemma_borders_monotone(before, *self);
                                lemma_sidx_roundtrip(
                                    s0.width as int,
                                    s0.height as int,
                                    xx as int,
                                    yy as int,
                                );
                                assert(self.open_at(xi, yi));
                                if self.open_vec@[pos2 as int] && !before.open_vec@[pos2 as int] {
                                    assert(self.borders_open_zero(pos2 as int));
                                }
                                assert forall|i: int|
                                    0 <= i < s0.size() && #[trigger] self.open_vec@[i]
                                        && !s0.open_vec@[i] && i != pos implies
                                    self.borders_open_zero(i) by {
                                    if before.open_vec@[i] {
                                        assert(before.borders_open_zero(i));
                                    } else if i == pos2 as int {
                                        assert(self.borders_open_zero(pos2 as int));
                                    }
                                }
                            }
                        }
                    },
                }
                proof {
                    assert forall|j: int|
                        #![trigger ns@[j]]
                        0 <= j < k + 1 implies self.covered(ns@[j].0 as int, ns@[j].1 as int) by {
                        lemma_sidx_in_range(
                            self.width as int,
                            self.height as int,
                            ns@[j].0 as int,
                            ns@[j].1 as int,
                        );
                    }
                }
                k = k + 1;
            }
            proof {
                assert(self.covered(xi - 1, yi - 1)) by {
                    if self.in_grid(xi - 1, yi - 1) {
                        assert(ns@.contains((((x - 1) as usize), ((y - 1) as usize))));
                    }
                }
                assert(self.covered(xi, yi - 1)) by {
                    if self.in_grid(xi, yi - 1) {
                        assert(ns@.contains((x, ((y - 1) as usize))));
                    }
                }
                assert(self.covered(xi + 1, yi - 1)) by {
                    if self.in_grid(xi + 1, yi - 1) {
                        assert(ns@.contains((((x + 1) as usize), ((y - 1) as usize))));
                    }
                }
                assert(self.covered(xi - 1, yi)) by {
                    if self.in_grid(xi - 1, yi) {
                        assert(ns@.contains((((x - 1) as usize), y)));
                    }
                }
                assert(self.covered(xi + 1, yi)) by {
                    if self.in_grid(xi + 1, yi) {
                        assert(ns@.contains((((x + 1) as usize), y)));
                    }
                }
                assert(self.covered(xi - 1, yi + 1)) by {
                    if self.in_grid(xi - 1, yi + 1) {
                        assert(ns@.contains((((x - 1) as usize), ((y + 1) as usize))));
                    }
                }
                assert(self.covered(xi, yi + 1)) by {
                    if self.in_grid(xi, yi + 1) {
                        assert(ns@.contains((x, ((y + 1) as usize))));
                    }
                }
                assert(self.covered(xi + 1, yi + 1)) by {
                    if self.in_grid(xi + 1, yi + 1) {
                        assert(ns@.contains((((x + 1) as usize), ((y + 1) as usize))));
                    }
                }
                assert(self.neighbors_covered(xi, yi));
                assert forall|a: int, b: int| s0.settled_at(a, b) implies #[trigger] self.settled_at(
                    a,
                    b,
                ) by {
                    if a == xi && b == yi {
                        assert(self.neighbors_covered(a, b));
                    }
                }
            }
        } else {
            proof {
                assert forall|a: int, b: int| s0.settled_at(a, b) implies #[trigger] self.settled_at(
                    a,
                    b,
                ) by {
                    if a == xi && b == yi {
                        assert(self.mine_count_at(a, b) == count as int);
                    }
                }
            }
        }
    }
}

/// Bordering an open zero-count cell survives any step that only opens
/// more cells and leaves the mines alone.
proof fn lemma_borders_monotone(pre: PlayField, post: PlayField)
    requires
        pre.grid_wf(),
        post.width == pre.width,
        post.height == pre.height,
        post.bomb_vec@ == pre.bomb_vec@,
        post.open_vec@.len() == pre.open_vec@.len(),
        forall|i: int|
            0 <= i < pre.open_vec@.len() && #[trigger] pre.open_vec@[i] ==> post.open_vec@[i],
    ensures
        forall|i: int| #[trigger] pre.borders_open_zero(i) ==> post.borders_open_zero(i),
{
    assert forall|i: int| #[trigger] pre.borders_open_zero(i) implies post.borders_open_zero(
        i,
    ) by {
        let (a, b) = choose|a: int, b: int|
            #[trigger] pre.open_at(a, b) && pre.mine_count_at(a, b) == 0 && is_adjacent(
                pre.x_of(i),
                pre.y_of(i),
                a,
                b,
            );
        lemma_sidx_in_range(pre.width as int, pre.height as int, a, b);
        assert(post.open_at(a, b));
        assert(post.mine_count_at(a, b) == pre.mine_count_at(a, b));
    }
}

/// Opening one closed cell cannot unsettle any other cell: its mines and
/// flags are untouched, and open cells only gain company.
proof fn lemma_open_one_preserves_settled(pre: PlayField, post: PlayField, x: int, y: int)
    requires
        pre.grid_wf(),
        post.width == pre.width,
        post.height == pre.height,
        post.bomb_vec@ == pre.bomb_vec@,
        post.flag_vec@ == pre.flag_vec@,
        pre.in_grid(x, y),
        post.open_vec@ == pre.open_vec@.update(pre.sidx(x, y), true),
    ensures
        forall|a: int, b: int|
            pre.settled_at(a, b) && !(a == x && b == y) ==> #[trigger] post.settled_at(a, b),
{
    lemma_sidx_in_range(pre.width as int, pre.height as int, x, y);
    assert forall|c: int, d: int| pre.covered(c, d) implies #[trigger] post.covered(c, d) by {
        if pre.in_grid(c, d) {
            lemma_sidx_in_range(pre.width as int, pre.height as int, c, d);
        }
    }
    assert forall|a: int, b: int|
        pre.settled_at(a, b) && !(a == x && b == y) implies #[trigger] post.settled_at(a, b) by {
        if post.open_at(a, b) && post.mine_count_at(a, b) == 0 {
            lemma_sidx_in_range(pre.width as int, pre.height as int, a, b);
            if pre.open_at(a, b) {
                assert(pre.mine_count_at(a, b) == post.mine_count_at(a, b));
                assert(pre.neighbors_covered(a, b));
                assert(post.covered(a - 1, b - 1) && post.covered(a, b - 1) && post.covered(
                    a + 1,
                    b - 1,
                ) && post.covered(a - 1, b) && post.covered(a + 1, b) && post.covered(a - 1, b + 1)
                    && post.covered(a, b + 1) && post.covered(a + 1, b + 1));
                assert(post.neighbors_covered(a, b));
            } else {
                assert(post.open_vec@[pre.sidx(a, b)]);
                assert(pre.sidx(a, b) == pre.sidx(x, y));
                lemma_sidx_unique(pre.width as int, pre.height as int, x, y, a, b);
            }
        }
    }
}

/// Do two boolean vectors of one length agree everywhere?
fn bool_vecs_equal(a: &Vec<bool>, b: &Vec<bool>) -> (r: bool)
    requires
        a@.len() == b@.len(),
    ensures
        r == (forall|i: int| 0 <= i < a@.len() ==> a@[i] == b@[i]),
{
    let mut i: usize = 0;
    while i < a.len()
        invariant
            i <= a@.len(),
            a@.len() == b@.len(),
            forall|j: int| 0 <= j < i ==> a@[j] == b@[j],
        decreases a@.len() - i,
    {
        if a[i] != b[i] {
            return false;
        }
        i = i + 1;
    }
    true
}

impl PlayField {
    /// What the cell at linear index `i` shows: an open cell shows its
    /// adjacency count, else a flag shows, else a mine shows once the
    /// game is over, else the cell is closed.
    pub open spec fn spec_spot(self, i: int) -> PlayFieldSpot {
        if self.open_vec@[i] {
            PlayFieldSpot::Open(self.mine_count_at(self.x_of(i), self.y_of(i)) as u8)
        } else if self.flag_vec@[i] {
            PlayFieldSpot::Flagged
        } else if self.game_over && self.bomb_vec@[i] {
            PlayFieldSpot::Bomb
        } else {
            PlayFieldSpot::Closed
        }
    }

    /// Opens the cell at the 1-based coordinate `(x, y)`. Out-of-range,
    /// flagged, and already-open cells are refused without touching any
    /// state; a mine ends the game with a loss; otherwise the cell is
    /// revealed, flooding through its neighborhood when no mine is near,
    /// and never opening a mine or a flagged cell.
    pub fn open(&mut self, x: usize, y: usize) -> (r: GameStateResult)
        requires
            old(self).wf(),
        ensures
            final(self).wf(),
            final(self).width == old(self).width,
            final(self).height == old(self).height,
            final(self).bomb_vec@ == old(self).bomb_vec@,
            ({
                let pre = *old(self);
                let post = *final(self);
                &&& (!(1 <= x <= pre.width) ==> (post == pre && (r matches Err(m) && m@
                    == "Invalid X coordinate"@)))
                &&& ((1 <= x <= pre.width && !(1 <= y <= pre.height)) ==> (post == pre && (
                r matches Err(m) && m@ == "Invalid Y coordinate"@)))
                &&& (pre.in_grid(x as int, y as int) ==> ({
                    let i = pre.sidx(x as int, y as int);
                    &&& (pre.flag_vec@[i] ==> (post == pre && (r matches Err(m) && m@
                        == "Cannot open flagged coordinate"@)))
                    &&& ((!pre.flag_vec@[i] && pre.bomb_vec@[i]) ==> ((r matches Ok(s) && s
                        == GameState::YouLose) && post.game_over && post.open_vec@ == pre.open_vec@
                        && post.flag_vec@ == pre.flag_vec@))
                    &&& ((!pre.flag_vec@[i] && !pre.bomb_vec@[i] && pre.open_vec@[i]) ==> (post
                        == pre && (r matches Err(m) && m@
                        == "Cannot open already open coordinate"@)))
                    &&& ((!pre.flag_vec@[i] && !pre.bomb_vec@[i] && !pre.open_vec@[i]) ==> ((
                    r matches Ok(s) && s == GameState::KeepPlaying) && post.open_vec@[i]
                        && post.flag_vec@ == pre.flag_vec@ && post.game_over == pre.game_over && (
                    forall|j: int|
                        0 <= j < pre.size() && #[trigger] pre.open_vec@[j] ==> post.open_vec@[j])
                        && (forall|j: int|
                        0 <= j < pre.size() && #[trigger] post.open_vec@[j] && !pre.open_vec@[j]
                            ==> (!pre.bomb_vec@[j] && !pre.flag_vec@[j])) && (forall|j: int|
                        0 <= j < pre.size() && #[trigger] post.open_vec@[j] && !pre.open_vec@[j]
                            && j != i ==> post.borders_open_zero(j))))
                }))
            }),
    {
        let pos = match self.index_from_coord(x, y) {
            Err(e) => {
                return Err(e);
            },
            Ok(v) => v,
        };

        if self.flag_vec[pos] {
            return Err("Cannot open flagged coordinate".to_owned());
        }

        if self.bomb_vec[pos] {
            self.game_over = true;
            proof {
                lemma_same_cells_stay_settled(*old(self), *self);
            }
            return Ok(GameState::YouLose);
        }

        if self.open_vec[pos] {
            return Err("Cannot open already open coordinate".to_owned());
        }

        self.inner_open(x, y);
        proof {
            assert forall|a: int, b: int| #[trigger] self.settled_at(a, b) by {
                assert(old(self).settled_at(a, b));
            }
        }
        Ok(GameState::KeepPlaying)
    }

    /// Flags the cell at the 1-based coordinate `(x, y)`. Out-of-range
    /// and open cells are refused without touching any state; otherwise
    /// the cell is flagged (flagging never clears), and the game is won
    /// exactly when the flagged cells then coincide with the mines.
    pub fn toggle_flag(&mut self, x: usize, y: usize) -> (r: GameStateResult)
        requires
            old(self).wf(),
        ensures
            final(self).wf(),
            final(self).width == old(self).width,
            final(self).height == old(self).height,
            final(self).bomb_vec@ == old(self).bomb_vec@,
            ({
                let pre = *old(self);
                let post = *final(self);
                &&& (!(1 <= x <= pre.width) ==> (post == pre && (r matches Err(m) && m@
                    == "Invalid X coordinate"@)))
                &&& ((1 <= x <= pre.width && !(1 <= y <= pre.height)) ==> (post == pre && (
                r matches Err(m) && m@ == "Invalid Y coordinate"@)))
                &&& (pre.in_grid(x as int, y as int) ==> ({
                    let i = pre.sidx(x as int, y as int);
                    &&& (pre.open_vec@[i] ==> (post == pre && (r matches Err(m) && m@
                        == "Cannot tag open coordinate"@)))
                    &&& (!pre.open_vec@[i] ==> (post.flag_vec@ == pre.flag_vec@.update(i, true)
                        && post.open_vec@ == pre.open_vec@ && (post.flags_match_mines() ==> ((
                    r matches Ok(s) && s == GameState::YouWin) && post.game_over)) && (
                    !post.flags_match_mines() ==> ((r matches Ok(s) && s == GameState::KeepPlaying)
                        && post.game_over == pre.game_over))))
                }))
            }),
    {
        let index = match self.index_from_coord(x, y) {
            Err(e) => {
                return Err(e);
            },
            Ok(v) => v,
        };

        if self.open_vec[index] {
            return Err("Cannot tag open coordinate".to_owned());
        }

        self.flag_vec.set(index, true);
        proof {
            lemma_same_cells_stay_settled(*old(self), *self);
        }

        if bool_vecs_equal(&self.bomb_vec, &self.flag_vec) {
            self.game_over = true;
            proof {
                lemma_same_cells_stay_settled(*old(self), *self);
            }
            return Ok(GameState::YouWin);
        }

        Ok(GameState::KeepPlaying)
    }

    /// One spot per cell, in index order: what each cell shows.
    pub fn get_playfield(&self) -> (r: Vec<PlayFieldSpot>)
        requires
            self.grid_wf(),
        ensures
            r@.len() == self.size(),
            forall|i: int| #![trigger r@[i]] 0 <= i < self.size() ==> r@[i] == self.spec_spot(i),
    {
        let mut p: Vec<PlayFieldSpot> = Vec::new();
        let len = self.open_vec.len();
        let mut index: usize = 0;
        while index < len
            invariant
                self.grid_wf(),
                len == self.size(),
                index <= len,
                p@.len() == index,
                forall|i: int| 0 <= i < index ==> p@[i] == self.spec_spot(i),
            decreases len - index,
        {
            if self.open_vec[index] {
                p.push(PlayFieldSpot::Open(self.get_bombs_around(index)));
            } else if self.flag_vec[index] {
                p.push(PlayFieldSpot::Flagged);
            } else if self.game_over && self.bomb_vec[index] {
                p.push(PlayFieldSpot::Bomb);
            } else {
                p.push(PlayFieldSpot::Closed);
            }
            index = index + 1;
        }
        p
    }
}

/// A step that keeps every cell's open, mine, and flag state — however it
/// changes the rest, such as ending the game — keeps the field settled.
proof fn lemma_same_cells_stay_settled(pre: PlayField, post: PlayField)
    requires
        pre.grid_wf(),
        post.width == pre.width,
        post.height == pre.height,
        post.open_vec@ == pre.open_vec@,
        post.bomb_vec@ == pre.bomb_vec@,
        forall|i: int|
            0 <= i < pre.flag_vec@.len() && #[trigger] pre.flag_vec@[i] ==> post.flag_vec@[i],
        post.flag_vec@.len() == pre.flag_vec@.len(),
        pre.region_settled(),
    ensures
        post.region_settled(),
{
    assert forall|a: int, b: int| #[trigger] post.settled_at(a, b) by {
        assert(pre.settled_at(a, b));
        if post.open_at(a, b) && post.mine_count_at(a, b) == 0 {
            assert(pre.open_at(a, b));
            assert(pre.mine_count_at(a, b) == post.mine_count_at(a, b));
            assert(pre.neighbors_covered(a, b));
            assert forall|c: int, d: int| pre.covered(c, d) implies #[trigger] post.covered(
                c,
                d,
            ) by {
                if pre.in_grid(c, d) {
                    lemma_sidx_in_range(pre.width as int, pre.height as int, c, d);
                }
            }
            assert(post.neighbors_covered(a, b));
        }
    }
}

/// Splitting a coordinate's linear index back into row and column gives
/// the coordinate itself.
proof fn lemma_sidx_roundtrip(w: int, h: int, x: int, y: int)
    requires
        1 <= x <= w,
        1 <= y <= h,
    ensures
        ((y - 1) * w + (x - 1)) % w == x - 1,
        ((y - 1) * w + (x - 1)) / w == y - 1,
{
    vstd::arithmetic::div_mod::lemma_fundamental_div_mod_converse(
        (y - 1) * w + (x - 1),
        w,
        y - 1,
        x - 1,
    );
}

/// Two in-grid coordinates with the same linear index are the same
/// coordinate.
proof fn lemma_sidx_unique(w: int, h: int, x: int, y: int, a: int, b: int)
    requires
        1 <= x <= w,
        1 <= y <= h,
        1 <= a <= w,
        1 <= b <= h,
        (y - 1) * w + (x - 1) == (b - 1) * w + (a - 1),
    ensures
        a == x,
        b == y,
{
    lemma_sidx_roundtrip(w, h, x, y);
    lemma_sidx_roundtrip(w, h, a, b);
}

/// An in-grid coordinate's linear index lies inside the cell vectors.
proof fn lemma_sidx_in_range(w: int, h: int, x: int, y: int)
    requires
        1 <= x <= w,
        1 <= y <= h,
    ensures
        0 <= (y - 1) * w + (x - 1) < w * h,
{
    assert((y - 1) * w + (x - 1) < w * h) by (nonlinear_arith)
        requires
            1 <= x <= w,
            1 <= y <= h,
    ;
    assert(0 <= (y - 1) * w) by (nonlinear_arith)
        requires
            1 <= y,
            1 <= w,
    ;
}

/// Splitting an in-range linear index into row and column and recombining
/// them gives the index back, and the coordinate lies in the grid.
proof fn lemma_coord_roundtrip(w: int, h: int, i: int)
    requires
        1 <= w,
        1 <= h,
        0 <= i < w * h,
    ensures
        1 <= i % w + 1 <= w,
        1 <= i / w + 1 <= h,
        (i / w + 1 - 1) * w + (i % w + 1 - 1) == i,
{
    vstd::arithmetic::div_mod::lemma_fundamental_div_mod(i, w);
    vstd::arithmetic::div_mod::lemma_mod_bound(i, w);
    assert(i / w < h) by (nonlinear_arith)
        requires
            1 <= w,
            0 <= i < w * h,
            w * (i / w) + i % w == i,
            0 <= i % w < w,
    ;
    assert(0 <= i / w) by (nonlinear_arith)
        requires
            1 <= w,
            0 <= i,
            w * (i / w) + i % w == i,
            0 <= i % w < w,
    ;
    assert((i / w) * w + i % w == i) by (nonlinear_arith)
        requires
            w * (i / w) + i % w == i,
    ;
}

/// Open cells never hold a mine: whatever moves were played, a cell that
/// shows its adjacency count is not a mine.
pub proof fn lemma_open_cells_safe(pf: PlayField)
    requires
        pf.wf(),
    ensures
        forall|i: int| 0 <= i < pf.size() && #[trigger] pf.open_vec@[i] ==> !pf.bomb_vec@[i],
{
}

/// Once the game is over, every mine that is neither flagged nor open —
/// and no mine is ever open — is rendered as a mine. A flagged mine keeps
/// showing its flag: the flag takes precedence in the cell view.
pub proof fn lemma_game_over_shows_mines(pf: PlayField)
    requires
        pf.wf(),
        pf.game_over,
    ensures
        forall|i: int|
            0 <= i < pf.size() && #[trigger] pf.bomb_vec@[i] && !pf.flag_vec@[i] ==> pf.spec_spot(i)
                == PlayFieldSpot::Bomb,
{
}

/// The revealed region is maximal: around any open cell with no
/// neighboring mine, every neighbor is out of the grid, open, a mine, or
/// flagged — the flood reveal left no reachable safe cell closed.
pub proof fn lemma_open_region_maximal(pf: PlayField)
    requires
        pf.wf(),
    ensures
        forall|x: int, y: int|
            pf.open_at(x, y) && pf.mine_count_at(x, y) == 0 ==> #[trigger] pf.neighbors_covered(
                x,
                y,
            ),
{
    assert forall|x: int, y: int|
        pf.open_at(x, y) && pf.mine_count_at(x, y) == 0 implies #[trigger] pf.neighbors_covered(
        x,
        y,
    ) by {
        assert(pf.settled_at(x, y));
    }
}

/// A field whose cells are all closed is settled everywhere: no open cell
/// exists, so the flood reveal owes nothing.
proof fn lemma_all_closed_settled(pf: PlayField)
    requires
        pf.grid_wf(),
        forall|i: int| 0 <= i < pf.size() ==> !pf.open_vec@[i],
    ensures
        pf.region_settled(),
{
    assert forall|x: int, y: int| pf.settled_at(x, y) by {
        if pf.in_grid(x, y) {
            lemma_sidx_in_range(pf.width as int, pf.height as int, x, y);
        }
    }
}

} // verus!

//! The board: a rectangular grid of optionally-occupied cells with
//! bounds-checked access, piece placement, gravity settling and
//! connectivity-based match detection.

use vstd::multiset::Multiset;
use vstd::prelude::*;

use crate::game_loop::{PilPos, MILLI};
use crate::helpful_things::{cell_is, component, search};
use crate::pillar::Pillar;

verus! {

/// How many distinct block colors exist.
pub const BLOCK_KINDS: usize = 10;

/// An enumerated block color; stateless beyond its tag.
#[derive(Clone, Copy, Debug, Eq, Hash, PartialEq, Structural)]
pub enum Block {
    Red,
    Green,
    Blue,
    Orange,
    Purple,
    Yellow,
    Cyan,
    Violet,
    White,
    Black,
}

impl Block {
    /// The color with ordinal `i`, in the fixed enumeration order, or
    /// `None` past the end of the color domain.
    pub open spec fn spec_from_usize(i: int) -> Option<Block> {
        if i == 0 {
            Some(Block::Red)
        } else if i == 1 {
            Some(Block::Green)
        } else if i == 2 {
            Some(Block::Blue)
        } else if i == 3 {
            Some(Block::Orange)
        } else if i == 4 {
            Some(Block::Purple)
        } else if i == 5 {
            Some(Block::Yellow)
        } else if i == 6 {
            Some(Block::Cyan)
        } else if i == 7 {
            Some(Block::Violet)
        } else if i == 8 {
            Some(Block::White)
        } else if i == 9 {
            Some(Block::Black)
        } else {
            None
        }
    }

    pub fn from_usize(i: usize) -> (r: Option<Block>)
        ensures
            r == Block::spec_from_usize(i as int),
    {
        match i {
            0 => Some(Block::Red),
            1 => Some(Block::Green),
            2 => Some(Block::Blue),
            3 => Some(Block::Orange),
            4 => Some(Block::Purple),
            5 => Some(Block::Yellow),
            6 => Some(Block::Cyan),
            7 => Some(Block::Violet),
            8 => Some(Block::White),
            9 => Some(Block::Black),
            _ => None,
        }
    }
}

/// An ordered, growable subset of the block colors, used for random
/// piece generation. It always consists of the first `len` colors of
/// the enumeration order, so it never contains duplicates and only ever
/// grows by appending the next undefined color.
#[derive(Clone, Debug)]
pub struct Palette {
    blocks: Vec<Block>,
}

impl View for Palette {
    type V = Seq<Block>;

    closed spec fn view(&self) -> Seq<Block> {
        self.blocks@
    }
}

impl Palette {
    /// The palette holds exactly the first colors of the enumeration
    /// order, in order.
    pub open spec fn wf(self) -> bool {
        &&& self@.len() <= BLOCK_KINDS
        &&& forall|i: int|
            0 <= i < self@.len() ==> Block::spec_from_usize(i) == Some(#[trigger] self@[i])
    }

    /// A palette of the first `sz` colors (all of them, if `sz` exceeds
    /// the color domain).
    pub fn new(sz: usize) -> (r: Palette)
        ensures
            r.wf(),
            r@.len() == if sz <= BLOCK_KINDS { sz as int } else { BLOCK_KINDS as int },
    {
        let mut blocks: Vec<Block> = Vec::new();
        let n = if sz <= BLOCK_KINDS {
            sz
        } else {
            BLOCK_KINDS
        };
        for i in 0..n
            invariant
                n <= BLOCK_KINDS,
                blocks@.len() == i,
                forall|j: int|
                    0 <= j < i ==> Block::spec_from_usize(j) == Some(#[trigger] blocks@[j]),
        {
            match Block::from_usize(i) {
                Some(b) => blocks.push(b),
                None => (),
            }
        }
        Palette { blocks }
    }

    pub fn len(&self) -> (r: usize)
        ensures
            r == self@.len(),
    {
        self.blocks.len()
    }

    /// The color at position `idx` of the palette.
    pub fn get(&self, idx: usize) -> (r: Block)
        requires
            idx < self@.len(),
        ensures
            r == self@[idx as int],
    {
        self.blocks[idx]
    }

    /// An exact copy of this palette.
    pub fn duplicate(&self) -> (r: Palette)
        ensures
            r@ == self@,
    {
        let mut blocks: Vec<Block> = Vec::new();
        let n = self.blocks.len();
        for k in 0..n
            invariant
                n == self@.len(),
                blocks@ == self@.subrange(0, k as int),
        {
            blocks.push(self.blocks[k]);
            proof {
                assert(blocks@ =~= self@.subrange(0, k + 1));
            }
        }
        proof {
            assert(self@.subrange(0, n as int) =~= self@);
        }
        Palette { blocks }
    }

    /// Uniformly draws one of the palette's colors.
    pub fn get_random(&self, rng: &mut rand::rngs::StdRng) -> (r: Block)
        requires
            0 < self@.len(),
        ensures
            self@.contains(r),
    {
        let idx = crate::rng::rand_below(rng, self.blocks.len());
        let r = self.blocks[idx];
        proof {
            assert(self@[idx as int] == r);
        }
        r
    }

    /// Adds the next undefined color to the palette; returns `false`
    /// (and changes nothing) once the color domain is exhausted.
    pub fn expand(&mut self) -> (grew: bool)
        requires
            old(self).wf(),
        ensures
            final(self).wf(),
            grew == (old(self)@.len() < BLOCK_KINDS),
            grew ==> final(self)@ == old(self)@.push(
                Block::spec_from_usize(old(self)@.len() as int)->Some_0,
            ),
            !grew ==> final(self)@ == old(self)@,
    {
        match Block::from_usize(self.blocks.len()) {
            Some(next) => {
                self.blocks.push(next);
                true
            },
            None => false,
        }
    }
}

/// A palette never contains the same color twice.
pub proof fn lemma_palette_no_duplicates(p: Palette)
    requires
        p.wf(),
    ensures
        p@.no_duplicates(),
{
    assert forall|i: int, j: int| 0 <= i < p@.len() && 0 <= j < p@.len() && i != j implies p@[i]
        != p@[j] by {
        assert(Block::spec_from_usize(i) == Some(p@[i]));
        assert(Block::spec_from_usize(j) == Some(p@[j]));
    }
}

/// The result of a bounds-checked cell read: out-of-bounds access is a
/// first-class result, never a crash.
#[derive(Clone, Copy, Debug, Eq, Hash, PartialEq, Structural)]
pub enum BoardCell {
    OutOfBounds,
    Empty,
    Contains(Block),
}

/// A rectangular grid of optionally-occupied cells, stored column-major:
/// `x` indexes a column, `y` a row, row 0 at the top. The height
/// includes the spawn/death buffer above the visible play area.
pub struct Board {
    blocks: Vec<Vec<Option<Block>>>,
}

impl Board {
    /// The grid as a sequence of columns, each a sequence of cells from
    /// top to bottom.
    pub closed spec fn grid(self) -> Seq<Seq<Option<Block>>> {
        self.blocks@.map_values(|c: Vec<Option<Block>>| c@)
    }

    pub open spec fn spec_x_len(self) -> nat {
        self.grid().len()
    }

    pub open spec fn spec_y_len(self) -> nat {
        if self.grid().len() > 0 {
            self.grid()[0].len()
        } else {
            0
        }
    }

    /// At least one column, at least four rows, all columns of equal
    /// height; the dimensions are fixed for the board's lifetime.
    pub open spec fn wf(self) -> bool {
        &&& 1 <= self.spec_x_len()
        &&& 4 <= self.spec_y_len()
        &&& forall|x: int|
            0 <= x < self.spec_x_len() ==> (#[trigger] self.grid()[x]).len() == self.spec_y_len()
    }

    pub open spec fn in_bounds(self, x: int, y: int) -> bool {
        0 <= x < self.spec_x_len() && 0 <= y < self.spec_y_len()
    }

    pub open spec fn cell(self, x: int, y: int) -> Option<Block> {
        self.grid()[x][y]
    }

    pub open spec fn spec_get(self, x: int, y: int) -> BoardCell {
        if !self.in_bounds(x, y) {
            BoardCell::OutOfBounds
        } else {
            match self.cell(x, y) {
                Some(b) => BoardCell::Contains(b),
                None => BoardCell::Empty,
            }
        }
    }

    /// A new board of `sz[0]` columns and `sz[1]` rows, all cells empty.
    /// A board narrower than one column or shorter than four rows is a
    /// configuration violation and is rejected before any state exists.
    pub fn new(sz: [usize; 2]) -> (r: Board)
        requires
            0 < sz[0],
            3 < sz[1],
        ensures
            r.wf(),
            r.spec_x_len() == sz[0],
            r.spec_y_len() == sz[1],
            forall|x: int, y: int| r.in_bounds(x, y) ==> #[trigger] r.cell(x, y) is None,
    {
        let w = sz[0];
        let h = sz[1];
        let mut blocks: Vec<Vec<Option<Block>>> = Vec::new();
        for x in 0..w
            invariant
                blocks@.len() == x,
                forall|i: int| 0 <= i < x ==> (#[trigger] blocks@[i])@.len() == h,
                forall|i: int, j: int|
                    0 <= i < x && 0 <= j < h ==> (#[trigger] blocks@[i]@[j]) is None,
        {
            let mut col: Vec<Option<Block>> = Vec::new();
            for y in 0..h
                invariant
                    col@.len() == y,
                    forall|j: int| 0 <= j < y ==> (#[trigger] col@[j]) is None,
            {
                col.push(None);
            }
            blocks.push(col);
        }
        let r = Board { blocks };
        assert(forall|x: int|
            0 <= x < r.grid().len() ==> (#[trigger] r.grid()[x]).len() == h);
        r
    }

    pub fn x_len(&self) -> (r: usize)
        ensures
            r == self.spec_x_len(),
    {
        self.blocks.len()
    }

    pub fn y_len(&self) -> (r: usize)
        requires
            self.wf(),
        ensures
            r == self.spec_y_len(),
    {
        self.blocks[0].len()
    }

    /// Bounds-checked read at whole-cell coordinates.
    pub fn get(&self, xy: [usize; 2]) -> (r: BoardCell)
        requires
            self.wf(),
        ensures
            r == self.spec_get(xy[0] as int, xy[1] as int),
    {
        let x = xy[0];
        let y = xy[1];
        if self.x_len() <= x || self.y_len() <= y {
            return BoardCell::OutOfBounds;
        }
        match self.blocks[x][y] {
            Some(block) => BoardCell::Contains(block),
            None => BoardCell::Empty,
        }
    }

    /// Bounds-checked read at a pillar position: the milli-cell vertical
    /// coordinate is truncated to its whole-cell row.
    pub fn get_pp(&self, pos: PilPos) -> (r: BoardCell)
        requires
            self.wf(),
        ensures
            r == self.spec_get(pos.x as int, pos.spec_row()),
    {
        if self.x_len() <= pos.x {
            return BoardCell::OutOfBounds;
        }
        let row = pos.y / MILLI;
        if (self.y_len() as u64) <= row {
            return BoardCell::OutOfBounds;
        }
        match self.blocks[pos.x][row as usize] {
            Some(block) => BoardCell::Contains(block),
            None => BoardCell::Empty,
        }
    }

    /// Writes `v` into the cell at `xy`.
    pub fn set(&mut self, xy: [usize; 2], v: Option<Block>)
        requires
            old(self).wf(),
            old(self).in_bounds(xy[0] as int, xy[1] as int),
        ensures
            final(self).wf(),
            final(self).grid() == old(self).grid().update(
                xy[0] as int,
                old(self).grid()[xy[0] as int].update(xy[1] as int, v),
            ),
    {
        let x = xy[0];
        let y = xy[1];
        proof {
            assert(self.grid()[x as int] == self.blocks@[x as int]@);
        }
        self.blocks[x][y] = v;
        assert(self.grid() =~= old(self).grid().update(
            x as int,
            old(self).grid()[x as int].update(y as int, v),
        ));
    }

    pub fn sz(&self) -> (r: [usize; 2])
        requires
            self.wf(),
        ensures
            r[0] == self.spec_x_len(),
            r[1] == self.spec_y_len(),
    {
        [self.x_len(), self.y_len()]
    }
}

/// The grid after a pillar's blocks have been copied into column `x`,
/// into successive rows ending at `row`, working upward.
pub open spec fn spec_written_grid(b: Board, p: Seq<Block>, x: int, row: int) -> Seq<
    Seq<Option<Block>>,
> {
    b.grid().update(
        x,
        Seq::new(
            b.spec_y_len(),
            |y: int|
                if row - p.len() < y <= row {
                    Some(p[y - (row - p.len() + 1)])
                } else {
                    b.cell(x, y)
                },
        ),
    )
}

/// Copies the pillar's blocks into the column of `pos`, into successive
/// rows ending at the whole-cell row of `pos`, working upward. The
/// caller must already have validated the landing placement.
pub fn write_pillar(board: &mut Board, pillar: &Pillar, pos: PilPos)
    requires
        old(board).wf(),
        (pos.x as int) < old(board).spec_x_len(),
        pos.spec_row() < old(board).spec_y_len(),
        pillar@.len() <= pos.spec_row(),
    ensures
        final(board).wf(),
        final(board).spec_x_len() == old(board).spec_x_len(),
        final(board).spec_y_len() == old(board).spec_y_len(),
        forall|x: int, y: int|
            final(board).in_bounds(x, y) && x != pos.x ==> final(board).cell(x, y) == old(
                board,
            ).cell(x, y),
        forall|y: int|
            0 <= y < old(board).spec_y_len() && !(pos.spec_row() - pillar@.len() < y
                <= pos.spec_row()) ==> final(board).cell(pos.x as int, y) == old(board).cell(
                pos.x as int,
                y,
            ),
        forall|i: int|
            0 <= i < pillar@.len() ==> final(board).cell(
                pos.x as int,
                pos.spec_row() - pillar@.len() + 1 + i,
            ) == Some(pillar@[i]),
        final(board).grid() == spec_written_grid(
            *old(board),
            pillar@,
            pos.x as int,
            pos.spec_row(),
        ),
{
    let h = board.y_len();
    let row_m = pos.y / MILLI;
    assert(row_m < h as u64);
    let row = row_m as usize;
    let len = pillar.len();
    let mut i: usize = 0;
    while i < len
        invariant
            board.wf(),
            board.spec_x_len() == old(board).spec_x_len(),
            board.spec_y_len() == old(board).spec_y_len(),
            i <= len,
            len == pillar@.len(),
            pos.x < board.spec_x_len(),
            row == pos.spec_row(),
            row < board.spec_y_len(),
            len <= row,
            forall|x: int, y: int|
                board.in_bounds(x, y) && x != pos.x ==> board.cell(x, y) == old(board).cell(x, y),
            forall|y: int|
                0 <= y < board.spec_y_len() && !(row - len < y <= row - len + i) ==> board.cell(
                    pos.x as int,
                    y,
                ) == old(board).cell(pos.x as int, y),
            forall|j: int|
                0 <= j < i ==> board.cell(pos.x as int, row - len + 1 + j) == Some(pillar@[j]),
        decreases len - i,
    {
        let y = row - len + 1 + i;
        board.set([pos.x, y], Some(pillar.get(i)));
        i = i + 1;
    }
    proof {
        let expected = spec_written_grid(*old(board), pillar@, pos.x as int, pos.spec_row());
        assert forall|ci: int| 0 <= ci < expected.len() implies board.grid()[ci]
            =~= expected[ci] by {
            if ci == pos.x as int {
                assert forall|y: int| 0 <= y < board.spec_y_len() implies board.grid()[ci][y]
                    == expected[ci][y] by {
                    assert(board.cell(pos.x as int, y) == board.grid()[ci][y]);
                    if row - len < y <= row {
                        assert(board.cell(pos.x as int, row - len + 1 + (y - (row - len + 1)))
                            == Some(pillar@[y - (row - len + 1)]));
                    }
                }
            } else {
                assert forall|y: int| 0 <= y < board.spec_y_len() implies board.grid()[ci][y]
                    == expected[ci][y] by {
                    assert(board.cell(ci, y) == old(board).cell(ci, y));
                }
            }
        }
        assert(board.grid() =~= expected);
    }
}

impl Board {
    /// The cell at (x, y) holds a block while the cell directly below
    /// is empty, so gravity can move the block down one row.
    pub open spec fn spec_droppable(self, x: int, y: int) -> bool {
        self.cell(x, y) is Some && self.cell(x, y + 1) is None
    }

    /// Gravity has reached its fixed point: no block sits directly
    /// above an empty cell.
    pub open spec fn spec_settled(self) -> bool {
        forall|x: int, y: int|
            0 <= x < self.spec_x_len() && 0 <= y < self.spec_y_len() - 1 ==> !(
            #[trigger] self.spec_droppable(x, y))
    }

    /// The multiset of all blocks on the board.
    pub open spec fn blocks_multiset(self) -> Multiset<Block> {
        cols_multiset_upto(self.grid(), self.spec_x_len() as int)
    }

    /// The total number of rows every block could still fall if nothing
    /// were in its way; each single gravity move decreases it by one.
    pub open spec fn spec_pot(self) -> nat {
        pot_upto(self.grid(), self.spec_x_len() as int)
    }
}

/// The blocks of one column, top to bottom, with the empty cells left
/// out. Gravity moves blocks only within their column and never
/// reorders them, so this sequence is invariant under settling.
pub open spec fn packed_col(s: Seq<Option<Block>>) -> Seq<Block>
    decreases s.len(),
{
    if s.len() == 0 {
        Seq::empty()
    } else {
        (match s[0] {
            Some(b) => seq![b],
            None => Seq::empty(),
        }) + packed_col(s.drop_first())
    }
}

/// The multiset of blocks of the first `x` columns.
pub open spec fn cols_multiset_upto(g: Seq<Seq<Option<Block>>>, x: int) -> Multiset<Block>
    decreases x,
{
    if x <= 0 {
        Multiset::empty()
    } else {
        cols_multiset_upto(g, x - 1).add(packed_col(g[x - 1]).to_multiset())
    }
}

/// How far the blocks of one column could fall in total: a block at
/// index `y` of a column of length `n` weighs `n - 1 - y`.
pub open spec fn pot_col(s: Seq<Option<Block>>) -> nat
    decreases s.len(),
{
    if s.len() == 0 {
        0
    } else {
        (if s[0] is Some {
            (s.len() - 1) as nat
        } else {
            0
        }) + pot_col(s.drop_first())
    }
}

/// The summed column potentials of the first `x` columns.
pub open spec fn pot_upto(g: Seq<Seq<Option<Block>>>, x: int) -> nat
    decreases x,
{
    if x <= 0 {
        0
    } else {
        pot_upto(g, x - 1) + pot_col(g[x - 1])
    }
}

/// The column after one gravity move at row `y`: the block falls from
/// `y` into the empty cell at `y + 1`.
pub open spec fn col_after_move(s: Seq<Option<Block>>, y: int, b: Block) -> Seq<Option<Block>> {
    s.update(y, None).update(y + 1, Some(b))
}

proof fn lemma_packed_col_move(s: Seq<Option<Block>>, y: int, b: Block)
    requires
        0 <= y < s.len() - 1,
        s[y] == Some(b),
        s[y + 1] is None,
    ensures
        packed_col(col_after_move(s, y, b)) == packed_col(s),
    decreases y,
{
    let s2 = col_after_move(s, y, b);
    if y == 0 {
        assert(s2.drop_first().drop_first() =~= s.drop_first().drop_first());
        assert(s.drop_first()[0] is None);
        assert(s2.drop_first()[0] == Some(b));
        assert(packed_col(s.drop_first()) == packed_col(s.drop_first().drop_first()));
        assert(packed_col(s2) == packed_col(s2.drop_first()));
        assert(packed_col(s2.drop_first()) == seq![b] + packed_col(s2.drop_first().drop_first()));
        assert(packed_col(s) == seq![b] + packed_col(s.drop_first()));
    } else {
        lemma_packed_col_move(s.drop_first(), y - 1, b);
        assert(s2.drop_first() =~= col_after_move(s.drop_first(), y - 1, b));
        assert(s2[0] == s[0]);
        assert(packed_col(s2) == (match s2[0] {
            Some(c) => seq![c],
            None => Seq::<Block>::empty(),
        }) + packed_col(s2.drop_first()));
        assert(packed_col(s) == (match s[0] {
            Some(c) => seq![c],
            None => Seq::<Block>::empty(),
        }) + packed_col(s.drop_first()));
    }
}

proof fn lemma_pot_col_move(s: Seq<Option<Block>>, y: int, b: Block)
    requires
        0 <= y < s.len() - 1,
        s[y] == Some(b),
        s[y + 1] is None,
    ensures
        pot_col(col_after_move(s, y, b)) + 1 == pot_col(s),
    decreases y,
{
    let s2 = col_after_move(s, y, b);
    if y == 0 {
        assert(s2.drop_first().drop_first() =~= s.drop_first().drop_first());
        assert(s.drop_first()[0] is None);
        assert(s2.drop_first()[0] == Some(b));
        assert(s2.drop_first().len() == s.len() - 1);
        assert(pot_col(s.drop_first()) == pot_col(s.drop_first().drop_first()));
        assert(pot_col(s2) == pot_col(s2.drop_first()));
        assert(pot_col(s2.drop_first()) == (s.len() - 2) as nat + pot_col(
            s2.drop_first().drop_first(),
        ));
        assert(pot_col(s) == (s.len() - 1) as nat + pot_col(s.drop_first()));
    } else {
        lemma_pot_col_move(s.drop_first(), y - 1, b);
        assert(s2.drop_first() =~= col_after_move(s.drop_first(), y - 1, b));
        assert(s2[0] == s[0]);
        assert(s2.len() == s.len());
        assert(pot_col(s2) == (if s2[0] is Some {
            (s2.len() - 1) as nat
        } else {
            0
        }) + pot_col(s2.drop_first()));
        assert(pot_col(s) == (if s[0] is Some {
            (s.len() - 1) as nat
        } else {
            0
        }) + pot_col(s.drop_first()));
    }
}

proof fn lemma_pot_upto_congruent(a: Seq<Seq<Option<Block>>>, b: Seq<Seq<Option<Block>>>, n: int)
    requires
        forall|i: int| 0 <= i < n ==> a[i] == b[i],
    ensures
        pot_upto(a, n) == pot_upto(b, n),
    decreases n,
{
    if n > 0 {
        lemma_pot_upto_congruent(a, b, n - 1);
    }
}

proof fn lemma_pot_upto_update(g: Seq<Seq<Option<Block>>>, x: int, c2: Seq<Option<Block>>, n: int)
    requires
        0 <= x < n <= g.len(),
    ensures
        pot_upto(g.update(x, c2), n) + pot_col(g[x]) == pot_upto(g, n) + pot_col(c2),
    decreases n,
{
    let g2 = g.update(x, c2);
    if x == n - 1 {
        lemma_pot_upto_congruent(g2, g, n - 1);
    } else {
        lemma_pot_upto_update(g, x, c2, n - 1);
    }
}

proof fn lemma_cols_multiset_congruent(
    a: Seq<Seq<Option<Block>>>,
    b: Seq<Seq<Option<Block>>>,
    n: int,
)
    requires
        forall|i: int| 0 <= i < n ==> packed_col(#[trigger] a[i]) == packed_col(b[i]),
    ensures
        cols_multiset_upto(a, n) == cols_multiset_upto(b, n),
    decreases n,
{
    if n > 0 {
        lemma_cols_multiset_congruent(a, b, n - 1);
    }
}

/// No block in this column sits directly above an empty cell.
pub open spec fn col_settled(s: Seq<Option<Block>>) -> bool {
    forall|y: int| 0 <= y < s.len() - 1 && (#[trigger] s[y]) is Some ==> s[y + 1] is Some
}

/// A settled column is its packed blocks at the bottom, with empty
/// cells above.
proof fn lemma_settled_col_shape(s: Seq<Option<Block>>)
    requires
        col_settled(s),
    ensures
        packed_col(s).len() <= s.len(),
        forall|y: int|
            0 <= y < s.len() ==> s[y] == (if y >= s.len() - packed_col(s).len() {
                Some(packed_col(s)[y - (s.len() - packed_col(s).len())])
            } else {
                None
            }),
    decreases s.len(),
{
    if s.len() == 0 {
    } else {
        let t = s.drop_first();
        assert(col_settled(t)) by {
            assert forall|y: int|
                0 <= y < t.len() - 1 && (#[trigger] t[y]) is Some implies t[y + 1] is Some by {
                assert(s[y + 1] == t[y]);
                assert(s[y + 2] == t[y + 1]);
            }
        }
        lemma_settled_col_shape(t);
        match s[0] {
            Some(b) => {
                assert(packed_col(s) == seq![b] + packed_col(t));
                if t.len() > 0 {
                    assert(t[0] is Some) by {
                        assert(s[0] is Some);
                        assert(s[1] == t[0]);
                    }
                    assert(packed_col(t).len() == t.len()) by {
                        if packed_col(t).len() < t.len() {
                            assert(t[0] is None);
                        }
                    }
                }
                assert forall|y: int| 0 <= y < s.len() implies s[y] == (if y >= s.len()
                    - packed_col(s).len() {
                    Some(packed_col(s)[y - (s.len() - packed_col(s).len())])
                } else {
                    None
                }) by {
                    if y > 0 {
                        assert(s[y] == t[y - 1]);
                        assert(packed_col(s)[y] == packed_col(t)[y - 1]);
                    }
                }
            },
            None => {
                assert(packed_col(s) == packed_col(t));
                assert forall|y: int| 0 <= y < s.len() implies s[y] == (if y >= s.len()
                    - packed_col(s).len() {
                    Some(packed_col(s)[y - (s.len() - packed_col(s).len())])
                } else {
                    None
                }) by {
                    if y > 0 {
                        assert(s[y] == t[y - 1]);
                    }
                }
            },
        }
    }
}

/// Gravity has a unique fixed point: a settled board is completely
/// determined by its dimensions and its per-column block sequences.
/// Together with the settling contract, this pins the settled board
/// down exactly.
pub proof fn lemma_settled_boards_equal(a: Board, b: Board)
    requires
        a.wf(),
        b.wf(),
        a.spec_x_len() == b.spec_x_len(),
        a.spec_y_len() == b.spec_y_len(),
        a.spec_settled(),
        b.spec_settled(),
        forall|x: int|
            0 <= x < a.spec_x_len() ==> packed_col(#[trigger] a.grid()[x]) == packed_col(
                b.grid()[x],
            ),
    ensures
        a.grid() == b.grid(),
{
    assert forall|x: int| 0 <= x < a.spec_x_len() implies a.grid()[x] =~= b.grid()[x] by {
        assert(col_settled(a.grid()[x])) by {
            assert forall|y: int|
                0 <= y < a.grid()[x].len() - 1 && (#[trigger] a.grid()[x][y])
                    is Some implies a.grid()[x][y + 1] is Some by {
                assert(!a.spec_droppable(x, y));
            }
        }
        assert(col_settled(b.grid()[x])) by {
            assert forall|y: int|
                0 <= y < b.grid()[x].len() - 1 && (#[trigger] b.grid()[x][y])
                    is Some implies b.grid()[x][y + 1] is Some by {
                assert(!b.spec_droppable(x, y));
            }
        }
        lemma_settled_col_shape(a.grid()[x]);
        lemma_settled_col_shape(b.grid()[x]);
    }
    assert(a.grid() =~= b.grid());
}

/// One full top-to-bottom sweep over every column: each block directly
/// above an empty cell moves down one row (a block can cascade several
/// rows within one sweep, since the scan revisits it at its new row).
fn sweep(board: &mut Board) -> (moved: bool)
    requires
        old(board).wf(),
    ensures
        final(board).wf(),
        final(board).spec_x_len() == old(board).spec_x_len(),
        final(board).spec_y_len() == old(board).spec_y_len(),
        forall|i: int|
            0 <= i < old(board).spec_x_len() ==> packed_col(#[trigger] final(board).grid()[i])
                == packed_col(old(board).grid()[i]),
        moved ==> final(board).spec_pot() < old(board).spec_pot(),
        moved ==> !old(board).spec_settled(),
        !moved ==> final(board).grid() == old(board).grid() && final(board).spec_settled(),
{
    let w = board.x_len();
    let h = board.y_len();
    let mut moved = false;
    let mut x: usize = 0;
    while x < w
        invariant
            board.wf(),
            w == board.spec_x_len(),
            h == board.spec_y_len(),
            board.spec_x_len() == old(board).spec_x_len(),
            board.spec_y_len() == old(board).spec_y_len(),
            x <= w,
            forall|i: int|
                0 <= i < w ==> packed_col(#[trigger] board.grid()[i]) == packed_col(
                    old(board).grid()[i],
                ),
            moved ==> board.spec_pot() < old(board).spec_pot(),
            moved ==> !old(board).spec_settled(),
            !moved ==> board.grid() == old(board).grid(),
            !moved ==> forall|i: int, j: int|
                0 <= i < x && 0 <= j < h - 1 ==> !(#[trigger] board.spec_droppable(i, j)),
        decreases w - x,
    {
        let mut y: usize = 0;
        while y < h - 1
            invariant
                board.wf(),
                w == board.spec_x_len(),
                h == board.spec_y_len(),
                board.spec_x_len() == old(board).spec_x_len(),
                board.spec_y_len() == old(board).spec_y_len(),
                x < w,
                y <= h - 1,
                forall|i: int|
                    0 <= i < w ==> packed_col(#[trigger] board.grid()[i]) == packed_col(
                        old(board).grid()[i],
                    ),
                moved ==> board.spec_pot() < old(board).spec_pot(),
                moved ==> !old(board).spec_settled(),
                !moved ==> board.grid() == old(board).grid(),
                !moved ==> forall|i: int, j: int|
                    0 <= i < x && 0 <= j < h - 1 ==> !(#[trigger] board.spec_droppable(i, j)),
                !moved ==> forall|j: int|
                    0 <= j < y ==> !(#[trigger] board.spec_droppable(x as int, j)),
            decreases h - 1 - y,
        {
            if let BoardCell::Contains(b) = board.get([x, y]) {
                if let BoardCell::Empty = board.get([x, y + 1]) {
                    let ghost g0 = board.grid();
                    let ghost col0 = g0[x as int];
                    proof {
                        if !moved {
                            assert(old(board).spec_droppable(x as int, y as int));
                            assert(!old(board).spec_settled());
                        }
                    }
                    board.set([x, y], None);
                    board.set([x, y + 1], Some(b));
                    proof {
                        let col2 = col_after_move(col0, y as int, b);
                        assert(board.grid() =~= g0.update(x as int, col2));
                        lemma_packed_col_move(col0, y as int, b);
                        lemma_pot_col_move(col0, y as int, b);
                        lemma_pot_upto_update(g0, x as int, col2, w as int);
                        assert(board.spec_pot() + 1 == pot_upto(g0, w as int));
                        assert(forall|i: int|
                            0 <= i < w && i != x ==> board.grid()[i] == g0[i]);
                    }
                    moved = true;
                }
            }
            y = y + 1;
        }
        x = x + 1;
    }
    proof {
        if !moved {
            assert forall|i: int, j: int|
                0 <= i < board.spec_x_len() && 0 <= j < board.spec_y_len() - 1 implies !(
            #[trigger] board.spec_droppable(i, j)) by {}
        }
    }
    moved
}

/// Settles the board: repeats full gravity sweeps until a sweep moves
/// nothing. Returns whether any movement occurred at all, which is the
/// case exactly when the board was not already settled; a settled board
/// is left unchanged. The blocks of each column keep their count, their
/// colors and their relative order — only their rows change.
pub fn fall_down(board: &mut Board) -> (changed: bool)
    requires
        old(board).wf(),
    ensures
        final(board).wf(),
        final(board).spec_x_len() == old(board).spec_x_len(),
        final(board).spec_y_len() == old(board).spec_y_len(),
        final(board).spec_settled(),
        changed == !old(board).spec_settled(),
        !changed ==> final(board).grid() == old(board).grid(),
        forall|i: int|
            0 <= i < old(board).spec_x_len() ==> packed_col(#[trigger] final(board).grid()[i])
                == packed_col(old(board).grid()[i]),
        final(board).blocks_multiset() == old(board).blocks_multiset(),
{
    let first = sweep(board);
    if !first {
        proof {
            lemma_cols_multiset_congruent(
                board.grid(),
                old(board).grid(),
                board.spec_x_len() as int,
            );
            assert forall|x: int, y: int|
                0 <= x < old(board).spec_x_len() && 0 <= y < old(board).spec_y_len()
                    - 1 implies !(#[trigger] old(board).spec_droppable(x, y)) by {
                assert(!board.spec_droppable(x, y));
            }
        }
        return false;
    }
    let mut dropping = true;
    while dropping
        invariant
            board.wf(),
            board.spec_x_len() == old(board).spec_x_len(),
            board.spec_y_len() == old(board).spec_y_len(),
            forall|i: int|
                0 <= i < old(board).spec_x_len() ==> packed_col(#[trigger] board.grid()[i])
                    == packed_col(old(board).grid()[i]),
            !dropping ==> board.spec_settled(),
        decreases board.spec_pot(), (if dropping { 1int } else { 0int }),
    {
        dropping = sweep(board);
    }
    proof {
        lemma_cols_multiset_congruent(board.grid(), old(board).grid(), board.spec_x_len() as int);
    }
    true
}

/// A cell is part of a reported match when it holds a block and its
/// same-colored connected group spans at least `matches_required`
/// cells.
pub open spec fn in_match_set(b: Board, matches_required: u64, c: [usize; 2], blk: Block) -> bool {
    &&& cell_is(b, blk, c)
    &&& component(b, blk, c).len() >= matches_required
}

/// The cell `c` comes strictly before column `x`, row `y` in the
/// column-major scan order.
spec fn scanned_before(c: [usize; 2], x: int, y: int) -> bool {
    c[0] < x || (c[0] == x && c[1] < y)
}

proof fn lemma_push_contains_pair(
    s: Seq<([usize; 2], Block)>,
    m: ([usize; 2], Block),
    x: ([usize; 2], Block),
)
    ensures
        s.push(m).contains(x) <==> (s.contains(x) || x == m),
{
    let t = s.push(m);
    if s.contains(x) {
        let i = choose|i: int| 0 <= i < s.len() && s[i] == x;
        assert(t[i] == x);
    }
    assert(t[s.len() as int] == m);
    if t.contains(x) && x != m {
        let i = choose|i: int| 0 <= i < t.len() && t[i] == x;
        assert(i < s.len());
        assert(s[i] == x);
    }
}

/// Reports every cell whose same-colored connected group (over lateral
/// neighbors) has at least `matches_required` cells, together with its
/// block, each such cell exactly once, in column-major scan order.
pub fn find_matches(board: &Board, matches_required: u64) -> (r: Vec<([usize; 2], Block)>)
    requires
        board.wf(),
    ensures
        r@.no_duplicates(),
        forall|c: [usize; 2], blk: Block| #[trigger]
            r@.contains((c, blk)) <==> in_match_set(*board, matches_required, c, blk),
{
    let w = board.x_len();
    let h = board.y_len();
    let mut matching: Vec<([usize; 2], Block)> = Vec::new();
    let mut x: usize = 0;
    while x < w
        invariant
            board.wf(),
            w == board.spec_x_len(),
            h == board.spec_y_len(),
            x <= w,
            matching@.no_duplicates(),
            forall|i: int|
                0 <= i < matching@.len() ==> scanned_before((#[trigger] matching@[i]).0, x as int, 0),
            forall|c: [usize; 2], blk: Block| #[trigger]
                matching@.contains((c, blk)) <==> (scanned_before(c, x as int, 0) && in_match_set(
                    *board,
                    matches_required,
                    c,
                    blk,
                )),
        decreases w - x,
    {
        let mut y: usize = 0;
        while y < h
            invariant
                board.wf(),
                w == board.spec_x_len(),
                h == board.spec_y_len(),
                x < w,
                y <= h,
                matching@.no_duplicates(),
                forall|i: int|
                    0 <= i < matching@.len() ==> scanned_before(
                        (#[trigger] matching@[i]).0,
                        x as int,
                        y as int,
                    ),
                forall|c: [usize; 2], blk: Block| #[trigger]
                    matching@.contains((c, blk)) <==> (scanned_before(c, x as int, y as int)
                        && in_match_set(*board, matches_required, c, blk)),
            decreases h - y,
        {
            let cur = [x, y];
            if let BoardCell::Contains(block) = board.get(cur) {
                assert(cell_is(*board, block, cur));
                let ms = search(cur, board, block);
                proof {
                    ms@.unique_seq_to_set();
                    assert(component(*board, block, cur).len() == ms@.len());
                }
                if matches_required <= ms.len() as u64 {
                    let entry = (cur, block);
                    let ghost before = matching@;
                    matching.push(entry);
                    proof {
                        assert forall|c: [usize; 2], blk: Block| true implies (
                        #[trigger] matching@.contains((c, blk)) <==> (before.contains((c, blk))
                            || (c, blk) == entry)) by {
                            lemma_push_contains_pair(before, entry, (c, blk));
                        }
                        assert(matching@.no_duplicates()) by {
                            assert forall|i: int, j: int|
                                #![trigger matching@[i], matching@[j]]
                                0 <= i < j < matching@.len() implies matching@[i] != matching@[j] by {
                                if j < before.len() {
                                } else {
                                    assert(matching@[j] == entry);
                                    assert(scanned_before(before[i].0, x as int, y as int));
                                }
                            }
                        }
                    }
                }
            }
            proof {
                assert forall|c: [usize; 2], blk: Block| scanned_before(c, x as int, y + 1) && in_match_set(
                    *board,
                    matches_required,
                    c,
                    blk,
                ) implies #[trigger] matching@.contains((c, blk)) by {
                    if scanned_before(c, x as int, y as int) {
                    } else {
                        assert(c[0] == x && c[1] == y);
                        assert(c =~= [x, y]);
                        assert(cell_is(*board, blk, c));
                        assert(board.cell(x as int, y as int) == Some(blk));
                    }
                }
            }
            y = y + 1;
        }
        x = x + 1;
    }
    proof {
        assert forall|c: [usize; 2], blk: Block| in_match_set(
            *board,
            matches_required,
            c,
            blk,
        ) implies #[trigger] matching@.contains((c, blk)) by {
            assert(cell_is(*board, blk, c));
            assert(scanned_before(c, w as int, 0));
        }
    }
    matching
}

/// True when any cell in the topmost `death_zone + 1` rows (the buffer
/// above the visible play area) is occupied.
pub fn is_game_over(board: &Board, death_zone: usize) -> (r: bool)
    requires
        board.wf(),
        (death_zone as int) < board.spec_y_len(),
    ensures
        r == exists|x: int, y: int|
            0 <= x < board.spec_x_len() && 0 <= y <= death_zone && #[trigger] board.cell(
                x,
                y,
            ) is Some,
{
    let w = board.x_len();
    let h = board.y_len();
    let mut x: usize = 0;
    while x < w
        invariant
            board.wf(),
            w == board.spec_x_len(),
            h == board.spec_y_len(),
            death_zone < h,
            x <= w,
            forall|i: int, j: int|
                0 <= i < x && 0 <= j <= death_zone ==> !(#[trigger] board.cell(i, j) is Some),
        decreases w - x,
    {
        let mut y: usize = 0;
        while y <= death_zone
            invariant
                board.wf(),
                w == board.spec_x_len(),
                h == board.spec_y_len(),
                x < w,
                death_zone < h,
                y <= death_zone + 1,
                forall|j: int| 0 <= j < y ==> !(#[trigger] board.cell(x as int, j) is Some),
            decreases death_zone + 1 - y,
        {
            if let BoardCell::Contains(_) = board.get([x, y]) {
                return true;
            }
            y = y + 1;
        }
        x = x + 1;
    }
    false
}

} // verus!

//! Grid neighborhoods and the flood-fill search that underlies match
//! detection: collecting the connected component of same-colored cells
//! around a seed cell.

use vstd::prelude::*;
use vstd::set_lib::{lemma_int_range, lemma_len_subset, set_int_range};

use crate::board::{Block, Board, BoardCell};

verus! {

/// Two cells are lateral neighbors: they differ by exactly one row or
/// exactly one column.
pub open spec fn adjacent(a: [usize; 2], b: [usize; 2]) -> bool {
    ||| (a[0] == b[0] && (a[1] + 1 == b[1] || b[1] + 1 == a[1]))
    ||| (a[1] == b[1] && (a[0] + 1 == b[0] || b[0] + 1 == a[0]))
}

/// The cell `c` lies on the board and holds exactly the block `blk`.
pub open spec fn cell_is(b: Board, blk: Block, c: [usize; 2]) -> bool {
    &&& b.in_bounds(c[0] as int, c[1] as int)
    &&& b.cell(c[0] as int, c[1] as int) == Some(blk)
}

/// A walk over laterally neighboring cells that all hold `blk`.
pub open spec fn is_path(b: Board, blk: Block, p: Seq<[usize; 2]>) -> bool {
    &&& p.len() > 0
    &&& forall|i: int| 0 <= i < p.len() ==> cell_is(b, blk, #[trigger] p[i])
    &&& forall|i: int| 0 <= i < p.len() - 1 ==> adjacent(#[trigger] p[i], p[i + 1])
}

/// `t` can be reached from `s` through same-colored neighboring cells.
pub open spec fn connected(b: Board, blk: Block, s: [usize; 2], t: [usize; 2]) -> bool {
    exists|p: Seq<[usize; 2]>| is_path(b, blk, p) && p.first() == s && p.last() == t
}

/// The full connected component of same-colored cells around the seed
/// `s` (including `s` itself, when `s` holds `blk`).
pub open spec fn component(b: Board, blk: Block, s: [usize; 2]) -> Set<[usize; 2]> {
    Set::new(|t: [usize; 2]| connected(b, blk, s, t))
}

proof fn lemma_connected_refl(b: Board, blk: Block, s: [usize; 2])
    requires
        cell_is(b, blk, s),
    ensures
        connected(b, blk, s, s),
{
    let p = seq![s];
    assert(is_path(b, blk, p) && p.first() == s && p.last() == s);
}

proof fn lemma_connected_cell(b: Board, blk: Block, s: [usize; 2], t: [usize; 2])
    requires
        connected(b, blk, s, t),
    ensures
        cell_is(b, blk, t),
{
    let p = choose|p: Seq<[usize; 2]>|
        is_path(b, blk, p) && p.first() == s && p.last() == t;
    assert(cell_is(b, blk, p[p.len() - 1]));
}

proof fn lemma_connected_step(b: Board, blk: Block, s: [usize; 2], n: [usize; 2], m: [usize; 2])
    requires
        connected(b, blk, s, n),
        adjacent(n, m),
        cell_is(b, blk, m),
    ensures
        connected(b, blk, s, m),
{
    let p = choose|p: Seq<[usize; 2]>|
        is_path(b, blk, p) && p.first() == s && p.last() == n;
    let q = p.push(m);
    assert forall|i: int| 0 <= i < q.len() implies cell_is(b, blk, #[trigger] q[i]) by {
        if i < p.len() {
            assert(q[i] == p[i]);
        }
    }
    assert forall|i: int| 0 <= i < q.len() - 1 implies adjacent(#[trigger] q[i], q[i + 1]) by {
        if i < p.len() - 1 {
            assert(q[i] == p[i] && q[i + 1] == p[i + 1]);
        } else {
            assert(q[i] == p[p.len() - 1] && q[i + 1] == m);
        }
    }
    assert(is_path(b, blk, q) && q.first() == s && q.last() == m);
}

/// Every cell connected to a seed inside a set that is closed under
/// same-colored adjacency is itself inside the set.
proof fn lemma_path_in_closed(b: Board, blk: Block, p: Seq<[usize; 2]>, vs: Seq<[usize; 2]>)
    requires
        is_path(b, blk, p),
        vs.contains(p.first()),
        forall|v: [usize; 2], u: [usize; 2]|
            vs.contains(v) && #[trigger] adjacent(v, u) && cell_is(b, blk, u) ==> vs.contains(u),
    ensures
        vs.contains(p.last()),
    decreases p.len(),
{
    if p.len() > 1 {
        let q = p.drop_last();
        assert(is_path(b, blk, q)) by {
            assert forall|i: int| 0 <= i < q.len() implies cell_is(b, blk, #[trigger] q[i]) by {
                assert(q[i] == p[i]);
            }
            assert forall|i: int| 0 <= i < q.len() - 1 implies adjacent(
                #[trigger] q[i],
                q[i + 1],
            ) by {
                assert(q[i] == p[i] && q[i + 1] == p[i + 1]);
            }
        }
        assert(q.first() == p.first());
        lemma_path_in_closed(b, blk, q, vs);
        assert(adjacent(p[p.len() - 2], p[p.len() - 1]));
        assert(cell_is(b, blk, p[p.len() - 1]));
    }
}

/// A duplicate-free sequence of cells that all lie in a `w` by `h` grid
/// has at most `w * h` entries.
proof fn lemma_bounded_distinct_coords(vs: Seq<[usize; 2]>, w: int, h: int)
    requires
        vs.no_duplicates(),
        0 <= w,
        0 < h,
        forall|i: int| 0 <= i < vs.len() ==> (#[trigger] vs[i])[0] < w && vs[i][1] < h,
    ensures
        vs.len() <= w * h,
{
    let ks = vs.map_values(|c: [usize; 2]| c[0] * h + c[1]);
    assert forall|i: int, j: int|
        #![trigger ks[i], ks[j]]
        0 <= i < j < ks.len() implies ks[i] != ks[j] by {
        if ks[i] == ks[j] {
            let a = vs[i];
            let c = vs[j];
            assert(a[0] == c[0] && a[1] == c[1]) by (nonlinear_arith)
                requires
                    a[0] * h + a[1] == c[0] * h + c[1],
                    0 <= a[1] < h,
                    0 <= c[1] < h,
                    0 <= a[0],
                    0 <= c[0],
            ;
            assert(a =~= c);
        }
    }
    assert(ks.no_duplicates());
    assert forall|i: int| 0 <= i < ks.len() implies 0 <= #[trigger] ks[i] < w * h by {
        let c = vs[i];
        assert(0 <= c[0] * h + c[1] < w * h) by (nonlinear_arith)
            requires
                0 <= c[0] < w,
                0 <= c[1] < h,
                0 < h,
        ;
    }
    ks.unique_seq_to_set();
    assert(ks.to_set().subset_of(set_int_range(0, w * h)));
    lemma_int_range(0, w * h);
    lemma_len_subset(ks.to_set(), set_int_range(0, w * h));
}

/// The four lateral neighbor coordinates of a cell, in the order right,
/// below, left, above. Subtraction wraps around zero; a wrapped
/// coordinate is out of bounds for every board.
pub fn neighbours(xy: [usize; 2]) -> (r: [[usize; 2]; 4])
    requires
        xy[0] < usize::MAX,
        xy[1] < usize::MAX,
    ensures
        r[0][0] == xy[0] + 1 && r[0][1] == xy[1],
        r[1][0] == xy[0] && r[1][1] == xy[1] + 1,
        r[2][0] == (if xy[0] == 0 { usize::MAX as int } else { xy[0] - 1 }) && r[2][1] == xy[1],
        r[3][0] == xy[0] && r[3][1] == (if xy[1] == 0 { usize::MAX as int } else { xy[1] - 1 }),
{
    let x = xy[0];
    let y = xy[1];
    [[x + 1, y], [x, y + 1], [x.wrapping_sub(1), y], [x, y.wrapping_sub(1)]]
}

/// Whether `m` occurs in `v`.
fn coords_contain(v: &Vec<[usize; 2]>, m: [usize; 2]) -> (r: bool)
    ensures
        r == v@.contains(m),
{
    let n = v.len();
    let mut i: usize = 0;
    while i < n
        invariant
            n == v@.len(),
            i <= n,
            forall|j: int| 0 <= j < i ==> v@[j] != m,
        decreases n - i,
    {
        let e = v[i];
        if e[0] == m[0] && e[1] == m[1] {
            proof {
                assert(e =~= m);
            }
            return true;
        }
        i = i + 1;
    }
    false
}

proof fn lemma_push_contains(s: Seq<[usize; 2]>, m: [usize; 2], x: [usize; 2])
    ensures
        s.push(m).contains(x) <==> (s.contains(x) || x == m),
{
    let t = s.push(m);
    if s.contains(x) {
        let i = choose|i: int| 0 <= i < s.len() && s[i] == x;
        assert(t[i] == x);
    }
    assert(t[s.len() as int] == m);
    if t.contains(x) && x != m {
        let i = choose|i: int| 0 <= i < t.len() && t[i] == x;
        assert(i < s.len());
        assert(s[i] == x);
    }
}

/// What visiting one candidate cell does: when `m` holds the sought
/// block and has not been visited yet, it is appended to both the
/// visited list and the open list; otherwise nothing changes.
pub open spec fn visit_step(
    board: Board,
    block: Block,
    av: Seq<[usize; 2]>,
    ao: Seq<[usize; 2]>,
    bv: Seq<[usize; 2]>,
    bo: Seq<[usize; 2]>,
    m: [usize; 2],
) -> bool {
    if cell_is(board, block, m) && !av.contains(m) {
        bv == av.push(m) && bo == ao.push(m)
    } else {
        bv == av && bo == ao
    }
}

/// Adds `m` to the visited list and the open list when it holds the
/// sought block and has not been visited yet.
fn visit_candidate(
    board: &Board,
    block: Block,
    m: [usize; 2],
    visited: &mut Vec<[usize; 2]>,
    open_list: &mut Vec<[usize; 2]>,
)
    requires
        board.wf(),
    ensures
        visit_step(
            *board,
            block,
            old(visited)@,
            old(open_list)@,
            final(visited)@,
            final(open_list)@,
            m,
        ),
{
    if board.get(m) == BoardCell::Contains(block) {
        assert(cell_is(*board, block, m));
        if !coords_contain(visited, m) {
            visited.push(m);
            open_list.push(m);
        }
    } else {
        assert(!cell_is(*board, block, m));
    }
}

/// The flood-fill loop invariant: the visited list is duplicate-free,
/// holds only cells of the component, the open list is a subset of it,
/// and every visited cell that is no longer open has all of its
/// same-colored neighbors visited.
spec fn search_inv(
    board: Board,
    block: Block,
    start: [usize; 2],
    vis: Seq<[usize; 2]>,
    open: Seq<[usize; 2]>,
) -> bool {
    &&& vis.no_duplicates()
    &&& vis.contains(start)
    &&& forall|i: int| 0 <= i < vis.len() ==> cell_is(board, block, #[trigger] vis[i])
    &&& forall|i: int| 0 <= i < vis.len() ==> connected(board, block, start, #[trigger] vis[i])
    &&& forall|i: int| 0 <= i < open.len() ==> vis.contains(#[trigger] open[i])
    &&& forall|v: [usize; 2], u: [usize; 2]|
        #![trigger vis.contains(v), adjacent(v, u)]
        vis.contains(v) && !open.contains(v) && adjacent(v, u) && cell_is(board, block, u)
            ==> vis.contains(u)
}

/// How one candidate visit preserves the parts of the loop invariant
/// that do not concern closedness.
proof fn lemma_visit_preserves(
    board: Board,
    block: Block,
    start: [usize; 2],
    n: [usize; 2],
    av: Seq<[usize; 2]>,
    ao: Seq<[usize; 2]>,
    bv: Seq<[usize; 2]>,
    bo: Seq<[usize; 2]>,
    m: [usize; 2],
)
    requires
        visit_step(board, block, av, ao, bv, bo, m),
        cell_is(board, block, m) ==> adjacent(n, m),
        connected(board, block, start, n),
        av.no_duplicates(),
        av.contains(start),
        forall|i: int| 0 <= i < av.len() ==> cell_is(board, block, #[trigger] av[i]),
        forall|i: int| 0 <= i < av.len() ==> connected(board, block, start, #[trigger] av[i]),
        forall|i: int| 0 <= i < ao.len() ==> av.contains(#[trigger] ao[i]),
    ensures
        bv.no_duplicates(),
        bv.contains(start),
        forall|i: int| 0 <= i < bv.len() ==> cell_is(board, block, #[trigger] bv[i]),
        forall|i: int| 0 <= i < bv.len() ==> connected(board, block, start, #[trigger] bv[i]),
        forall|i: int| 0 <= i < bo.len() ==> bv.contains(#[trigger] bo[i]),
        av.len() <= bv.len(),
        bv.len() == av.len() ==> bv == av && bo == ao,
        cell_is(board, block, m) ==> bv.contains(m),
        forall|x: [usize; 2]| av.contains(x) ==> bv.contains(x),
        forall|x: [usize; 2]| #[trigger] bv.contains(x) ==> av.contains(x) || x == m,
        forall|x: [usize; 2]| ao.contains(x) ==> bo.contains(x),
        forall|x: [usize; 2]| #[trigger] bo.contains(x) ==> ao.contains(x) || x == m,
        forall|x: [usize; 2]| #[trigger] bv.contains(x) && !av.contains(x) ==> bo.contains(x),
{
    if cell_is(board, block, m) && !av.contains(m) {
        lemma_connected_step(board, block, start, n, m);
        assert forall|x: [usize; 2]| true implies (#[trigger] bv.contains(x) <==> (av.contains(x)
            || x == m)) by {
            lemma_push_contains(av, m, x);
        }
        assert forall|x: [usize; 2]| true implies (#[trigger] bo.contains(x) <==> (ao.contains(x)
            || x == m)) by {
            lemma_push_contains(ao, m, x);
        }
        assert(bv.no_duplicates()) by {
            assert forall|i: int, j: int|
                #![trigger bv[i], bv[j]]
                0 <= i < j < bv.len() implies bv[i] != bv[j] by {
                if j < av.len() {
                } else {
                    assert(bv[j] == m);
                    assert(av.contains(av[i]));
                }
            }
        }
        assert(bv[av.len() as int] == m);
        assert(bv.contains(m));
        assert forall|i: int| 0 <= i < bv.len() implies cell_is(board, block, #[trigger] bv[i])
            && connected(board, block, start, bv[i]) by {
            if i < av.len() {
                assert(bv[i] == av[i]);
            } else {
                assert(bv[i] == m);
            }
        }
        assert forall|i: int| 0 <= i < bo.len() implies bv.contains(#[trigger] bo[i]) by {
            if i < ao.len() {
                assert(bo[i] == ao[i]);
                assert(av.contains(ao[i]));
                let k = choose|k: int| 0 <= k < av.len() && av[k] == ao[i];
                assert(bv[k] == ao[i]);
            } else {
                assert(bo[i] == m);
            }
        }
        assert(bv.contains(start)) by {
            let k = choose|k: int| 0 <= k < av.len() && av[k] == start;
            assert(bv[k] == start);
        }
    } else {
        if cell_is(board, block, m) {
            assert(bv.contains(m));
        }
    }
}

/// How one whole pop-and-visit-the-four-neighbors round preserves the
/// flood-fill loop invariant.
#[verifier::rlimit(100)]
proof fn lemma_search_step(
    board: Board,
    block: Block,
    start: [usize; 2],
    n: [usize; 2],
    m0: [usize; 2],
    m1: [usize; 2],
    m2: [usize; 2],
    m3: [usize; 2],
    vis0: Seq<[usize; 2]>,
    open0: Seq<[usize; 2]>,
    vs1: Seq<[usize; 2]>,
    os1: Seq<[usize; 2]>,
    vs2: Seq<[usize; 2]>,
    os2: Seq<[usize; 2]>,
    vs3: Seq<[usize; 2]>,
    os3: Seq<[usize; 2]>,
    vs4: Seq<[usize; 2]>,
    os4: Seq<[usize; 2]>,
)
    requires
        search_inv(board, block, start, vis0, open0),
        board.spec_x_len() <= usize::MAX,
        board.spec_y_len() <= usize::MAX,
        open0.len() > 0,
        n == open0.last(),
        m0[0] == n[0] + 1 && m0[1] == n[1],
        m1[0] == n[0] && m1[1] == n[1] + 1,
        m2[1] == n[1] && (if n[0] == 0 {
            m2[0] == usize::MAX as int
        } else {
            m2[0] == n[0] - 1
        }),
        m3[0] == n[0] && (if n[1] == 0 {
            m3[1] == usize::MAX as int
        } else {
            m3[1] == n[1] - 1
        }),
        visit_step(board, block, vis0, open0.drop_last(), vs1, os1, m0),
        visit_step(board, block, vs1, os1, vs2, os2, m1),
        visit_step(board, block, vs2, os2, vs3, os3, m2),
        visit_step(board, block, vs3, os3, vs4, os4, m3),
    ensures
        search_inv(board, block, start, vs4, os4),
        vis0.len() <= vs4.len(),
        vs4.len() == vis0.len() ==> vs4 == vis0 && os4 == open0.drop_last(),
{
    let os0 = open0.drop_last();
    assert(open0[open0.len() - 1] == n);
    assert(vis0.contains(n));
    assert(connected(board, block, start, n)) by {
        let i = choose|i: int| 0 <= i < vis0.len() && vis0[i] == n;
    }
    if n[0] == 0 {
        assert(!cell_is(board, block, m2));
    } else {
        assert(adjacent(n, m2));
    }
    if n[1] == 0 {
        assert(!cell_is(board, block, m3));
    } else {
        assert(adjacent(n, m3));
    }
    assert(adjacent(n, m0));
    assert(adjacent(n, m1));
    assert forall|i: int| 0 <= i < os0.len() implies vis0.contains(#[trigger] os0[i]) by {
        assert(os0[i] == open0[i]);
    }
    lemma_visit_preserves(board, block, start, n, vis0, os0, vs1, os1, m0);
    lemma_visit_preserves(board, block, start, n, vs1, os1, vs2, os2, m1);
    lemma_visit_preserves(board, block, start, n, vs2, os2, vs3, os3, m2);
    lemma_visit_preserves(board, block, start, n, vs3, os3, vs4, os4, m3);
    assert forall|v: [usize; 2], u: [usize; 2]|
        #![trigger vs4.contains(v), adjacent(v, u)]
        vs4.contains(v) && !os4.contains(v) && adjacent(v, u) && cell_is(
            board,
            block,
            u,
        ) implies vs4.contains(u) by {
        if v == n {
            // every same-colored neighbor of the popped cell was just
            // visited
            if u[0] == n[0] + 1 && u[1] == n[1] {
                assert(u =~= m0);
                assert(vs1.contains(m0));
            } else if u[0] == n[0] && u[1] == n[1] + 1 {
                assert(u =~= m1);
                assert(vs2.contains(m1));
            } else if u[0] + 1 == n[0] && u[1] == n[1] {
                assert(n[0] > 0);
                assert(u =~= m2);
                assert(vs3.contains(m2));
            } else {
                assert(u[1] + 1 == n[1] && u[0] == n[0]);
                assert(n[1] > 0);
                assert(u =~= m3);
                assert(vs4.contains(m3));
            }
        } else if vis0.contains(v) {
            if open0.contains(v) {
                let i = choose|i: int| 0 <= i < open0.len() && open0[i] == v;
                assert(i < open0.len() - 1);
                assert(os0[i] == v);
                assert(os0.contains(v));
                assert(os4.contains(v));
                assert(false);
            } else {
                assert(vis0.contains(u));
            }
        } else {
            // v was pushed during this round, so it is still open
            if vs1.contains(v) {
                assert(v == m0);
                assert(os1.contains(v));
            } else if vs2.contains(v) {
                assert(v == m1);
                assert(os2.contains(v));
            } else if vs3.contains(v) {
                assert(v == m2);
                assert(os3.contains(v));
            } else {
                assert(v == m3);
                assert(os4.contains(v));
            }
            assert(os4.contains(v));
            assert(false);
        }
    }
    if vs4.len() == vis0.len() {
        assert(vs4 == vis0 && os4 == os0);
    }
}

/// Collects, without duplicates, every cell of the connected
/// same-colored group around `start` — exactly the component that the
/// connectivity relation describes.
pub fn search(start: [usize; 2], board: &Board, block: Block) -> (r: Vec<[usize; 2]>)
    requires
        board.wf(),
        cell_is(*board, block, start),
    ensures
        r@.no_duplicates(),
        r@.to_set() == component(*board, block, start),
{
    let w = board.x_len();
    let h = board.y_len();
    let mut visited: Vec<[usize; 2]> = Vec::new();
    let mut open_list: Vec<[usize; 2]> = Vec::new();
    visited.push(start);
    open_list.push(start);
    proof {
        lemma_connected_refl(*board, block, start);
        assert(visited@[0] == start);
        assert(visited@.contains(start));
        assert(open_list@.contains(visited@[0]));
        lemma_bounded_distinct_coords(visited@, w as int, h as int);
    }
    while open_list.len() > 0
        invariant
            board.wf(),
            w == board.spec_x_len(),
            h == board.spec_y_len(),
            cell_is(*board, block, start),
            visited@.len() <= w * h,
            search_inv(*board, block, start, visited@, open_list@),
        decreases w * h - visited@.len(), open_list@.len(),
    {
        let ghost vis0 = visited@;
        let ghost open0 = open_list@;
        let n = open_list.pop().unwrap();
        proof {
            assert(vis0.contains(open0[open0.len() - 1]));
            let i = choose|i: int| 0 <= i < vis0.len() && vis0[i] == n;
            assert(cell_is(*board, block, vis0[i]));
        }
        let nbs = neighbours(n);
        let m0 = nbs[0];
        let m1 = nbs[1];
        let m2 = nbs[2];
        let m3 = nbs[3];
        visit_candidate(board, block, m0, &mut visited, &mut open_list);
        let ghost vs1 = visited@;
        let ghost os1 = open_list@;
        visit_candidate(board, block, m1, &mut visited, &mut open_list);
        let ghost vs2 = visited@;
        let ghost os2 = open_list@;
        visit_candidate(board, block, m2, &mut visited, &mut open_list);
        let ghost vs3 = visited@;
        let ghost os3 = open_list@;
        visit_candidate(board, block, m3, &mut visited, &mut open_list);
        proof {
            lemma_search_step(
                *board,
                block,
                start,
                n,
                m0,
                m1,
                m2,
                m3,
                vis0,
                open0,
                vs1,
                os1,
                vs2,
                os2,
                vs3,
                os3,
                visited@,
                open_list@,
            );
            lemma_bounded_distinct_coords(visited@, w as int, h as int);
        }
    }
    proof {
        assert forall|t: [usize; 2]| component(*board, block, start).contains(
            t,
        ) implies visited@.contains(t) by {
            let p = choose|p: Seq<[usize; 2]>|
                is_path(*board, block, p) && p.first() == start && p.last() == t;
            assert forall|v: [usize; 2], u: [usize; 2]|
                visited@.contains(v) && #[trigger] adjacent(v, u) && cell_is(
                    *board,
                    block,
                    u,
                ) implies visited@.contains(u) by {
                assert(!open_list@.contains(v));
            }
            lemma_path_in_closed(*board, block, p, visited@);
        }
        assert forall|t: [usize; 2]| visited@.contains(t) implies component(
            *board,
            block,
            start,
        ).contains(t) by {
            let i = choose|i: int| 0 <= i < visited@.len() && visited@[i] == t;
            assert(connected(*board, block, start, visited@[i]));
        }
        assert(visited@.to_set() =~= component(*board, block, start));
    }
    visited
}

} // verus!

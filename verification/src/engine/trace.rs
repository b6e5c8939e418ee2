//! Tracing the sorted boundary edges of a region into pieces: chains of
//! corner points that follow unused edges, merging straight runs.
use vstd::prelude::*;
use vstd::arithmetic::div_mod::lemma_fundamental_div_mod_converse;
use crate::image::RgbaImage;
use crate::engine::region::{
    boundary_key, edge_key_of, edge_rank, edge_start_x, edge_start_y, fits_u32, height,
    key_cell_x, key_cell_y, key_side, key_start_x, key_start_y, lemma_edge_key_decode,
    lemma_edge_key_encode, width,
};
use crate::engine::sort::strictly_sorted;

verus! {

/// Horizontal step of an edge of the given direction rank.
pub open spec fn rank_dx(r: int) -> int {
    if r == 0 {
        -1
    } else if r == 3 {
        1
    } else {
        0
    }
}

/// Vertical step of an edge of the given direction rank.
pub open spec fn rank_dy(r: int) -> int {
    if r == 1 {
        -1
    } else if r == 2 {
        1
    } else {
        0
    }
}

/// The directions tried when extending a piece, in order: down, right, up, left.
pub open spec fn trace_rank(i: int) -> int {
    if i == 0 {
        2
    } else if i == 1 {
        3
    } else if i == 2 {
        1
    } else {
        0
    }
}

/// Start corner of the edge with key `k`.
pub open spec fn key_start(img: &RgbaImage, k: int) -> (int, int) {
    (key_start_x(img, k), key_start_y(img, k))
}

/// End corner of the edge with key `k`.
pub open spec fn key_end(img: &RgbaImage, k: int) -> (int, int) {
    (key_start_x(img, k) + rank_dx(k % 4), key_start_y(img, k) + rank_dy(k % 4))
}

/// `(px, py)` is a corner of the pixel grid.
pub open spec fn corner(img: &RgbaImage, p: (int, int)) -> bool {
    0 <= p.0 <= width(img) && 0 <= p.1 <= height(img)
}

/// Key `k` names an edge between two corners of the pixel grid.
pub open spec fn grid_edge(img: &RgbaImage, k: int) -> bool {
    k >= 0 && corner(img, key_start(img, k)) && corner(img, key_end(img, k))
}

/// Number of entries not yet used.
pub open spec fn unused_count(used: Seq<bool>) -> nat
    decreases used.len(),
{
    if used.len() == 0 {
        0
    } else {
        unused_count(used.drop_last()) + if used.last() {
            0nat
        } else {
            1nat
        }
    }
}

/// Index of the unused edge that leaves corner `p` in the first direction,
/// among the `trace_rank(i..4)`, that has one.
pub open spec fn next_edge_from(
    img: &RgbaImage,
    edges: Seq<u64>,
    used: Seq<bool>,
    p: (int, int),
    i: int,
) -> Option<int>
    decreases 4 - i,
{
    if i < 0 || i >= 4 {
        None
    } else {
        let k = edge_key_of(img, p.0, p.1, trace_rank(i));
        if exists|j: int| 0 <= j < edges.len() && edges[j] == k && !used[j] {
            Some(choose|j: int| 0 <= j < edges.len() && edges[j] == k && !used[j])
        } else {
            next_edge_from(img, edges, used, p, i + 1)
        }
    }
}

/// The run from `prev` to `last` goes the way of the step `(dx, dy)`: it is
/// horizontal and has the sign of `dx`, or vertical with the sign of `dy`.
pub open spec fn continues(prev: (int, int), last: (int, int), dx: int, dy: int) -> bool {
    ||| (dx != 0 && last.1 == prev.1 && ((dx > 0 && last.0 > prev.0) || (dx < 0 && last.0 < prev.0)))
    ||| (dy != 0 && last.0 == prev.0 && ((dy > 0 && last.1 > prev.1) || (dy < 0 && last.1 < prev.1)))
}

/// Extends `piece` along unused edges until no edge leaves its last corner or
/// it comes back to its first corner. A step that continues the last run in
/// its direction lengthens that run: the run's end corner is replaced, so a
/// straight stretch of any length is one run.
pub open spec fn trace_walk(
    img: &RgbaImage,
    edges: Seq<u64>,
    used: Seq<bool>,
    piece: Seq<(int, int)>,
) -> (Seq<bool>, Seq<(int, int)>)
    decreases unused_count(used),
{
    let last = piece.last();
    match next_edge_from(img, edges, used, last, 0) {
        None => (used, piece),
        Some(idx) => {
            if 0 <= idx < used.len() && !used[idx] && piece.len() >= 1 {
                let used2 = used.update(idx, true);
                let r = edges[idx] % 4;
                let np = (last.0 + rank_dx(r as int), last.1 + rank_dy(r as int));
                let n = piece.len();
                let piece2 = if n >= 2 && continues(piece[n - 2], last, rank_dx(r as int), rank_dy(r as int)) {
                    piece.drop_last()
                } else {
                    piece
                };
                let piece3 = piece2.push(np);
                proof {
                    lemma_unused_count_update(used, idx);
                }
                if piece3[0] == piece3.last() {
                    (used2, piece3)
                } else {
                    trace_walk(img, edges, used2, piece3)
                }
            } else {
                (used, piece)
            }
        }
    }
}

/// The pieces traced from the edges at `i..`, each started at the first
/// unused edge in order; a piece that closes drops its repeated last corner.
pub open spec fn trace_pieces(
    img: &RgbaImage,
    edges: Seq<u64>,
    used: Seq<bool>,
    i: int,
) -> Seq<Seq<(int, int)>>
    decreases edges.len() - i,
{
    if i < 0 || i >= edges.len() || i >= used.len() {
        seq![]
    } else if used[i] {
        trace_pieces(img, edges, used, i + 1)
    } else {
        let e = edges[i] as int;
        let walked = trace_walk(img, edges, used.update(i, true), seq![key_start(img, e), key_end(img, e)]);
        let piece = walked.1;
        let closed = if piece.len() > 0 && piece[0] == piece.last() {
            piece.drop_last()
        } else {
            piece
        };
        let rest = trace_pieces(img, edges, walked.0, i + 1);
        if closed.len() == 0 {
            rest
        } else {
            seq![closed] + rest
        }
    }
}

/// The edge found by `next_edge_from` is unused and leaves corner `p` with
/// one of the four direction ranks.
pub proof fn lemma_next_edge_found(
    img: &RgbaImage,
    edges: Seq<u64>,
    used: Seq<bool>,
    p: (int, int),
    i: int,
) -> (r: int)
    requires
        next_edge_from(img, edges, used, p, i) is Some,
    ensures
        0 <= r < 4,
        0 <= next_edge_from(img, edges, used, p, i)->0 < edges.len(),
        !used[next_edge_from(img, edges, used, p, i)->0],
        edges[next_edge_from(img, edges, used, p, i)->0] == edge_key_of(img, p.0, p.1, r),
    decreases 4 - i,
{
    let k = edge_key_of(img, p.0, p.1, trace_rank(i));
    if exists|j: int| 0 <= j < edges.len() && edges[j] == k && !used[j] {
        trace_rank(i)
    } else {
        lemma_next_edge_found(img, edges, used, p, i + 1)
    }
}

/// Marking an unused entry used lowers the count by one.
pub proof fn lemma_unused_count_update(used: Seq<bool>, i: int)
    requires
        0 <= i < used.len(),
        !used[i],
    ensures
        unused_count(used) >= 1,
        unused_count(used.update(i, true)) == unused_count(used) - 1,
    decreases used.len(),
{
    let u2 = used.update(i, true);
    if i == used.len() - 1 {
        assert(u2.drop_last() =~= used.drop_last());
    } else {
        assert(u2.drop_last() =~= used.drop_last().update(i, true));
        lemma_unused_count_update(used.drop_last(), i);
    }
}

/// Decoding the key of an edge leaving a corner gives back the corner.
pub proof fn lemma_point_key_decode(img: &RgbaImage, px: int, py: int, r: int)
    requires
        px >= 0,
        0 <= py <= height(img),
        0 <= r < 4,
    ensures
        edge_key_of(img, px, py, r) >= 0,
        key_start(img, edge_key_of(img, px, py, r)) == (px, py),
        edge_key_of(img, px, py, r) % 4 == r,
{
    let h1 = height(img) + 1;
    let pk = px * h1 + py;
    assert(pk >= 0) by (nonlinear_arith)
        requires
            px >= 0,
            h1 >= 1,
            py >= 0,
            pk == px * h1 + py,
    ;
    let k = pk * 4 + r;
    lemma_fundamental_div_mod_converse(k, 4, pk, r);
    lemma_fundamental_div_mod_converse(pk, h1, px, py);
}

/// Boundary edges of pixels run between grid corners.
pub proof fn lemma_boundary_grid_edge(img: &RgbaImage, k: int)
    requires
        boundary_key(img, k),
    ensures
        grid_edge(img, k),
{
    let x = key_cell_x(img, k);
    let y = key_cell_y(img, k);
    let t = key_side(k);
    lemma_edge_key_encode(img, k);
    lemma_edge_key_decode(img, x, y, t);
    lemma_point_key_decode(img, edge_start_x(x, t), edge_start_y(y, t), edge_rank(t));
}

/// Index of `k` in a strictly increasing sequence, if it occurs.
fn find_key(edges: &Vec<u64>, k: u64) -> (r: Option<usize>)
    requires
        strictly_sorted(edges@),
    ensures
        r is Some <==> edges@.contains(k),
        r matches Some(i) ==> i < edges@.len() && edges@[i as int] == k,
{
    let mut lo: usize = 0;
    let mut hi: usize = edges.len();
    while lo < hi
        invariant
            strictly_sorted(edges@),
            lo <= hi <= edges@.len(),
            forall|j: int| 0 <= j < lo ==> edges@[j] < k,
            forall|j: int| hi <= j < edges@.len() ==> edges@[j] > k,
        decreases hi - lo,
    {
        let mid = lo + (hi - lo) / 2;
        if edges[mid] == k {
            return Some(mid);
        } else if edges[mid] < k {
            lo = mid + 1;
        } else {
            hi = mid;
        }
    }
    proof {
        if edges@.contains(k) {
            let j = choose|j: int| 0 <= j < edges@.len() && edges@[j] == k;
            assert(j < lo || j >= hi);
        }
    }
    None
}

/// The key of the edge leaving corner `(px, py)` with direction rank `r`.
fn edge_key_at(img: &RgbaImage, px: i64, py: i64, r: u64) -> (k: u64)
    requires
        fits_u32(img),
        corner(img, (px as int, py as int)),
        r < 4,
    ensures
        k as int == edge_key_of(img, px as int, py as int, r as int),
{
    let h1: u64 = img.height() as u64 + 1;
    proof {
        let w = width(img);
        let h = height(img);
        assert(px * h1 <= w * h + w) by (nonlinear_arith)
            requires
                0 <= px <= w,
                h1 == h + 1,
                h >= 0,
        ;
        assert(px * h1 + py <= 0x1000_0000_0000_0000int);
    }
    ((px as u64) * h1 + (py as u64)) * 4 + r
}

/// The corner where the edge with key `k` starts.
fn key_start_exec(img: &RgbaImage, k: u64) -> (p: (i64, i64))
    requires
        grid_edge(img, k as int),
        fits_u32(img),
    ensures
        p.0 as int == key_start(img, k as int).0,
        p.1 as int == key_start(img, k as int).1,
{
    let h1: u64 = img.height() as u64 + 1;
    let q: u64 = k / 4;
    ((q / h1) as i64, (q % h1) as i64)
}

/// Index of the next edge to follow from corner `p` (see `next_edge_from`).
fn next_edge(img: &RgbaImage, edges: &Vec<u64>, used: &Vec<bool>, p: (i64, i64)) -> (r: Option<usize>)
    requires
        fits_u32(img),
        strictly_sorted(edges@),
        used@.len() == edges@.len(),
        corner(img, (p.0 as int, p.1 as int)),
    ensures
        r matches Some(i) ==> Some(i as int) == next_edge_from(img, edges@, used@, (p.0 as int, p.1 as int), 0),
        r is None ==> next_edge_from(img, edges@, used@, (p.0 as int, p.1 as int), 0) is None,
{
    let ghost pp = (p.0 as int, p.1 as int);
    let mut i: u64 = 0;
    while i < 4
        invariant
            fits_u32(img),
            strictly_sorted(edges@),
            used@.len() == edges@.len(),
            corner(img, pp),
            pp == (p.0 as int, p.1 as int),
            i <= 4,
            next_edge_from(img, edges@, used@, pp, 0) == next_edge_from(img, edges@, used@, pp, i as int),
        decreases 4 - i,
    {
        let r: u64 = if i == 0 { 2 } else if i == 1 { 3 } else if i == 2 { 1 } else { 0 };
        let k = edge_key_at(img, p.0, p.1, r);
        match find_key(edges, k) {
            Some(j) => {
                if !used[j] {
                    proof {
                        let c = choose|c: int| 0 <= c < edges@.len() && edges@[c] == k as int && !used@[c];
                        if c != j as int {
                            if c < j as int {
                                assert(edges@[c] < edges@[j as int]);
                            } else {
                                assert(edges@[j as int] < edges@[c]);
                            }
                        }
                    }
                    return Some(j);
                }
                proof {
                    assert forall|c: int| 0 <= c < edges@.len() && edges@[c] == k as int implies used@[c] by {
                        if c != j as int {
                            if c < j as int {
                                assert(edges@[c] < edges@[j as int]);
                            } else {
                                assert(edges@[j as int] < edges@[c]);
                            }
                        }
                    }
                }
            },
            None => {
                proof {
                    assert forall|c: int| 0 <= c < edges@.len() implies edges@[c] != k by {
                        if edges@[c] == k {
                            assert(edges@.contains(k));
                        }
                    }
                }
            },
        }
        i = i + 1;
    }
    None
}

/// Corners as mathematical points.
pub open spec fn points(v: Seq<(i64, i64)>) -> Seq<(int, int)> {
    v.map_values(|p: (i64, i64)| (p.0 as int, p.1 as int))
}

/// Pieces as sequences of mathematical points.
pub open spec fn piece_points(v: Seq<Vec<(i64, i64)>>) -> Seq<Seq<(int, int)>> {
    v.map_values(|p: Vec<(i64, i64)>| points(p@))
}

/// Traces all pieces of a strictly increasing sequence of grid edges.
pub fn trace_region(img: &RgbaImage, edges: &Vec<u64>) -> (pieces: Vec<Vec<(i64, i64)>>)
    requires
        fits_u32(img),
        strictly_sorted(edges@),
        forall|j: int| 0 <= j < edges@.len() ==> grid_edge(img, #[trigger] edges@[j] as int),
    ensures
        piece_points(pieces@) == trace_pieces(img, edges@, Seq::new(edges@.len(), |j: int| false), 0),
        forall|j: int| 0 <= j < pieces@.len() ==> (#[trigger] pieces@[j])@.len() >= 1,
        forall|j: int, q: int| 0 <= j < pieces@.len() && 0 <= q < pieces@[j]@.len() ==>
            corner(img, ((#[trigger] pieces@[j]@[q]).0 as int, pieces@[j]@[q].1 as int)),
{
    let n = edges.len();
    let mut used: Vec<bool> = Vec::new();
    let mut z: usize = 0;
    while z < n
        invariant
            z <= n,
            n == edges@.len(),
            used@ == Seq::new(z as nat, |j: int| false),
        decreases n - z,
    {
        used.push(false);
        proof {
            assert(used@ =~= Seq::new((z + 1) as nat, |j: int| false));
        }
        z = z + 1;
    }
    let ghost init = used@;
    let mut pieces: Vec<Vec<(i64, i64)>> = Vec::new();
    let mut i: usize = 0;
    while i < n
        invariant
            fits_u32(img),
            strictly_sorted(edges@),
            forall|j: int| 0 <= j < edges@.len() ==> grid_edge(img, #[trigger] edges@[j] as int),
            n == edges@.len(),
            used@.len() == n,
            i <= n,
            init == Seq::new(edges@.len(), |j: int| false),
            trace_pieces(img, edges@, init, 0) == piece_points(pieces@) + trace_pieces(img, edges@, used@, i as int),
            forall|j: int| 0 <= j < pieces@.len() ==> (#[trigger] pieces@[j])@.len() >= 1,
            forall|j: int, q: int| 0 <= j < pieces@.len() && 0 <= q < pieces@[j]@.len() ==>
                corner(img, ((#[trigger] pieces@[j]@[q]).0 as int, pieces@[j]@[q].1 as int)),
        decreases n - i,
    {
        if used[i] {
            i = i + 1;
            continue;
        }
        let ghost used_i = used@;
        used[i] = true;
        let e = edges[i];
        proof {
            assert(grid_edge(img, edges@[i as int] as int));
        }
        let s = key_start_exec(img, e);
        let r: u64 = e % 4;
        let ex: i64 = if r == 0 { s.0 - 1 } else if r == 3 { s.0 + 1 } else { s.0 };
        let ey: i64 = if r == 1 { s.1 - 1 } else if r == 2 { s.1 + 1 } else { s.1 };
        let mut piece: Vec<(i64, i64)> = Vec::new();
        piece.push(s);
        piece.push((ex, ey));
        let ghost start_piece = points(piece@);
        proof {
            assert(start_piece =~= seq![key_start(img, e as int), key_end(img, e as int)]);
        }
        let ghost old_used_after_set = used@;
        let ghost target = trace_walk(img, edges@, used@, start_piece);
        loop
            invariant_except_break
                fits_u32(img),
                strictly_sorted(edges@),
                forall|j: int| 0 <= j < edges@.len() ==> grid_edge(img, #[trigger] edges@[j] as int),
                used@.len() == n,
                n == edges@.len(),
                piece@.len() >= 2,
                forall|j: int| 0 <= j < piece@.len() ==> corner(img, (#[trigger] piece@[j].0 as int, piece@[j].1 as int)),
                trace_walk(img, edges@, used@, points(piece@)) == target,
            ensures
                used@.len() == n,
                n == edges@.len(),
                piece@.len() >= 1,
                (used@, points(piece@)) == target,
                forall|j: int| 0 <= j < piece@.len() ==> corner(img, (#[trigger] piece@[j].0 as int, piece@[j].1 as int)),
            decreases unused_count(used@),
        {
            let last = piece[piece.len() - 1];
            proof {
                assert(corner(img, (piece@[piece@.len() - 1].0 as int, piece@[piece@.len() - 1].1 as int)));
            }
            let ghost pts0 = points(piece@);
            let ghost raw0 = piece@;
            let ghost used0 = used@;
            match next_edge(img, edges, &used, last) {
                None => {
                    proof {
                        assert(pts0.last() == (last.0 as int, last.1 as int));
                    }
                    break;
                },
                Some(idx) => {
                    proof {
                        assert(pts0.last() == (last.0 as int, last.1 as int));
                        let rr = lemma_next_edge_found(img, edges@, used0, pts0.last(), 0);
                        let k = edges@[idx as int];
                        assert(grid_edge(img, k as int));
                        lemma_unused_count_update(used@, idx as int);
                    }
                    used[idx] = true;
                    let k = edges[idx];
                    let r: u64 = k % 4;
                    let dx: i64 = if r == 0 { -1 } else if r == 3 { 1 } else { 0 };
                    let dy: i64 = if r == 1 { -1 } else if r == 2 { 1 } else { 0 };
                    proof {
                        let rr = lemma_next_edge_found(img, edges@, used0, pts0.last(), 0);
                        lemma_point_key_decode(img, last.0 as int, last.1 as int, rr);
                        assert(grid_edge(img, edges@[idx as int] as int));
                    }
                    let np: (i64, i64) = (last.0 + dx, last.1 + dy);
                    let len = piece.len();
                    let prev = piece[len - 2];
                    let same_run: bool = (dx != 0 && last.1 == prev.1 && ((dx > 0 && last.0 > prev.0) || (dx < 0
                        && last.0 < prev.0))) || (dy != 0 && last.0 == prev.0 && ((dy > 0 && last.1 > prev.1) || (dy
                        < 0 && last.1 < prev.1)));
                    if same_run {
                        piece.pop();
                    }
                    let ghost popped = points(piece@);
                    piece.push(np);
                    proof {
                        assert(points(piece@) =~= popped.push((np.0 as int, np.1 as int)));
                        if popped.len() < pts0.len() {
                            assert(popped =~= pts0.drop_last());
                        } else {
                            assert(popped =~= pts0);
                        }
                        assert forall|j: int| 0 <= j < piece@.len() implies corner(img, (#[trigger] piece@[j].0 as int, piece@[j].1 as int)) by {
                            if j < piece@.len() - 1 {
                                assert(piece@[j] == raw0[j]);
                            }
                        }
                    }
                    let first = piece[0];
                    if first.0 == np.0 && first.1 == np.1 {
                        break;
                    }
                },
            }
        }
        let ghost walked_pts = points(piece@);
        let ghost raw_walked = piece@;
        if piece.len() > 0 {
            let first = piece[0];
            let lastp = piece[piece.len() - 1];
            if first.0 == lastp.0 && first.1 == lastp.1 {
                piece.pop();
            }
        }
        proof {
            assert(used_i.update(i as int, true) == old_used_after_set);
        }
        let ghost closed_pts = points(piece@);
        let ghost pieces0 = pieces@;
        proof {
            assert(start_piece == seq![key_start(img, edges@[i as int] as int), key_end(img, edges@[i as int] as int)]);
            assert(target.1 == walked_pts);
            if walked_pts.len() > 0 && walked_pts[0] == walked_pts.last() {
                assert(closed_pts =~= walked_pts.drop_last());
            } else {
                assert(closed_pts =~= walked_pts);
            }
            assert(trace_pieces(img, edges@, used_i, i as int) == if closed_pts.len() == 0 {
                trace_pieces(img, edges@, used@, i + 1)
            } else {
                seq![closed_pts] + trace_pieces(img, edges@, used@, i + 1)
            });
        }
        proof {
            assert forall|q: int| 0 <= q < piece@.len() implies corner(img, (#[trigger] piece@[q].0 as int, piece@[q].1 as int)) by {
                assert(piece@[q] == raw_walked[q]);
            }
        }
        if piece.len() > 0 {
            pieces.push(piece);
            proof {
                assert forall|j: int, q: int| 0 <= j < pieces@.len() && 0 <= q < pieces@[j]@.len() implies
                    corner(img, ((#[trigger] pieces@[j]@[q]).0 as int, pieces@[j]@[q].1 as int)) by {
                    if j < pieces0.len() {
                        assert(pieces@[j] == pieces0[j]);
                    }
                }
                assert(piece_points(pieces@) =~= piece_points(pieces0).push(closed_pts));
                assert(piece_points(pieces0) + (seq![closed_pts] + trace_pieces(img, edges@, used@, i + 1))
                    =~= piece_points(pieces0).push(closed_pts) + trace_pieces(img, edges@, used@, i + 1));
            }
        }
        i = i + 1;
    }
    pieces
}

} // verus!

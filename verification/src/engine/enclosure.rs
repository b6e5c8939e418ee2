//! The traced pieces of a region enclose exactly the region: under the
//! nonzero rule, the closed polylines the engine draws for a region cover a
//! pixel's center exactly when the pixel lies in the region.
use vstd::prelude::*;
use crate::image::RgbaImage;
use crate::engine::guarantees::{lemma_boundary_key_bound, region_indicator};
use crate::engine::pixel_exact::{
    color_paths, earlier_connected, is_region_seed, region_edge_set, region_pieces, scan_state,
};
use crate::engine::emit::{emit_pieces, piece_text};
use crate::engine::region::{
    boundary_key, cell_index, channel, connected, edge_key, edge_key_of, edge_rank, edge_start_x,
    edge_start_y, fits_u32, height, in_image, joins, key_cell_x, key_cell_y, key_side,
    lemma_cell_index_bounds, lemma_cell_index_injective, lemma_color_alpha, lemma_connected_color,
    lemma_connected_refl, lemma_connected_step, lemma_connected_symm, lemma_connected_trans,
    lemma_edge_key_decode, lemma_edge_key_encode, nbr_x, nbr_y, pixel_color, region_edge, width,
};
use crate::engine::sort::{sorted_elements, strictly_sorted};
use crate::engine::trace::{
    corner, key_end, key_start, lemma_next_edge_found, lemma_point_key_decode, lemma_unused_count_update,
    continues, next_edge_from, rank_dx, rank_dy, trace_pieces, trace_rank, trace_walk, unused_count,
};

verus! {

/// `f(0) + … + f(n - 1)`.
pub open spec fn sum_to(n: int, f: spec_fn(int) -> int) -> int
    decreases n,
{
    if n <= 0 {
        0
    } else {
        sum_to(n - 1, f) + f(n - 1)
    }
}

proof fn lemma_sum_pointwise(n: int, f: spec_fn(int) -> int, g: spec_fn(int) -> int)
    requires
        forall|j: int| 0 <= j < n ==> #[trigger] f(j) == g(j),
    ensures
        sum_to(n, f) == sum_to(n, g),
    decreases n,
{
    if n > 0 {
        lemma_sum_pointwise(n - 1, f, g);
    }
}

proof fn lemma_sum_add(n: int, f: spec_fn(int) -> int, g: spec_fn(int) -> int, h: spec_fn(int) -> int)
    requires
        forall|j: int| 0 <= j < n ==> #[trigger] h(j) == f(j) + g(j),
    ensures
        sum_to(n, h) == sum_to(n, f) + sum_to(n, g),
    decreases n,
{
    if n > 0 {
        lemma_sum_add(n - 1, f, g, h);
    }
}

/// Changing one term changes the sum by the difference.
proof fn lemma_sum_change_one(n: int, f: spec_fn(int) -> int, g: spec_fn(int) -> int, i: int)
    requires
        0 <= i < n,
        forall|j: int| 0 <= j < n && j != i ==> #[trigger] f(j) == g(j),
    ensures
        sum_to(n, g) == sum_to(n, f) + g(i) - f(i),
    decreases n,
{
    if n - 1 == i {
        lemma_sum_pointwise(n - 1, f, g);
    } else {
        lemma_sum_change_one(n - 1, f, g, i);
    }
}

/// A sum of zeros and ones with at most one one is at most one; with none
/// it is zero.
proof fn lemma_sum_single(n: int, f: spec_fn(int) -> int, i: int)
    requires
        forall|j: int| 0 <= j < n && j != i ==> #[trigger] f(j) == 0,
    ensures
        sum_to(n, f) == if 0 <= i < n {
            f(i)
        } else {
            0
        },
    decreases n,
{
    if n > 0 {
        lemma_sum_single(n - 1, f, i);
    }
}

/// The region's boundary edges in increasing key order, as the engine
/// traces them.
pub open spec fn region_edges(img: &RgbaImage, sx: int, sy: int) -> Seq<u64> {
    sorted_elements(region_edge_set(img, sx, sy))
}

/// Keys of pixel sides of the image stay below `(width + 1) * (height + 1) * 4`,
/// which fits in 64 bits.
proof fn lemma_edge_key_small(img: &RgbaImage, x: int, y: int, t: int)
    requires
        fits_u32(img),
        in_image(img, x, y),
        0 <= t < 4,
    ensures
        0 <= edge_key(img, x, y, t) < (width(img) + 1) * (height(img) + 1) * 4,
        (width(img) + 1) * (height(img) + 1) * 4 <= u64::MAX,
{
    let w = width(img);
    let h = height(img);
    let px = edge_start_x(x, t);
    let py = edge_start_y(y, t);
    assert((px * (h + 1) + py) * 4 + edge_rank(t) < (w + 1) * (h + 1) * 4) by (nonlinear_arith)
        requires
            0 <= px <= w,
            0 <= py <= h,
            0 <= edge_rank(t) <= 3,
    ;
    assert(0 <= (px * (h + 1) + py) * 4 + edge_rank(t)) by (nonlinear_arith)
        requires
            0 <= px,
            0 <= py,
            h >= 0,
            0 <= edge_rank(t),
    ;
    lemma_bound_fits(img);
}

/// Under the engine's size limit, edge keys fit in 64 bits.
proof fn lemma_bound_fits(img: &RgbaImage)
    requires
        fits_u32(img),
    ensures
        (width(img) + 1) * (height(img) + 1) * 4 <= u64::MAX,
{
    let w = width(img);
    let h = height(img);
    assert((w + 1) * (h + 1) * 4 <= u64::MAX) by (nonlinear_arith)
        requires
            w * h * 4 <= u32::MAX,
            0 <= w <= u32::MAX,
            0 <= h <= u32::MAX,
    ;
}

/// The region's edges are sorted and are exactly its boundary edges.
proof fn lemma_region_edges(img: &RgbaImage, sx: int, sy: int)
    requires
        fits_u32(img),
    ensures
        strictly_sorted(region_edges(img, sx, sy)),
        region_edges(img, sx, sy).to_set() == region_edge_set(img, sx, sy),
        forall|j: int|
            0 <= j < region_edges(img, sx, sy).len() ==> region_edge(img, sx, sy, #[trigger] region_edges(img, sx, sy)[j] as int),
{
    let set = region_edge_set(img, sx, sy);
    let w = width(img);
    let h = height(img);
    lemma_bound_fits(img);
    let bound = ((w + 1) * (h + 1) * 4) as nat;
    let q = crate::engine::guarantees::lemma_sorted_below(set, bound);
    assert(q.to_set() =~= set) by {
        assert forall|e: u64| set.contains(e) implies set.filter(|k: u64| (k as int) < bound).contains(e) by {
            lemma_boundary_key_bound(img, e as int);
        }
    }
    let e = region_edges(img, sx, sy);
    assert(strictly_sorted(e) && e.to_set() == set);
    assert forall|j: int| 0 <= j < e.len() implies region_edge(img, sx, sy, #[trigger] e[j] as int) by {
        assert(e.to_set().contains(e[j]));
    }
}

/// The pixel side an edge key names, as `(x, y, side)`.
pub open spec fn key_cell(img: &RgbaImage, k: int) -> (int, int, int) {
    (key_cell_x(img, k), key_cell_y(img, k), key_side(k))
}

/// The side `t` of pixel `(x, y)` is a boundary edge of the region: the
/// pixel lies in it and its neighbour on that side does not.
pub open spec fn side_present(img: &RgbaImage, sx: int, sy: int, x: int, y: int, t: int) -> int {
    if connected(img, sx, sy, x, y) && !connected(img, sx, sy, nbr_x(x, t), nbr_y(y, t)) {
        1
    } else {
        0
    }
}

/// How many of the region's edges name side `t` of pixel `(x, y)`.
pub open spec fn side_count(img: &RgbaImage, sx: int, sy: int, x: int, y: int, t: int) -> int {
    let e = region_edges(img, sx, sy);
    sum_to(e.len() as int, |j: int| if key_cell(img, e[j] as int) == (x, y, t) { 1int } else { 0int })
}

/// A side of a region pixel is a boundary edge exactly when its neighbour
/// lies outside the region.
proof fn lemma_side_edge(img: &RgbaImage, sx: int, sy: int, x: int, y: int, t: int)
    requires
        in_image(img, x, y),
        0 <= t < 4,
    ensures
        region_edge(img, sx, sy, edge_key(img, x, y, t)) <==> side_present(img, sx, sy, x, y, t) == 1,
{
    lemma_edge_key_decode(img, x, y, t);
    if connected(img, sx, sy, x, y) && joins(img, x, y, t) {
        lemma_connected_step(img, sx, sy, x, y, (nbr_x(x, t), nbr_y(y, t)));
    }
    if connected(img, sx, sy, x, y) && connected(img, sx, sy, nbr_x(x, t), nbr_y(y, t)) {
        lemma_connected_color(img, sx, sy, x, y);
        lemma_connected_color(img, sx, sy, nbr_x(x, t), nbr_y(y, t));
    }
}

/// Each boundary edge of the region is one entry of its edge list.
proof fn lemma_side_count(img: &RgbaImage, sx: int, sy: int, x: int, y: int, t: int)
    requires
        fits_u32(img),
        0 <= t < 4,
    ensures
        side_count(img, sx, sy, x, y, t) == side_present(img, sx, sy, x, y, t),
{
    let e = region_edges(img, sx, sy);
    let n = e.len() as int;
    let f = |j: int| if key_cell(img, e[j] as int) == (x, y, t) { 1int } else { 0int };
    lemma_region_edges(img, sx, sy);
    if !in_image(img, x, y) {
        if connected(img, sx, sy, x, y) {
            lemma_connected_color(img, sx, sy, x, y);
        }
        assert forall|j: int| 0 <= j < n && j != -1 implies #[trigger] f(j) == 0 by {
            assert(region_edge(img, sx, sy, e[j] as int));
        }
        lemma_sum_single(n, f, -1);
    } else {
        let k = edge_key(img, x, y, t);
        lemma_edge_key_small(img, x, y, t);
        lemma_edge_key_decode(img, x, y, t);
        lemma_side_edge(img, sx, sy, x, y, t);
        assert forall|j: int| 0 <= j < n implies (#[trigger] f(j) == 1 <==> e[j] as int == k) by {
            assert(region_edge(img, sx, sy, e[j] as int));
            if key_cell(img, e[j] as int) == (x, y, t) {
                lemma_edge_key_encode(img, e[j] as int);
            }
        }
        if region_edge(img, sx, sy, k) {
            assert(region_edge_set(img, sx, sy).contains(k as u64));
            assert(e.to_set().contains(k as u64));
            let i = choose|i: int| 0 <= i < n && e[i] == k as u64;
            assert forall|j: int| 0 <= j < n && j != i implies #[trigger] f(j) == 0 by {
                if j < i {
                    assert(e[j] < e[i]);
                } else {
                    assert(e[i] < e[j]);
                }
            }
            lemma_sum_single(n, f, i);
        } else {
            assert forall|j: int| 0 <= j < n && j != -1 implies #[trigger] f(j) == 0 by {
                if f(j) == 1 {
                    assert(region_edge(img, sx, sy, e[j] as int));
                }
            }
            lemma_sum_single(n, f, -1);
        }
    }
}

/// Where a boundary edge starts and ends: the corners of its pixel side,
/// run counter-clockwise.
proof fn lemma_key_geometry(img: &RgbaImage, k: int)
    requires
        boundary_key(img, k),
    ensures
        key_start(img, k) == (edge_start_x(key_cell_x(img, k), key_side(k)), edge_start_y(key_cell_y(img, k), key_side(k))),
        key_end(img, k) == (
            edge_start_x(key_cell_x(img, k), key_side(k)) + rank_dx(edge_rank(key_side(k))),
            edge_start_y(key_cell_y(img, k), key_side(k)) + rank_dy(edge_rank(key_side(k))),
        ),
        0 <= key_side(k) < 4,
{
    let x = key_cell_x(img, k);
    let y = key_cell_y(img, k);
    let t = key_side(k);
    lemma_edge_key_encode(img, k);
    lemma_point_key_decode(img, edge_start_x(x, t), edge_start_y(y, t), edge_rank(t));
}

/// Number of the region's edges that start at corner `q`.
pub open spec fn out_total(img: &RgbaImage, sx: int, sy: int, q: (int, int)) -> int {
    let e = region_edges(img, sx, sy);
    sum_to(e.len() as int, |j: int| if key_start(img, e[j] as int) == q { 1int } else { 0int })
}

/// Number of the region's edges that end at corner `q`.
pub open spec fn in_total(img: &RgbaImage, sx: int, sy: int, q: (int, int)) -> int {
    let e = region_edges(img, sx, sy);
    sum_to(e.len() as int, |j: int| if key_end(img, e[j] as int) == q { 1int } else { 0int })
}

/// Four counts over the edge list add up to a count of their union.
proof fn lemma_sum4(
    n: int,
    f: spec_fn(int) -> int,
    f0: spec_fn(int) -> int,
    f1: spec_fn(int) -> int,
    f2: spec_fn(int) -> int,
    f3: spec_fn(int) -> int,
)
    requires
        forall|j: int| 0 <= j < n ==> #[trigger] f(j) == f0(j) + f1(j) + f2(j) + f3(j),
    ensures
        sum_to(n, f) == sum_to(n, f0) + sum_to(n, f1) + sum_to(n, f2) + sum_to(n, f3),
{
    let g01 = |j: int| f0(j) + f1(j);
    let g012 = |j: int| f0(j) + f1(j) + f2(j);
    lemma_sum_add(n, f0, f1, g01);
    lemma_sum_add(n, g01, f2, g012);
    lemma_sum_add(n, g012, f3, f);
}

/// Every corner has as many of the region's edges leaving as entering it.
proof fn lemma_degree_balance(img: &RgbaImage, sx: int, sy: int, q: (int, int))
    requires
        fits_u32(img),
    ensures
        out_total(img, sx, sy, q) == in_total(img, sx, sy, q),
{
    let e = region_edges(img, sx, sy);
    let n = e.len() as int;
    lemma_region_edges(img, sx, sy);
    let (qx, qy) = q;
    let c0 = |j: int| if key_cell(img, e[j] as int) == (qx, qy, 0int) { 1int } else { 0int };
    let c1 = |j: int| if key_cell(img, e[j] as int) == (qx, qy - 1, 1int) { 1int } else { 0int };
    let c2 = |j: int| if key_cell(img, e[j] as int) == (qx - 1, qy - 1, 2int) { 1int } else { 0int };
    let c3 = |j: int| if key_cell(img, e[j] as int) == (qx - 1, qy, 3int) { 1int } else { 0int };
    let d0 = |j: int| if key_cell(img, e[j] as int) == (qx, qy - 1, 0int) { 1int } else { 0int };
    let d1 = |j: int| if key_cell(img, e[j] as int) == (qx - 1, qy - 1, 1int) { 1int } else { 0int };
    let d2 = |j: int| if key_cell(img, e[j] as int) == (qx - 1, qy, 2int) { 1int } else { 0int };
    let d3 = |j: int| if key_cell(img, e[j] as int) == (qx, qy, 3int) { 1int } else { 0int };
    let fo = |j: int| if key_start(img, e[j] as int) == q { 1int } else { 0int };
    let fi = |j: int| if key_end(img, e[j] as int) == q { 1int } else { 0int };
    assert forall|j: int| 0 <= j < n implies #[trigger] fo(j) == c0(j) + c1(j) + c2(j) + c3(j) && fi(j) == d0(j)
        + d1(j) + d2(j) + d3(j) by {
        assert(region_edge(img, sx, sy, e[j] as int));
        lemma_key_geometry(img, e[j] as int);
    }
    lemma_sum4(n, fo, c0, c1, c2, c3);
    lemma_sum4(n, fi, d0, d1, d2, d3);
    lemma_side_count(img, sx, sy, qx, qy, 0);
    lemma_side_count(img, sx, sy, qx, qy - 1, 1);
    lemma_side_count(img, sx, sy, qx - 1, qy - 1, 2);
    lemma_side_count(img, sx, sy, qx - 1, qy, 3);
    lemma_side_count(img, sx, sy, qx, qy - 1, 0);
    lemma_side_count(img, sx, sy, qx - 1, qy - 1, 1);
    lemma_side_count(img, sx, sy, qx - 1, qy, 2);
    lemma_side_count(img, sx, sy, qx, qy, 3);
}

/// The signed crossing of segment `a → b` with the horizontal ray from the
/// center of pixel `(x, y)` to the right: a vertical segment right of the
/// center that spans row `y` counts `+1` running up and `-1` running down.
pub open spec fn seg_cross(a: (int, int), b: (int, int), x: int, y: int) -> int {
    if a.0 == b.0 && a.0 > x {
        if a.1 <= y && y < b.1 {
            -1
        } else if b.1 <= y && y < a.1 {
            1
        } else {
            0
        }
    } else {
        0
    }
}

/// The crossings of the open chain through the corners of `p`.
pub open spec fn chain_cross(p: Seq<(int, int)>, x: int, y: int) -> int
    decreases p.len(),
{
    if p.len() < 2 {
        0
    } else {
        chain_cross(p.drop_last(), x, y) + seg_cross(p[p.len() - 2], p.last(), x, y)
    }
}

/// The crossings of the closed polyline through the corners of `p`: the
/// chain and the closing segment back to the first corner (as `Z` draws it).
pub open spec fn loop_cross(p: Seq<(int, int)>, x: int, y: int) -> int {
    if p.len() == 0 {
        0
    } else {
        chain_cross(p, x, y) + seg_cross(p.last(), p[0], x, y)
    }
}

/// The crossings of a run of closed polylines: the winding number, under
/// the nonzero rule, of the path they make around the center of pixel
/// `(x, y)`.
pub open spec fn pieces_cross(ps: Seq<Seq<(int, int)>>, x: int, y: int) -> int
    decreases ps.len(),
{
    if ps.len() == 0 {
        0
    } else {
        loop_cross(ps[0], x, y) + pieces_cross(ps.drop_first(), x, y)
    }
}

/// The crossing of one edge.
pub open spec fn edge_cross(img: &RgbaImage, k: int, x: int, y: int) -> int {
    seg_cross(key_start(img, k), key_end(img, k), x, y)
}

/// The crossings of the edges not yet used.
pub open spec fn unused_cross(img: &RgbaImage, e: Seq<u64>, used: Seq<bool>, x: int, y: int) -> int {
    sum_to(used.len() as int, |j: int| if used[j] { 0int } else { edge_cross(img, e[j] as int, x, y) })
}

/// Number of used edges that start at `q`.
pub open spec fn out_used(img: &RgbaImage, e: Seq<u64>, used: Seq<bool>, q: (int, int)) -> int {
    sum_to(used.len() as int, |j: int| if used[j] && key_start(img, e[j] as int) == q { 1int } else { 0int })
}

/// Number of used edges that end at `q`.
pub open spec fn in_used(img: &RgbaImage, e: Seq<u64>, used: Seq<bool>, q: (int, int)) -> int {
    sum_to(used.len() as int, |j: int| if used[j] && key_end(img, e[j] as int) == q { 1int } else { 0int })
}

proof fn lemma_sum_le(n: int, f: spec_fn(int) -> int, g: spec_fn(int) -> int)
    requires
        forall|j: int| 0 <= j < n ==> #[trigger] f(j) <= g(j),
    ensures
        sum_to(n, f) <= sum_to(n, g),
    decreases n,
{
    if n > 0 {
        lemma_sum_le(n - 1, f, g);
    }
}

/// Marking edge `i` used moves its crossing out of the unused ones and adds
/// it to the counts at its corners.
proof fn lemma_use_edge(img: &RgbaImage, e: Seq<u64>, used: Seq<bool>, i: int, x: int, y: int, q: (int, int))
    requires
        0 <= i < used.len(),
        !used[i],
    ensures
        unused_cross(img, e, used.update(i, true), x, y) == unused_cross(img, e, used, x, y) - edge_cross(img, e[i] as int, x, y),
        out_used(img, e, used.update(i, true), q) == out_used(img, e, used, q) + if key_start(img, e[i] as int) == q { 1int } else { 0int },
        in_used(img, e, used.update(i, true), q) == in_used(img, e, used, q) + if key_end(img, e[i] as int) == q { 1int } else { 0int },
{
    let u2 = used.update(i, true);
    let n = used.len() as int;
    lemma_sum_change_one(
        n,
        |j: int| if used[j] { 0int } else { edge_cross(img, e[j] as int, x, y) },
        |j: int| if u2[j] { 0int } else { edge_cross(img, e[j] as int, x, y) },
        i,
    );
    lemma_sum_change_one(
        n,
        |j: int| if used[j] && key_start(img, e[j] as int) == q { 1int } else { 0int },
        |j: int| if u2[j] && key_start(img, e[j] as int) == q { 1int } else { 0int },
        i,
    );
    lemma_sum_change_one(
        n,
        |j: int| if used[j] && key_end(img, e[j] as int) == q { 1int } else { 0int },
        |j: int| if u2[j] && key_end(img, e[j] as int) == q { 1int } else { 0int },
        i,
    );
}

/// When no unused edge leaves `p` in the directions from `i` on, every
/// edge of those directions is used.
proof fn lemma_next_none(img: &RgbaImage, e: Seq<u64>, used: Seq<bool>, p: (int, int), i: int)
    requires
        0 <= i <= 4,
        next_edge_from(img, e, used, p, i) is None,
    ensures
        forall|i2: int, j: int|
            i <= i2 < 4 && 0 <= j < e.len() && #[trigger] e[j] as int == #[trigger] edge_key_of(img, p.0, p.1, trace_rank(i2))
                ==> used[j],
    decreases 4 - i,
{
    if i < 4 {
        lemma_next_none(img, e, used, p, i + 1);
    }
}

/// A boundary edge is the edge of its start corner and direction rank.
proof fn lemma_edge_from_start(img: &RgbaImage, k: int)
    requires
        boundary_key(img, k),
    ensures
        k == edge_key_of(img, key_start(img, k).0, key_start(img, k).1, k % 4),
        0 <= k % 4 < 4,
{
    let x = key_cell_x(img, k);
    let y = key_cell_y(img, k);
    let t = key_side(k);
    lemma_edge_key_encode(img, k);
    lemma_point_key_decode(img, edge_start_x(x, t), edge_start_y(y, t), edge_rank(t));
}

/// Appending a corner adds the segment to it.
proof fn lemma_chain_push(p: Seq<(int, int)>, c: (int, int), x: int, y: int)
    requires
        p.len() >= 1,
    ensures
        chain_cross(p.push(c), x, y) == chain_cross(p, x, y) + seg_cross(p.last(), c, x, y),
{
    assert(p.push(c).drop_last() =~= p);
}

/// A unit step continuing a run in its direction: the lengthened run
/// crosses as the run and the step did.
proof fn lemma_seg_merge(a: (int, int), b: (int, int), c: (int, int), dx: int, dy: int, x: int, y: int)
    requires
        (dx == 0 && (dy == 1 || dy == -1)) || (dy == 0 && (dx == 1 || dx == -1)),
        continues(a, b, dx, dy),
        c == (b.0 + dx, b.1 + dy),
    ensures
        seg_cross(a, c, x, y) == seg_cross(a, b, x, y) + seg_cross(b, c, x, y),
{
}

/// Walking the region's edges from a partial chain: the walk comes back to
/// its first corner, its chain crosses as the edges it used, and afterwards
/// every corner is left as often as it is entered.
proof fn lemma_walk(img: &RgbaImage, sx: int, sy: int, used: Seq<bool>, piece: Seq<(int, int)>, x: int, y: int, base: int)
    requires
        fits_u32(img),
        used.len() == region_edges(img, sx, sy).len(),
        piece.len() >= 2,
        piece.last() != piece[0],
        corner(img, piece.last()),
        chain_cross(piece, x, y) == base - unused_cross(img, region_edges(img, sx, sy), used, x, y),
        forall|q: (int, int)|
            #[trigger] out_used(img, region_edges(img, sx, sy), used, q) - in_used(img, region_edges(img, sx, sy), used, q)
                == (if q == piece[0] { 1int } else { 0int }) - (if q == piece.last() { 1int } else { 0int }),
    ensures
        ({
            let (u2, p2) = trace_walk(img, region_edges(img, sx, sy), used, piece);
            &&& u2.len() == used.len()
            &&& forall|j: int| 0 <= j < used.len() && used[j] ==> #[trigger] u2[j]
            &&& p2.len() >= 2
            &&& p2[0] == piece[0]
            &&& p2.last() == piece[0]
            &&& chain_cross(p2, x, y) == base - unused_cross(img, region_edges(img, sx, sy), u2, x, y)
            &&& forall|q: (int, int)|
                #[trigger] out_used(img, region_edges(img, sx, sy), u2, q) == in_used(img, region_edges(img, sx, sy), u2, q)
        }),
    decreases unused_count(used),
{
    let e = region_edges(img, sx, sy);
    lemma_region_edges(img, sx, sy);
    let last = piece.last();
    let start = piece[0];
    let n = piece.len() as int;
    match next_edge_from(img, e, used, last, 0) {
        None => {
            lemma_next_none(img, e, used, last, 0);
            let ne = e.len() as int;
            let fo = |j: int| if used[j] && key_start(img, e[j] as int) == last { 1int } else { 0int };
            let go = |j: int| if key_start(img, e[j] as int) == last { 1int } else { 0int };
            let fi = |j: int| if used[j] && key_end(img, e[j] as int) == last { 1int } else { 0int };
            let gi = |j: int| if key_end(img, e[j] as int) == last { 1int } else { 0int };
            assert forall|j: int| 0 <= j < ne implies #[trigger] fo(j) == go(j) by {
                assert(region_edge(img, sx, sy, e[j] as int));
                lemma_edge_from_start(img, e[j] as int);
                if key_start(img, e[j] as int) == last {
                    let r = (e[j] as int) % 4;
                    let i2 = if r == 2 { 0int } else if r == 3 { 1int } else if r == 1 { 2int } else { 3int };
                    assert(trace_rank(i2) == r);
                    assert(e[j] as int == edge_key_of(img, last.0, last.1, trace_rank(i2)));
                }
            }
            lemma_sum_pointwise(ne, fo, go);
            lemma_sum_le(ne, fi, gi);
            lemma_degree_balance(img, sx, sy, last);
            assert(out_used(img, e, used, last) - in_used(img, e, used, last) == -1);
            assert(false);
        },
        Some(idx) => {
            let r = lemma_next_edge_found(img, e, used, last, 0);
            let k = e[idx] as int;
            lemma_point_key_decode(img, last.0, last.1, r);
            assert(region_edge(img, sx, sy, k));
            crate::engine::trace::lemma_boundary_grid_edge(img, k);
            let used2 = used.update(idx, true);
            let rr = e[idx] % 4;
            assert(rr as int == r);
            let np = (last.0 + rank_dx(rr as int), last.1 + rank_dy(rr as int));
            assert(key_start(img, k) == last);
            assert(key_end(img, k) == np);
            let piece2 = if n >= 2 && continues(piece[n - 2], last, rank_dx(rr as int), rank_dy(rr as int)) {
                piece.drop_last()
            } else {
                piece
            };
            let piece3 = piece2.push(np);
            assert(chain_cross(piece3, x, y) == chain_cross(piece, x, y) + seg_cross(last, np, x, y)) by {
                if piece2 == piece.drop_last() && piece2 != piece {
                    assert(chain_cross(piece, x, y) == chain_cross(piece2, x, y) + seg_cross(piece[n - 2], last, x, y));
                    lemma_chain_push(piece2, np, x, y);
                    assert(piece2.last() == piece[n - 2]);
                    lemma_seg_merge(piece[n - 2], last, np, rank_dx(r), rank_dy(r), x, y);
                } else {
                    lemma_chain_push(piece, np, x, y);
                }
            }
            assert forall|q: (int, int)| true implies #[trigger] out_used(img, e, used2, q) == out_used(img, e, used, q) + (if q == last { 1int } else { 0int })
                && in_used(img, e, used2, q) == in_used(img, e, used, q) + (if q == np { 1int } else { 0int }) by {
                lemma_use_edge(img, e, used, idx, x, y, q);
            }
            lemma_use_edge(img, e, used, idx, x, y, start);
            assert(piece3[0] == start);
            lemma_unused_count_update(used, idx);
            assert(trace_walk(img, e, used, piece) == (if piece3[0] == piece3.last() {
                (used2, piece3)
            } else {
                trace_walk(img, e, used2, piece3)
            }));
            if piece3[0] != piece3.last() {
                lemma_walk(img, sx, sy, used2, piece3, x, y, base);
            }
        },
    }
}

/// A sum of zeros is zero.
proof fn lemma_sum_zero(n: int, f: spec_fn(int) -> int)
    requires
        forall|j: int| 0 <= j < n ==> #[trigger] f(j) == 0,
    ensures
        sum_to(n, f) == 0,
{
    lemma_sum_single(n, f, -1);
}

/// Tracing from index `i` on, with the edges before `i` used and every
/// corner balanced: the pieces cross as the edges not yet used.
proof fn lemma_trace_pieces(img: &RgbaImage, sx: int, sy: int, used: Seq<bool>, i: int, x: int, y: int)
    requires
        fits_u32(img),
        used.len() == region_edges(img, sx, sy).len(),
        0 <= i,
        forall|j: int| 0 <= j < i && j < used.len() ==> #[trigger] used[j],
        forall|q: (int, int)|
            #[trigger] out_used(img, region_edges(img, sx, sy), used, q) == in_used(img, region_edges(img, sx, sy), used, q),
    ensures
        pieces_cross(trace_pieces(img, region_edges(img, sx, sy), used, i), x, y) == unused_cross(
            img,
            region_edges(img, sx, sy),
            used,
            x,
            y,
        ),
    decreases region_edges(img, sx, sy).len() - i,
{
    let e = region_edges(img, sx, sy);
    lemma_region_edges(img, sx, sy);
    if i >= e.len() {
        lemma_sum_zero(used.len() as int, |j: int| if used[j] { 0int } else { edge_cross(img, e[j] as int, x, y) });
    } else if used[i] {
        lemma_trace_pieces(img, sx, sy, used, i + 1, x, y);
    } else {
        let k = e[i] as int;
        assert(region_edge(img, sx, sy, k));
        crate::engine::trace::lemma_boundary_grid_edge(img, k);
        lemma_key_geometry(img, k);
        let u1 = used.update(i, true);
        let piece0 = seq![key_start(img, k), key_end(img, k)];
        let base = unused_cross(img, e, used, x, y);
        assert forall|q: (int, int)| true implies #[trigger] out_used(img, e, u1, q) - in_used(img, e, u1, q)
            == (if q == piece0[0] { 1int } else { 0int }) - (if q == piece0.last() { 1int } else { 0int }) by {
            lemma_use_edge(img, e, used, i, x, y, q);
        }
        lemma_use_edge(img, e, used, i, x, y, key_start(img, k));
        assert(piece0.drop_last() =~= seq![key_start(img, k)]);
        assert(chain_cross(seq![key_start(img, k)], x, y) == 0);
        assert(chain_cross(piece0, x, y) == edge_cross(img, k, x, y));
        lemma_walk(img, sx, sy, u1, piece0, x, y, base);
        let walked = trace_walk(img, e, u1, piece0);
        let p2 = walked.1;
        let u2 = walked.0;
        let closed = p2.drop_last();
        assert(loop_cross(closed, x, y) == chain_cross(p2, x, y));
        lemma_trace_pieces(img, sx, sy, u2, i + 1, x, y);
        let rest = trace_pieces(img, e, u2, i + 1);
        assert(trace_pieces(img, e, used, i) == seq![closed] + rest);
        assert((seq![closed] + rest).drop_first() =~= rest);
    }
}

/// The sum over `j < n` of `f(j, i)`.
pub open spec fn col_sum(n: int, f: spec_fn(int, int) -> int, i: int) -> int {
    sum_to(n, |j: int| f(j, i))
}

/// The sum over `i < m` of `f(j, i)`.
pub open spec fn row_sum(m: int, f: spec_fn(int, int) -> int, j: int) -> int {
    sum_to(m, |i: int| f(j, i))
}

proof fn lemma_sum_swap(n: int, m: int, f: spec_fn(int, int) -> int)
    ensures
        sum_to(n, |j: int| row_sum(m, f, j)) == sum_to(m, |i: int| col_sum(n, f, i)),
    decreases n,
{
    if n > 0 {
        lemma_sum_swap(n - 1, m, f);
        lemma_sum_add(
            m,
            |i: int| col_sum(n - 1, f, i),
            |i: int| f(n - 1, i),
            |i: int| col_sum(n, f, i),
        );
        assert(row_sum(m, f, n - 1) == sum_to(m, |i: int| f(n - 1, i)));
    } else {
        lemma_sum_zero(m, |i: int| col_sum(n, f, i));
    }
}

proof fn lemma_sum_sub(n: int, f: spec_fn(int) -> int, g: spec_fn(int) -> int, h: spec_fn(int) -> int)
    requires
        forall|j: int| 0 <= j < n ==> #[trigger] h(j) == f(j) - g(j),
    ensures
        sum_to(n, h) == sum_to(n, f) - sum_to(n, g),
    decreases n,
{
    if n > 0 {
        lemma_sum_sub(n - 1, f, g, h);
    }
}

proof fn lemma_telescope(m: int, a: spec_fn(int) -> int, f: spec_fn(int) -> int)
    requires
        m >= 0,
        forall|i: int| 0 <= i < m ==> #[trigger] f(i) == a(i) - a(i + 1),
    ensures
        sum_to(m, f) == a(0) - a(m),
    decreases m,
{
    if m > 0 {
        lemma_telescope(m - 1, a, f);
    }
}

/// One edge's crossing, spread over the grid lines right of the pixel.
proof fn lemma_edge_cross_lines(img: &RgbaImage, k: int, x: int, y: int)
    requires
        boundary_key(img, k),
        0 <= x < width(img),
    ensures
        edge_cross(img, k, x, y) == sum_to(
            width(img) - x,
            |i: int| (if key_cell(img, k) == (x + i, y, 2int) { 1int } else { 0int }) - (if key_cell(img, k) == (x + 1
                + i, y, 0int) { 1int } else { 0int }),
        ),
{
    let m = width(img) - x;
    lemma_key_geometry(img, k);
    let (cx, cy, t) = key_cell(img, k);
    let fa = |i: int| if key_cell(img, k) == (x + i, y, 2int) { 1int } else { 0int };
    let fb = |i: int| if key_cell(img, k) == (x + 1 + i, y, 0int) { 1int } else { 0int };
    lemma_sum_sub(
        m,
        fa,
        fb,
        |i: int| (if key_cell(img, k) == (x + i, y, 2int) { 1int } else { 0int }) - (if key_cell(img, k) == (x + 1 + i, y, 0int) { 1int } else { 0int }),
    );
    lemma_sum_single(m, fa, cx - x);
    lemma_sum_single(m, fb, cx - x - 1);
}

/// The region's traced pieces cross the ray from a pixel's center as the
/// region's edges do.
proof fn lemma_edges_cross(img: &RgbaImage, sx: int, sy: int, x: int, y: int)
    requires
        fits_u32(img),
        in_image(img, x, y),
    ensures
        sum_to(region_edges(img, sx, sy).len() as int, |j: int| edge_cross(img, region_edges(img, sx, sy)[j] as int, x, y))
            == region_indicator(img, sx, sy, x, y),
{
    let e = region_edges(img, sx, sy);
    let n = e.len() as int;
    let m = width(img) - x;
    lemma_region_edges(img, sx, sy);
    let big = |j: int, i: int| (if key_cell(img, e[j] as int) == (x + i, y, 2int) { 1int } else { 0int }) - (if key_cell(
        img,
        e[j] as int,
    ) == (x + 1 + i, y, 0int) { 1int } else { 0int });
    assert forall|j: int| 0 <= j < n implies #[trigger] edge_cross(img, e[j] as int, x, y) == row_sum(m, big, j) by {
        assert(region_edge(img, sx, sy, e[j] as int));
        lemma_edge_cross_lines(img, e[j] as int, x, y);
        lemma_sum_pointwise(
            m,
            |i: int| (if key_cell(img, e[j] as int) == (x + i, y, 2int) { 1int } else { 0int }) - (if key_cell(img, e[j] as int) == (x + 1 + i, y, 0int) { 1int } else { 0int }),
            |i: int| big(j, i),
        );
    }
    lemma_sum_pointwise(n, |j: int| edge_cross(img, e[j] as int, x, y), |j: int| row_sum(m, big, j));
    lemma_sum_swap(n, m, big);
    assert forall|i: int| 0 <= i < m implies #[trigger] col_sum(n, big, i) == side_present(img, sx, sy, x + i, y, 2)
        - side_present(img, sx, sy, x + 1 + i, y, 0) by {
        lemma_sum_sub(
            n,
            |j: int| if key_cell(img, e[j] as int) == (x + i, y, 2int) { 1int } else { 0int },
            |j: int| if key_cell(img, e[j] as int) == (x + 1 + i, y, 0int) { 1int } else { 0int },
            |j: int| big(j, i),
        );
        lemma_side_count(img, sx, sy, x + i, y, 2);
        lemma_side_count(img, sx, sy, x + 1 + i, y, 0);
    }
    let a = |i: int| region_indicator(img, sx, sy, x + i, y);
    assert forall|i: int| 0 <= i < m implies #[trigger] col_sum(n, big, i) == a(i) - a(i + 1) by {
        if connected(img, sx, sy, x + i + 1, y) {
            lemma_connected_color(img, sx, sy, x + i + 1, y);
        }
    }
    lemma_telescope(m, a, |i: int| col_sum(n, big, i));
    if connected(img, sx, sy, width(img), y) {
        lemma_connected_color(img, sx, sy, width(img), y);
    }
}

/// The pixel-exact engine reproduces each region exactly: the closed
/// polylines it traces for the region of `(sx, sy)` wind once, under the
/// nonzero rule, around the center of every pixel of the region and not
/// around that of any other pixel of the image.
pub proof fn law_pieces_enclose_region(img: &RgbaImage, sx: int, sy: int, x: int, y: int)
    requires
        fits_u32(img),
        in_image(img, x, y),
    ensures
        pieces_cross(region_pieces(img, sx, sy), x, y) == region_indicator(img, sx, sy, x, y),
{
    let e = region_edges(img, sx, sy);
    let n = e.len() as int;
    let none = Seq::new(e.len(), |j: int| false);
    assert forall|q: (int, int)| true implies #[trigger] out_used(img, e, none, q) == in_used(img, e, none, q) by {
        lemma_sum_zero(n, |j: int| if none[j] && key_start(img, e[j] as int) == q { 1int } else { 0int });
        lemma_sum_zero(n, |j: int| if none[j] && key_end(img, e[j] as int) == q { 1int } else { 0int });
    }
    lemma_trace_pieces(img, sx, sy, none, 0, x, y);
    lemma_sum_pointwise(
        n,
        |j: int| if none[j] { 0int } else { edge_cross(img, e[j] as int, x, y) },
        |j: int| edge_cross(img, e[j] as int, x, y),
    );
    lemma_edges_cross(img, sx, sy, x, y);
}

/// The pieces traced for one color, region after region in scan order, as
/// the scan appends them to that color's path data.
pub open spec fn color_pieces(img: &RgbaImage, key: u64, m: nat) -> Seq<Seq<(int, int)>>
    decreases m,
{
    if m == 0 {
        seq![]
    } else {
        let prev = color_pieces(img, key, (m - 1) as nat);
        let c = m - 1;
        let x = c % width(img);
        let y = c / width(img);
        if is_region_seed(img, x, y) && sorted_elements(region_edge_set(img, x, y)).len() > 0 && pixel_color(img, x, y)
            as u64 == key {
            prev + region_pieces(img, x, y)
        } else {
            prev
        }
    }
}

/// Pixel `(x, y)` is non-transparent and has the color `key`, as 1 or 0.
pub open spec fn color_indicator(img: &RgbaImage, key: u64, x: int, y: int) -> int {
    if channel(img, x, y, 3) != 0 && pixel_color(img, x, y) == key as int {
        1
    } else {
        0
    }
}

proof fn lemma_pieces_cross_concat(a: Seq<Seq<(int, int)>>, b: Seq<Seq<(int, int)>>, x: int, y: int)
    ensures
        pieces_cross(a + b, x, y) == pieces_cross(a, x, y) + pieces_cross(b, x, y),
    decreases a.len(),
{
    if a.len() == 0 {
        assert(a + b =~= b);
    } else {
        assert((a + b).drop_first() =~= a.drop_first() + b);
        lemma_pieces_cross_concat(a.drop_first(), b, x, y);
    }
}

proof fn lemma_emit_concat(buf: Seq<char>, ls: (int, int), a: Seq<Seq<(int, int)>>, b: Seq<Seq<(int, int)>>)
    ensures
        emit_pieces(buf, ls, a + b) == emit_pieces(emit_pieces(buf, ls, a).0, emit_pieces(buf, ls, a).1, b),
    decreases a.len(),
{
    if a.len() == 0 {
        assert(a + b =~= b);
    } else {
        let p = a[0];
        assert((a + b)[0] == p);
        assert((a + b).drop_first() =~= a.drop_first() + b);
        lemma_emit_concat(buf + piece_text(p), p[0], a.drop_first(), b);
    }
}

/// The first pixel, in row-major order, of the region of `(x, y)`.
pub open spec fn seed_of(img: &RgbaImage, x: int, y: int) -> (int, int) {
    choose|s: (int, int)|
        in_image(img, s.0, s.1) && connected(img, s.0, s.1, x, y) && !earlier_connected(
            img,
            x,
            y,
            cell_index(img, s.0, s.1),
        )
}

proof fn lemma_seed_of(img: &RgbaImage, x: int, y: int)
    requires
        in_image(img, x, y),
    ensures
        in_image(img, seed_of(img, x, y).0, seed_of(img, x, y).1),
        connected(img, seed_of(img, x, y).0, seed_of(img, x, y).1, x, y),
        !earlier_connected(img, x, y, cell_index(img, seed_of(img, x, y).0, seed_of(img, x, y).1)),
        cell_index(img, seed_of(img, x, y).0, seed_of(img, x, y).1) <= cell_index(img, x, y),
{
    lemma_connected_refl(img, x, y);
    lemma_cell_index_bounds(img, x, y);
    assert(earlier_connected(img, x, y, cell_index(img, x, y) + 1));
    let s = crate::engine::guarantees::lemma_least_connected(img, x, y, cell_index(img, x, y) + 1);
    assert(in_image(img, s.0, s.1) && connected(img, s.0, s.1, x, y) && !earlier_connected(img, x, y, cell_index(img, s.0, s.1)));
}

/// A region seed connected to a pixel is that pixel's seed.
proof fn lemma_seed_unique(img: &RgbaImage, px: int, py: int, x: int, y: int)
    requires
        in_image(img, x, y),
        is_region_seed(img, px, py),
        connected(img, px, py, x, y),
    ensures
        seed_of(img, x, y) == (px, py),
{
    lemma_seed_of(img, x, y);
    let s = seed_of(img, x, y);
    let ip = cell_index(img, px, py);
    let is = cell_index(img, s.0, s.1);
    if is < ip {
        lemma_connected_symm(img, px, py, x, y);
        lemma_connected_trans(img, s.0, s.1, x, y, px, py);
        assert(earlier_connected(img, px, py, ip));
    } else if ip < is {
        assert(earlier_connected(img, x, y, is));
    } else {
        lemma_cell_index_injective(img, px, py, s.0, s.1);
    }
}

/// A region seed's region has boundary edges (its traced pieces wind
/// around it).
proof fn lemma_seed_has_edges(img: &RgbaImage, px: int, py: int)
    requires
        fits_u32(img),
        is_region_seed(img, px, py),
    ensures
        sorted_elements(region_edge_set(img, px, py)).len() > 0,
{
    lemma_connected_refl(img, px, py);
    law_pieces_enclose_region(img, px, py, px, py);
    if sorted_elements(region_edge_set(img, px, py)).len() == 0 {
        assert(region_pieces(img, px, py) =~= Seq::<Seq<(int, int)>>::empty());
    }
}

/// The pieces of one color after the first `m` pixels wind once around the
/// pixels of that color whose seed comes before `m`, and around no other.
proof fn lemma_color_pieces_cross(img: &RgbaImage, key: u64, m: nat, x: int, y: int)
    requires
        fits_u32(img),
        in_image(img, x, y),
        m <= width(img) * height(img),
    ensures
        pieces_cross(color_pieces(img, key, m), x, y) == if color_indicator(img, key, x, y) == 1 && cell_index(
            img,
            seed_of(img, x, y).0,
            seed_of(img, x, y).1,
        ) < m {
            1int
        } else {
            0int
        },
    decreases m,
{
    lemma_seed_of(img, x, y);
    let s = seed_of(img, x, y);
    lemma_connected_color(img, s.0, s.1, x, y);
    lemma_color_alpha(img, s.0, s.1);
    lemma_color_alpha(img, x, y);
    if m > 0 {
        lemma_color_pieces_cross(img, key, (m - 1) as nat, x, y);
        let c = m - 1;
        let w = width(img);
        let px = c % w;
        let py = c / w;
        let prev = color_pieces(img, key, (m - 1) as nat);
        if is_region_seed(img, px, py) && sorted_elements(region_edge_set(img, px, py)).len() > 0 && pixel_color(img, px, py)
            as u64 == key {
            lemma_pieces_cross_concat(prev, region_pieces(img, px, py), x, y);
            law_pieces_enclose_region(img, px, py, x, y);
            lemma_scan_pixel(img, c);
            if connected(img, px, py, x, y) {
                lemma_seed_unique(img, px, py, x, y);
                lemma_connected_color(img, px, py, x, y);
            }
            if cell_index(img, s.0, s.1) == c {
                lemma_cell_index_injective(img, px, py, s.0, s.1);
            }
        } else {
            if color_indicator(img, key, x, y) == 1 && cell_index(img, s.0, s.1) == c {
                lemma_scan_pixel(img, c);
                lemma_cell_index_injective(img, px, py, s.0, s.1);
                assert(!earlier_connected(img, s.0, s.1, c)) by {
                    if earlier_connected(img, s.0, s.1, c) {
                        let (qx, qy) = choose|x2: int, y2: int|
                            in_image(img, x2, y2) && cell_index(img, x2, y2) < c && #[trigger] connected(img, x2, y2, s.0, s.1);
                        lemma_connected_trans(img, qx, qy, s.0, s.1, x, y);
                        assert(earlier_connected(img, x, y, c));
                    }
                }
                assert(is_region_seed(img, px, py));
                lemma_seed_has_edges(img, px, py);
                assert(0 <= pixel_color(img, px, py) < 0x1_0000_0000);
            }
        }
    } else {
        lemma_cell_index_bounds(img, s.0, s.1);
    }
}

/// Pixel number `c` in row-major order is `(c % width, c / width)`.
proof fn lemma_scan_pixel(img: &RgbaImage, c: int)
    requires
        0 <= c < width(img) * height(img),
    ensures
        in_image(img, c % width(img), c / width(img)),
        cell_index(img, c % width(img), c / width(img)) == c,
{
    let w = width(img);
    let h = height(img);
    assert(w > 0) by (nonlinear_arith)
        requires
            0 <= c < w * h,
            w >= 0,
            h >= 0,
    ;
    vstd::arithmetic::div_mod::lemma_fundamental_div_mod(c, w);
    assert(c / w < h) by (nonlinear_arith)
        requires
            0 <= c < w * h,
            w > 0,
            c == w * (c / w) + c % w,
            0 <= c % w < w,
    ;
    assert(c / w >= 0) by (nonlinear_arith)
        requires
            0 <= c,
            w > 0,
            c == w * (c / w) + c % w,
            0 <= c % w < w,
    ;
}

/// The pixel-exact engine reproduces every pixel: the path data of each
/// color is the text of that color's pieces, and those pieces wind once,
/// under the nonzero rule, around the center of every non-transparent pixel
/// of that color and around no other pixel of the image.
pub proof fn law_color_paths_exact(img: &RgbaImage, key: u64, x: int, y: int)
    requires
        fits_u32(img),
        in_image(img, x, y),
    ensures
        color_paths(img).contains_key(key) ==> color_paths(img)[key].0 == emit_pieces(
            seq![],
            (0, 0),
            color_pieces(img, key, (width(img) * height(img)) as nat),
        ).0,
        pieces_cross(color_pieces(img, key, (width(img) * height(img)) as nat), x, y) == color_indicator(img, key, x, y),
{
    let n = (width(img) * height(img)) as nat;
    lemma_color_pieces_cross(img, key, n, x, y);
    lemma_seed_of(img, x, y);
    lemma_cell_index_bounds(img, x, y);
    lemma_scan_entry(img, key, n);
}

/// A color's scan entry is the emitted text of its pieces so far.
proof fn lemma_scan_entry(img: &RgbaImage, key: u64, m: nat)
    requires
        m <= width(img) * height(img),
    ensures
        scan_state(img, m).contains_key(key) ==> scan_state(img, m)[key] == emit_pieces(seq![], (0, 0), color_pieces(img, key, m)),
        !scan_state(img, m).contains_key(key) ==> color_pieces(img, key, m).len() == 0,
    decreases m,
{
    if m > 0 {
        lemma_scan_entry(img, key, (m - 1) as nat);
        let c = m - 1;
        let w = width(img);
        let px = c % w;
        let py = c / w;
        let prev = scan_state(img, (m - 1) as nat);
        let cp = color_pieces(img, key, (m - 1) as nat);
        if is_region_seed(img, px, py) && sorted_elements(region_edge_set(img, px, py)).len() > 0 {
            let k2 = pixel_color(img, px, py) as u64;
            if k2 == key {
                lemma_emit_concat(seq![], (0, 0), cp, region_pieces(img, px, py));
                if !prev.contains_key(key) {
                    assert(cp =~= Seq::<Seq<(int, int)>>::empty());
                    assert(cp + region_pieces(img, px, py) =~= region_pieces(img, px, py));
                }
            }
        }
    }
}

} // verus!

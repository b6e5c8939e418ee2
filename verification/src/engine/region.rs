//! Regions of the pixel-exact engine: maximal 4-connected sets of pixels of
//! one RGBA color, and the directed unit edges on their boundaries.
use vstd::prelude::*;
use vstd::arithmetic::div_mod::lemma_fundamental_div_mod_converse;
use crate::image::{RgbaImage, color_key};

verus! {

/// Width of the image as an integer.
pub open spec fn width(img: &RgbaImage) -> int {
    img.spec_width() as int
}

/// Height of the image as an integer.
pub open spec fn height(img: &RgbaImage) -> int {
    img.spec_height() as int
}

/// The engine indexes pixel bytes with 32-bit arithmetic: `width * height * 4`
/// must fit in a `u32`.
pub open spec fn fits_u32(img: &RgbaImage) -> bool {
    width(img) * height(img) * 4 <= u32::MAX
}

/// `(x, y)` is a pixel of the image.
pub open spec fn in_image(img: &RgbaImage, x: int, y: int) -> bool {
    0 <= x < width(img) && 0 <= y < height(img)
}

/// Row-major index of pixel `(x, y)`.
pub open spec fn cell_index(img: &RgbaImage, x: int, y: int) -> int {
    y * width(img) + x
}

/// Channel `c` (0 = red .. 3 = alpha) of pixel `(x, y)`.
pub open spec fn channel(img: &RgbaImage, x: int, y: int, c: int) -> u8 {
    img.spec_data()[cell_index(img, x, y) * 4 + c]
}

/// The color of pixel `(x, y)` as a key (see `color_key`).
pub open spec fn pixel_color(img: &RgbaImage, x: int, y: int) -> int {
    color_key(channel(img, x, y, 0), channel(img, x, y, 1), channel(img, x, y, 2), channel(img, x, y, 3))
}

/// Neighbour directions, in the order the engine examines them:
/// 0 = left, 1 = below (y + 1), 2 = right, 3 = above (y - 1).
pub open spec fn nbr_x(x: int, t: int) -> int {
    if t == 0 {
        x - 1
    } else if t == 2 {
        x + 1
    } else {
        x
    }
}

/// See `nbr_x`.
pub open spec fn nbr_y(y: int, t: int) -> int {
    if t == 1 {
        y + 1
    } else if t == 3 {
        y - 1
    } else {
        y
    }
}

/// The neighbour of `(x, y)` in direction `t` is a pixel of the same color.
pub open spec fn joins(img: &RgbaImage, x: int, y: int, t: int) -> bool {
    in_image(img, nbr_x(x, t), nbr_y(y, t)) && pixel_color(img, nbr_x(x, t), nbr_y(y, t))
        == pixel_color(img, x, y)
}

/// Two pixels share a side and have the same color.
pub open spec fn adjacent_same(img: &RgbaImage, a: (int, int), b: (int, int)) -> bool {
    &&& in_image(img, a.0, a.1)
    &&& in_image(img, b.0, b.1)
    &&& pixel_color(img, a.0, a.1) == pixel_color(img, b.0, b.1)
    &&& ((a.0 == b.0 && (a.1 - b.1 == 1 || b.1 - a.1 == 1)) || (a.1 == b.1 && (a.0 - b.0 == 1
        || b.0 - a.0 == 1)))
}

/// Step `i` of path `p` goes between side-sharing pixels of one color.
pub open spec fn path_step(img: &RgbaImage, p: Seq<(int, int)>, i: int) -> bool {
    adjacent_same(img, p[i], p[i + 1])
}

/// `p` is a walk through side-sharing pixels of one color.
pub open spec fn is_color_path(img: &RgbaImage, p: Seq<(int, int)>) -> bool {
    &&& p.len() > 0
    &&& in_image(img, p[0].0, p[0].1)
    &&& forall|i: int| 0 <= i < p.len() - 1 ==> #[trigger] path_step(img, p, i)
}

/// Pixel `(bx, by)` lies in the region of `(ax, ay)`: the maximal 4-connected
/// set of pixels of its color that contains it.
pub open spec fn connected(img: &RgbaImage, ax: int, ay: int, bx: int, by: int) -> bool {
    exists|p: Seq<(int, int)>|
        #[trigger] is_color_path(img, p) && p[0] == (ax, ay) && p.last() == (bx, by)
}

/// Every visited, non-transparent pixel has all its same-colored neighbours
/// visited too.
pub open spec fn closed_visited(img: &RgbaImage, vis: Seq<bool>) -> bool {
    forall|x: int, y: int, t: int|
        #![trigger vis[cell_index(img, x, y)], joins(img, x, y, t)]
        in_image(img, x, y) && 0 <= t < 4 && vis[cell_index(img, x, y)] && channel(img, x, y, 3)
            != 0 && joins(img, x, y, t) ==> vis[cell_index(img, nbr_x(x, t), nbr_y(y, t))]
}

/// Start corner of the boundary edge on side `t` of pixel `(x, y)`. The edge
/// runs counter-clockwise around the pixel in image coordinates: left side
/// downwards, bottom side rightwards, right side upwards, top side leftwards.
pub open spec fn edge_start_x(x: int, t: int) -> int {
    if t == 0 || t == 1 {
        x
    } else {
        x + 1
    }
}

/// See `edge_start_x`.
pub open spec fn edge_start_y(y: int, t: int) -> int {
    if t == 0 || t == 3 {
        y
    } else {
        y + 1
    }
}

/// Rank of the edge's direction among the four, ordered as their end points
/// compare: left (0), up (1), down (2), right (3).
pub open spec fn edge_rank(t: int) -> int {
    if t == 0 {
        2
    } else if t == 1 {
        3
    } else if t == 2 {
        1
    } else {
        0
    }
}

/// The key of a corner point: points ordered by `x`, then `y`.
pub open spec fn point_key(img: &RgbaImage, px: int, py: int) -> int {
    px * (height(img) + 1) + py
}

/// The key of a directed unit edge from its start corner and direction rank;
/// integer order on keys is the lexicographic order on
/// `((start_x, start_y), (end_x, end_y))`.
pub open spec fn edge_key_of(img: &RgbaImage, px: int, py: int, rank: int) -> int {
    point_key(img, px, py) * 4 + rank
}

/// The key of the boundary edge on side `t` of pixel `(x, y)`.
pub open spec fn edge_key(img: &RgbaImage, x: int, y: int, t: int) -> int {
    edge_key_of(img, edge_start_x(x, t), edge_start_y(y, t), edge_rank(t))
}

/// Start corner `x` of the edge with key `k`.
pub open spec fn key_start_x(img: &RgbaImage, k: int) -> int {
    (k / 4) / (height(img) + 1)
}

/// Start corner `y` of the edge with key `k`.
pub open spec fn key_start_y(img: &RgbaImage, k: int) -> int {
    (k / 4) % (height(img) + 1)
}

/// The pixel side that the edge with key `k` borders (inverse of `edge_rank`).
pub open spec fn key_side(k: int) -> int {
    let r = k % 4;
    if r == 2 {
        0
    } else if r == 3 {
        1
    } else if r == 1 {
        2
    } else {
        3
    }
}

/// The pixel that the edge with key `k` borders, `x`.
pub open spec fn key_cell_x(img: &RgbaImage, k: int) -> int {
    let t = key_side(k);
    if t == 0 || t == 1 {
        key_start_x(img, k)
    } else {
        key_start_x(img, k) - 1
    }
}

/// The pixel that the edge with key `k` borders, `y`.
pub open spec fn key_cell_y(img: &RgbaImage, k: int) -> int {
    let t = key_side(k);
    if t == 0 || t == 3 {
        key_start_y(img, k)
    } else {
        key_start_y(img, k) - 1
    }
}

/// Key `k` names the side of a pixel that faces another color or the outside.
pub open spec fn boundary_key(img: &RgbaImage, k: int) -> bool {
    &&& k >= 0
    &&& in_image(img, key_cell_x(img, k), key_cell_y(img, k))
    &&& !joins(img, key_cell_x(img, k), key_cell_y(img, k), key_side(k))
}

/// Key `k` is a boundary edge of the region of `(sx, sy)`.
pub open spec fn region_edge(img: &RgbaImage, sx: int, sy: int, k: int) -> bool {
    boundary_key(img, k) && connected(img, sx, sy, key_cell_x(img, k), key_cell_y(img, k))
}

/// Encoding a pixel side as a key and decoding it give back the pixel side.
pub proof fn lemma_edge_key_decode(img: &RgbaImage, x: int, y: int, t: int)
    requires
        in_image(img, x, y),
        0 <= t < 4,
    ensures
        edge_key(img, x, y, t) >= 0,
        key_side(edge_key(img, x, y, t)) == t,
        key_cell_x(img, edge_key(img, x, y, t)) == x,
        key_cell_y(img, edge_key(img, x, y, t)) == y,
{
    let h1 = height(img) + 1;
    let sx = edge_start_x(x, t);
    let sy = edge_start_y(y, t);
    let r = edge_rank(t);
    let pk = sx * h1 + sy;
    let k = pk * 4 + r;
    assert(pk >= 0) by (nonlinear_arith)
        requires
            sx >= 0,
            h1 >= 1,
            sy >= 0,
            pk == sx * h1 + sy,
    ;
    lemma_fundamental_div_mod_converse(k, 4, pk, r);
    lemma_fundamental_div_mod_converse(pk, h1, sx, sy);
}

/// Decoding a key whose pixel lies in the image and encoding it again gives
/// back the key.
pub proof fn lemma_edge_key_encode(img: &RgbaImage, k: int)
    requires
        k >= 0,
        in_image(img, key_cell_x(img, k), key_cell_y(img, k)),
    ensures
        edge_key(img, key_cell_x(img, k), key_cell_y(img, k), key_side(k)) == k,
{
    let h1 = height(img) + 1;
    let pk = k / 4;
    assert(k == pk * 4 + k % 4);
    assert(pk == (pk / h1) * h1 + pk % h1) by {
        vstd::arithmetic::div_mod::lemma_fundamental_div_mod(pk, h1);
        vstd::arithmetic::mul::lemma_mul_is_commutative(h1, pk / h1);
    }
}

/// A path extended by one side-sharing pixel of the same color.
pub proof fn lemma_connected_step(img: &RgbaImage, ax: int, ay: int, bx: int, by: int, c: (int, int))
    requires
        connected(img, ax, ay, bx, by),
        adjacent_same(img, (bx, by), c),
    ensures
        connected(img, ax, ay, c.0, c.1),
{
    let p = choose|p: Seq<(int, int)>|
        #[trigger] is_color_path(img, p) && p[0] == (ax, ay) && p.last() == (bx, by);
    let q = p.push(c);
    assert forall|i: int| 0 <= i < q.len() - 1 implies #[trigger] path_step(img, q, i) by {
        if i < p.len() - 1 {
            assert(path_step(img, p, i));
        }
    }
    assert(is_color_path(img, q));
}

/// Every pixel is in its own region.
pub proof fn lemma_connected_refl(img: &RgbaImage, x: int, y: int)
    requires
        in_image(img, x, y),
    ensures
        connected(img, x, y, x, y),
{
    let p = seq![(x, y)];
    assert(is_color_path(img, p));
}

/// All pixels on a path lie in the image and have the color of its first pixel.
pub proof fn lemma_path_color(img: &RgbaImage, p: Seq<(int, int)>, i: int)
    requires
        is_color_path(img, p),
        0 <= i < p.len(),
    ensures
        in_image(img, p[i].0, p[i].1),
        pixel_color(img, p[i].0, p[i].1) == pixel_color(img, p[0].0, p[0].1),
    decreases i,
{
    if i > 0 {
        lemma_path_color(img, p, i - 1);
        assert(path_step(img, p, i - 1));
    }
}

/// Pixels of one region share a color.
pub proof fn lemma_connected_color(img: &RgbaImage, ax: int, ay: int, bx: int, by: int)
    requires
        connected(img, ax, ay, bx, by),
    ensures
        in_image(img, ax, ay),
        in_image(img, bx, by),
        pixel_color(img, ax, ay) == pixel_color(img, bx, by),
{
    let p = choose|p: Seq<(int, int)>|
        #[trigger] is_color_path(img, p) && p[0] == (ax, ay) && p.last() == (bx, by);
    lemma_path_color(img, p, p.len() - 1);
}

/// Region membership is symmetric.
pub proof fn lemma_connected_symm(img: &RgbaImage, ax: int, ay: int, bx: int, by: int)
    requires
        connected(img, ax, ay, bx, by),
    ensures
        connected(img, bx, by, ax, ay),
{
    let p = choose|p: Seq<(int, int)>|
        #[trigger] is_color_path(img, p) && p[0] == (ax, ay) && p.last() == (bx, by);
    let q = p.reverse();
    lemma_path_color(img, p, p.len() - 1);
    assert forall|i: int| 0 <= i < q.len() - 1 implies #[trigger] path_step(img, q, i) by {
        let j = p.len() - 2 - i;
        assert(path_step(img, p, j));
    }
    assert(is_color_path(img, q));
}

/// Region membership is transitive.
pub proof fn lemma_connected_trans(
    img: &RgbaImage,
    ax: int,
    ay: int,
    bx: int,
    by: int,
    cx: int,
    cy: int,
)
    requires
        connected(img, ax, ay, bx, by),
        connected(img, bx, by, cx, cy),
    ensures
        connected(img, ax, ay, cx, cy),
{
    let p = choose|p: Seq<(int, int)>|
        #[trigger] is_color_path(img, p) && p[0] == (ax, ay) && p.last() == (bx, by);
    let q = choose|q: Seq<(int, int)>|
        #[trigger] is_color_path(img, q) && q[0] == (bx, by) && q.last() == (cx, cy);
    let r = p + q.drop_first();
    assert forall|i: int| 0 <= i < r.len() - 1 implies #[trigger] path_step(img, r, i) by {
        if i < p.len() - 1 {
            assert(path_step(img, p, i));
        } else {
            let j = i - (p.len() - 1);
            assert(path_step(img, q, j));
        }
    }
    assert(is_color_path(img, r));
    if q.len() > 1 {
        assert(r.last() == q.last());
    }
}

/// The alpha channel is the low byte of the color key.
pub proof fn lemma_color_alpha(img: &RgbaImage, x: int, y: int)
    ensures
        pixel_color(img, x, y) % 256 == channel(img, x, y, 3) as int,
{
    let r = channel(img, x, y, 0) as int;
    let g = channel(img, x, y, 1) as int;
    let b = channel(img, x, y, 2) as int;
    let a = channel(img, x, y, 3) as int;
    lemma_fundamental_div_mod_converse(pixel_color(img, x, y), 256, r * 65536 + g * 256 + b, a);
}

/// Row-major indices of pixels are in range, and so are their bytes.
pub proof fn lemma_cell_index_bounds(img: &RgbaImage, x: int, y: int)
    requires
        in_image(img, x, y),
    ensures
        0 <= cell_index(img, x, y) < width(img) * height(img),
        cell_index(img, x, y) * 4 + 3 < width(img) * height(img) * 4,
{
    let w = width(img);
    let h = height(img);
    assert(0 <= y * w + x < w * h) by (nonlinear_arith)
        requires
            0 <= x < w,
            0 <= y < h,
    ;
}

/// Distinct pixels have distinct row-major indices.
pub proof fn lemma_cell_index_injective(img: &RgbaImage, x1: int, y1: int, x2: int, y2: int)
    requires
        in_image(img, x1, y1),
        in_image(img, x2, y2),
        cell_index(img, x1, y1) == cell_index(img, x2, y2),
    ensures
        x1 == x2 && y1 == y2,
{
    let w = width(img);
    lemma_fundamental_div_mod_converse(cell_index(img, x1, y1), w, y1, x1);
    lemma_fundamental_div_mod_converse(cell_index(img, x2, y2), w, y2, x2);
}

/// The side of `a` that `b` lies on, when the two pixels share a side.
pub proof fn adjacent_side(img: &RgbaImage, a: (int, int), b: (int, int)) -> (t: int)
    requires
        adjacent_same(img, a, b),
    ensures
        0 <= t < 4,
        b == (nbr_x(a.0, t), nbr_y(a.1, t)),
        joins(img, a.0, a.1, t),
{
    if b.0 == a.0 - 1 && b.1 == a.1 {
        0
    } else if b.0 == a.0 && b.1 == a.1 + 1 {
        1
    } else if b.0 == a.0 + 1 && b.1 == a.1 {
        2
    } else {
        3
    }
}

/// The color of pixel `(x, y)`.
pub fn color_at(img: &RgbaImage, data: &Vec<u8>, x: u32, y: u32) -> (k: u64)
    requires
        data@ == img.spec_data(),
        data@.len() == width(img) * height(img) * 4,
        fits_u32(img),
        in_image(img, x as int, y as int),
    ensures
        k as int == pixel_color(img, x as int, y as int),
{
    proof {
        lemma_cell_index_bounds(img, x as int, y as int);
    }
    let i: usize = ((y as usize) * (img.width() as usize) + (x as usize)) * 4;
    (data[i] as u64) * 16777216 + (data[i + 1] as u64) * 65536 + (data[i + 2] as u64) * 256 + (
    data[i + 3] as u64)
}

/// The neighbour of `(x, y)` on side `t`, when it lies in the image.
pub fn neighbor(img: &RgbaImage, x: u32, y: u32, t: u32) -> (r: (bool, u32, u32))
    requires
        in_image(img, x as int, y as int),
        t < 4,
    ensures
        r.0 <==> in_image(img, nbr_x(x as int, t as int), nbr_y(y as int, t as int)),
        r.0 ==> r.1 as int == nbr_x(x as int, t as int) && r.2 as int == nbr_y(y as int, t as int),
{
    let w = img.width();
    let h = img.height();
    if t == 0 {
        if x > 0 {
            (true, x - 1, y)
        } else {
            (false, 0, 0)
        }
    } else if t == 1 {
        if y + 1 < h {
            (true, x, y + 1)
        } else {
            (false, 0, 0)
        }
    } else if t == 2 {
        if x + 1 < w {
            (true, x + 1, y)
        } else {
            (false, 0, 0)
        }
    } else {
        if y > 0 {
            (true, x, y - 1)
        } else {
            (false, 0, 0)
        }
    }
}

/// The key of the boundary edge on side `t` of pixel `(x, y)`.
pub fn edge_key_exec(img: &RgbaImage, x: u32, y: u32, t: u32) -> (k: u64)
    requires
        fits_u32(img),
        in_image(img, x as int, y as int),
        t < 4,
    ensures
        k as int == edge_key(img, x as int, y as int, t as int),
{
    let h1: u64 = img.height() as u64 + 1;
    let sx: u64 = if t == 0 || t == 1 { x as u64 } else { x as u64 + 1 };
    let sy: u64 = if t == 0 || t == 3 { y as u64 } else { y as u64 + 1 };
    let r: u64 = if t == 0 { 2 } else if t == 1 { 3 } else if t == 2 { 1 } else { 0 };
    proof {
        let w = width(img);
        let h = height(img);
        assert(sx * h1 + sy <= 0x1000_0000_0000_0000int) by (nonlinear_arith)
            requires
                sx <= w,
                sy <= h,
                h1 == h + 1,
                w * h * 4 <= 0xffff_ffff,
                w >= 1,
                h >= 1,
        ;
    }
    (sx * h1 + sy) * 4 + r
}

/// Pixel `(x, y)` was marked by the current flood.
pub open spec fn fresh(img: &RgbaImage, vis: Seq<bool>, old_vis: Seq<bool>, x: int, y: int) -> bool {
    vis[cell_index(img, x, y)] && !old_vis[cell_index(img, x, y)]
}

/// Pixel `(x, y)` is marked by the current flood and no longer waits on the stack.
pub open spec fn done(
    img: &RgbaImage,
    vis: Seq<bool>,
    old_vis: Seq<bool>,
    stack: Seq<(u32, u32)>,
    x: int,
    y: int,
) -> bool {
    fresh(img, vis, old_vis, x, y) && !stack.contains((x as u32, y as u32))
}

/// A flood whose marked pixels are closed under same-colored neighbours has
/// marked every pixel of the region of its seed.
proof fn lemma_flood_complete(
    img: &RgbaImage,
    old_vis: Seq<bool>,
    vis: Seq<bool>,
    sx: int,
    sy: int,
    p: Seq<(int, int)>,
    i: int,
)
    requires
        in_image(img, sx, sy),
        channel(img, sx, sy, 3) != 0,
        old_vis.len() == width(img) * height(img),
        vis.len() == width(img) * height(img),
        closed_visited(img, old_vis),
        fresh(img, vis, old_vis, sx, sy),
        forall|x: int, y: int, t: int|
            #![trigger vis[cell_index(img, x, y)], joins(img, x, y, t)]
            in_image(img, x, y) && 0 <= t < 4 && fresh(img, vis, old_vis, x, y) && joins(
                img,
                x,
                y,
                t,
            ) ==> vis[cell_index(img, nbr_x(x, t), nbr_y(y, t))],
        is_color_path(img, p),
        p[0] == (sx, sy),
        0 <= i < p.len(),
    ensures
        fresh(img, vis, old_vis, p[i].0, p[i].1),
    decreases i,
{
    if i > 0 {
        lemma_flood_complete(img, old_vis, vis, sx, sy, p, i - 1);
        let a = p[i - 1];
        let b = p[i];
        assert(path_step(img, p, i - 1));
        let t = adjacent_side(img, a, b);
        assert(vis[cell_index(img, a.0, a.1)]);
        assert(vis[cell_index(img, b.0, b.1)]);
        if old_vis[cell_index(img, b.0, b.1)] {
            lemma_path_color(img, p, i);
            lemma_color_alpha(img, b.0, b.1);
            lemma_color_alpha(img, sx, sy);
            let back = adjacent_side(img, b, a);
            assert(joins(img, b.0, b.1, back));
            assert(old_vis[cell_index(img, nbr_x(b.0, back), nbr_y(b.1, back))]);
        }
    }
}

/// Marks the region of `(sx, sy)` and returns the keys of its boundary edges.
/// Pixels are taken from a stack; each side of a pixel either leads to an
/// unmarked pixel of the same color, which is marked and pushed, or to a
/// pixel that is not of the same color or outside the image, which makes the
/// side a boundary edge.
pub fn flood_region(img: &RgbaImage, data: &Vec<u8>, visited: &mut Vec<bool>, sx: u32, sy: u32) -> (edges: Vec<u64>)
    requires
        data@ == img.spec_data(),
        data@.len() == width(img) * height(img) * 4,
        fits_u32(img),
        in_image(img, sx as int, sy as int),
        old(visited)@.len() == width(img) * height(img),
        !old(visited)@[cell_index(img, sx as int, sy as int)],
        channel(img, sx as int, sy as int, 3) != 0,
        closed_visited(img, old(visited)@),
    ensures
        final(visited)@.len() == old(visited)@.len(),
        forall|x: int, y: int|
            in_image(img, x, y) ==> (#[trigger] final(visited)@[cell_index(img, x, y)] <==> (old(
                visited,
            )@[cell_index(img, x, y)] || connected(img, sx as int, sy as int, x, y))),
        closed_visited(img, final(visited)@),
        edges@.no_duplicates(),
        forall|k: u64| #[trigger] edges@.contains(k) <==> region_edge(img, sx as int, sy as int, k as int),
{
    let ghost old_vis = visited@;
    let ghost sxi = sx as int;
    let ghost syi = sy as int;
    proof {
        lemma_cell_index_bounds(img, sxi, syi);
        lemma_connected_refl(img, sxi, syi);
    }
    let seed_idx: usize = (sy as usize) * (img.width() as usize) + (sx as usize);
    visited[seed_idx] = true;
    let mut stack: Vec<(u32, u32)> = Vec::new();
    stack.push((sx, sy));
    let mut edges: Vec<u64> = Vec::new();
    let ghost n = width(img) * height(img);
    let ghost mut marked: Set<int> = set![seed_idx as int];
    proof {
        assert forall|x: int, y: int| in_image(img, x, y) && #[trigger] visited@[cell_index(img, x, y)] && !old_vis[cell_index(img, x, y)] implies connected(img, sxi, syi, x, y) by {
            lemma_cell_index_bounds(img, x, y);
            if cell_index(img, x, y) != seed_idx {
                assert(visited@[cell_index(img, x, y)] == old_vis[cell_index(img, x, y)]);
            } else {
                lemma_cell_index_injective(img, x, y, sxi, syi);
            }
        }
        assert forall|x: int, y: int, t: int|
            in_image(img, x, y) && 0 <= t < 4 && done(img, visited@, old_vis, stack@, x, y) && #[trigger] joins(img, x, y, t)
            implies #[trigger] visited@[cell_index(img, nbr_x(x, t), nbr_y(y, t))] by {
            lemma_cell_index_bounds(img, x, y);
            if cell_index(img, x, y) == seed_idx {
                lemma_cell_index_injective(img, x, y, sxi, syi);
                assert(stack@[0] == (x as u32, y as u32));
            }
        }
        assert forall|i: int| 0 <= i < n && visited@[i] && !old_vis[i] implies #[trigger] marked.contains(i) by {
            if i != seed_idx {
                assert(visited@[i] == old_vis[i]);
            }
        }
        assert forall|x: int, y: int| in_image(img, x, y) && #[trigger] old_vis[cell_index(img, x, y)] implies visited@[cell_index(img, x, y)] by {
            lemma_cell_index_bounds(img, x, y);
        }
        assert forall|k: u64| #[trigger] edges@.contains(k) <==> (boundary_key(img, k as int) && done(img, visited@, old_vis, stack@, key_cell_x(img, k as int), key_cell_y(img, k as int))) by {
            let cx = key_cell_x(img, k as int);
            let cy = key_cell_y(img, k as int);
            if boundary_key(img, k as int) && fresh(img, visited@, old_vis, cx, cy) {
                lemma_cell_index_bounds(img, cx, cy);
                if cell_index(img, cx, cy) != seed_idx {
                    assert(visited@[cell_index(img, cx, cy)] == old_vis[cell_index(img, cx, cy)]);
                } else {
                    lemma_cell_index_injective(img, cx, cy, sxi, syi);
                    assert(stack@[0] == (cx as u32, cy as u32));
                }
            }
        }
    }
    while stack.len() > 0
        invariant
            data@ == img.spec_data(),
            data@.len() == width(img) * height(img) * 4,
            fits_u32(img),
            n == width(img) * height(img),
            in_image(img, sxi, syi),
            channel(img, sxi, syi, 3) != 0,
            closed_visited(img, old_vis),
            old_vis.len() == n,
            visited@.len() == n,
            fresh(img, visited@, old_vis, sxi, syi),
            marked.finite(),
            forall|i: int| #[trigger] marked.contains(i) ==> 0 <= i < n && visited@[i] && !old_vis[i],
            forall|i: int| 0 <= i < n && visited@[i] && !old_vis[i] ==> #[trigger] marked.contains(i),
            forall|x: int, y: int|
                in_image(img, x, y) && #[trigger] old_vis[cell_index(img, x, y)] ==> visited@[cell_index(img, x, y)],
            forall|j: int|
                0 <= j < stack@.len() ==> in_image(img, #[trigger] stack@[j].0 as int, stack@[j].1 as int)
                    && fresh(img, visited@, old_vis, stack@[j].0 as int, stack@[j].1 as int),
            stack@.no_duplicates(),
            forall|x: int, y: int|
                in_image(img, x, y) && #[trigger] visited@[cell_index(img, x, y)] && !old_vis[cell_index(img, x, y)]
                    ==> connected(img, sxi, syi, x, y),
            forall|x: int, y: int, t: int|
                in_image(img, x, y) && 0 <= t < 4 && done(img, visited@, old_vis, stack@, x, y) && #[trigger] joins(img, x, y, t)
                    ==> #[trigger] visited@[cell_index(img, nbr_x(x, t), nbr_y(y, t))],
            forall|k: u64| #[trigger] edges@.contains(k) <==> (boundary_key(img, k as int) && done(img, visited@, old_vis, stack@, key_cell_x(img, k as int), key_cell_y(img, k as int))),
            edges@.no_duplicates(),
        decreases n - marked.len(), stack@.len(),
    {
        proof {
            vstd::set_lib::lemma_int_range(0, n);
            vstd::set_lib::lemma_len_subset(marked, vstd::set_lib::set_int_range(0, n));
        }
        let ghost stack0 = stack@;
        let here = stack.pop().unwrap();
        let hx = here.0;
        let hy = here.1;
        let ghost hxi = hx as int;
        let ghost hyi = hy as int;
        proof {
            assert(stack0[stack0.len() - 1] == here);
            assert(in_image(img, stack0[stack0.len() - 1].0 as int, stack0[stack0.len() - 1].1 as int));
            assert(stack@ =~= stack0.drop_last());
            assert(!stack@.contains(here)) by {
                if stack@.contains(here) {
                    let j = choose|j: int| 0 <= j < stack@.len() && stack@[j] == here;
                    assert(stack0[j] == stack0[stack0.len() - 1]);
                }
            }
            assert(visited@[cell_index(img, hxi, hyi)]);
        }
        let here_color = color_at(img, data, hx, hy);
        let ghost marked0 = marked;
        let ghost popped_len = stack@.len();
        proof {
            assert(stack0 =~= stack@.push(here));
            assert forall|x: int, y: int| in_image(img, x, y) && (x != hxi || y != hyi) implies
                (#[trigger] stack@.contains((x as u32, y as u32)) <==> stack0.contains((x as u32, y as u32))) by {
                if stack0.contains((x as u32, y as u32)) {
                    let j = choose|j: int| 0 <= j < stack0.len() && stack0[j] == (x as u32, y as u32);
                    if j == stack0.len() - 1 {
                        assert(false);
                    } else {
                        assert(stack@[j] == (x as u32, y as u32));
                    }
                }
                if stack@.contains((x as u32, y as u32)) {
                    let j = choose|j: int| 0 <= j < stack@.len() && stack@[j] == (x as u32, y as u32);
                    assert(stack0[j] == (x as u32, y as u32));
                }
            }
            assert(stack0.contains(here)) by {
                assert(stack0[stack0.len() - 1] == here);
            }
            assert forall|k: u64| #[trigger] edges@.contains(k) <==> (boundary_key(img, k as int) && (
                    (done(img, visited@, old_vis, stack@, key_cell_x(img, k as int), key_cell_y(img, k as int))
                        && (key_cell_x(img, k as int) != hxi || key_cell_y(img, k as int) != hyi))
                    || (key_cell_x(img, k as int) == hxi && key_cell_y(img, k as int) == hyi && key_side(k as int) < 0))) by {
                let cx = key_cell_x(img, k as int);
                let cy = key_cell_y(img, k as int);
                if edges@.contains(k) {
                    assert(done(img, visited@, old_vis, stack0, cx, cy));
                    if cx == hxi && cy == hyi {
                        assert(false);
                    }
                }
            }
            assert forall|x: int, y: int, s: int|
                in_image(img, x, y) && 0 <= s < 4 && done(img, visited@, old_vis, stack@, x, y) && (x != hxi || y != hyi) && #[trigger] joins(img, x, y, s)
                    implies #[trigger] visited@[cell_index(img, nbr_x(x, s), nbr_y(y, s))] by {
                assert(done(img, visited@, old_vis, stack0, x, y));
            }
        }
        let mut t: u32 = 0;
        while t < 4
            invariant
                data@ == img.spec_data(),
                data@.len() == width(img) * height(img) * 4,
                fits_u32(img),
                n == width(img) * height(img),
                in_image(img, sxi, syi),
                channel(img, sxi, syi, 3) != 0,
                closed_visited(img, old_vis),
                old_vis.len() == n,
                visited@.len() == n,
                fresh(img, visited@, old_vis, sxi, syi),
                marked.finite(),
                marked0.subset_of(marked),
                marked0.len() <= marked.len(),
                marked.len() == marked0.len() || n - marked.len() < n - marked0.len(),
                forall|i: int| #[trigger] marked.contains(i) ==> 0 <= i < n && visited@[i] && !old_vis[i],
                forall|i: int| 0 <= i < n && visited@[i] && !old_vis[i] ==> #[trigger] marked.contains(i),
                forall|x: int, y: int|
                    in_image(img, x, y) && #[trigger] old_vis[cell_index(img, x, y)] ==> visited@[cell_index(img, x, y)],
                forall|j: int|
                    0 <= j < stack@.len() ==> in_image(img, #[trigger] stack@[j].0 as int, stack@[j].1 as int)
                        && fresh(img, visited@, old_vis, stack@[j].0 as int, stack@[j].1 as int),
                stack@.no_duplicates(),
                forall|x: int, y: int|
                    in_image(img, x, y) && #[trigger] visited@[cell_index(img, x, y)] && !old_vis[cell_index(img, x, y)]
                        ==> connected(img, sxi, syi, x, y),
                in_image(img, hxi, hyi),
                hx as int == hxi && hy as int == hyi,
                fresh(img, visited@, old_vis, hxi, hyi),
                !stack@.contains((hx, hy)),
                here_color as int == pixel_color(img, hxi, hyi),
                t <= 4,
                stack@.len() == popped_len + (marked.len() - marked0.len()),
                popped_len + 1 == stack0.len(),
                forall|x: int, y: int, s: int|
                    in_image(img, x, y) && 0 <= s < 4 && done(img, visited@, old_vis, stack@, x, y) && (x != hxi || y != hyi) && #[trigger] joins(img, x, y, s)
                        ==> #[trigger] visited@[cell_index(img, nbr_x(x, s), nbr_y(y, s))],
                forall|s: int| 0 <= s < t && #[trigger] joins(img, hxi, hyi, s) ==> visited@[cell_index(img, nbr_x(hxi, s), nbr_y(hyi, s))],
                forall|k: u64| #[trigger] edges@.contains(k) <==> (boundary_key(img, k as int) && (
                    (done(img, visited@, old_vis, stack@, key_cell_x(img, k as int), key_cell_y(img, k as int))
                        && (key_cell_x(img, k as int) != hxi || key_cell_y(img, k as int) != hyi))
                    || (key_cell_x(img, k as int) == hxi && key_cell_y(img, k as int) == hyi && key_side(k as int) < t))),
                edges@.no_duplicates(),
            decreases 4 - t,
        {
            let ghost vis_b = visited@;
            let ghost st_b = stack@;
            let ghost e_b = edges@;
            let nb = neighbor(img, hx, hy, t);
            let k = edge_key_exec(img, hx, hy, t);
            let mut boundary = true;
            if nb.0 {
                let nx = nb.1;
                let ny = nb.2;
                let nc = color_at(img, data, nx, ny);
                if nc == here_color {
                    boundary = false;
                    proof {
                        lemma_cell_index_bounds(img, nx as int, ny as int);
                    }
                    let ni: usize = (ny as usize) * (img.width() as usize) + (nx as usize);
                    if !visited[ni] {
                        let ghost vis0 = visited@;
                        let ghost st0 = stack@;
                        visited[ni] = true;
                        stack.push((nx, ny));
                        proof {
                            let nxi = nx as int;
                            let nyi = ny as int;
                            lemma_connected_step(img, sxi, syi, hxi, hyi, (nxi, nyi));
                            assert(!marked.contains(ni as int));
                            marked = marked.insert(ni as int);
                            assert(stack@ =~= st0.push((nx, ny)));
                            assert(!st0.contains((nx, ny))) by {
                                if st0.contains((nx, ny)) {
                                    let j = choose|j: int| 0 <= j < st0.len() && st0[j] == (nx, ny);
                                    assert(fresh(img, vis0, old_vis, st0[j].0 as int, st0[j].1 as int));
                                }
                            }
                            assert forall|x: int, y: int| in_image(img, x, y) implies
                                (#[trigger] visited@[cell_index(img, x, y)] <==> (vis0[cell_index(img, x, y)] || (x == nxi && y == nyi))) by {
                                lemma_cell_index_bounds(img, x, y);
                                if cell_index(img, x, y) == ni {
                                    lemma_cell_index_injective(img, x, y, nxi, nyi);
                                }
                            }
                            assert forall|x: int, y: int| in_image(img, x, y) && (x != nxi || y != nyi) implies
                                (#[trigger] stack@.contains((x as u32, y as u32)) <==> st0.contains((x as u32, y as u32))) by {
                                if stack@.contains((x as u32, y as u32)) {
                                    let j = choose|j: int| 0 <= j < stack@.len() && stack@[j] == (x as u32, y as u32);
                                    if j < st0.len() {
                                        assert(st0[j] == (x as u32, y as u32));
                                    }
                                }
                                if st0.contains((x as u32, y as u32)) {
                                    let j = choose|j: int| 0 <= j < st0.len() && st0[j] == (x as u32, y as u32);
                                    assert(stack@[j] == (x as u32, y as u32));
                                }
                            }
                            assert(stack@.contains((nx, ny))) by {
                                assert(stack@[stack@.len() - 1] == (nx, ny));
                            }
                            assert forall|j: int| 0 <= j < stack@.len() implies in_image(img, #[trigger] stack@[j].0 as int, stack@[j].1 as int)
                                && fresh(img, visited@, old_vis, stack@[j].0 as int, stack@[j].1 as int) by {
                                if j < st0.len() {
                                    assert(st0[j] == stack@[j]);
                                    lemma_cell_index_bounds(img, stack@[j].0 as int, stack@[j].1 as int);
                                }
                            }
                        }
                    }
                }
            }
            proof {
                assert(boundary <==> !joins(img, hxi, hyi, t as int));
                assert forall|x: int, y: int| in_image(img, x, y) implies
                    (done(img, visited@, old_vis, stack@, x, y) <==> #[trigger] done(img, vis_b, old_vis, st_b, x, y)) by {
                }
            }
            if boundary {
                let ghost e0 = edges@;
                proof {
                    lemma_edge_key_decode(img, hxi, hyi, t as int);
                    assert(!e0.contains(k));
                }
                edges.push(k);
                proof {
                    assert(edges@ =~= e0.push(k));
                    assert forall|q: u64| #[trigger] edges@.contains(q) <==> (e0.contains(q) || q == k) by {
                        if edges@.contains(q) {
                            let j = choose|j: int| 0 <= j < edges@.len() && edges@[j] == q;
                            if j < e0.len() {
                                assert(e0[j] == q);
                            }
                        }
                        if e0.contains(q) {
                            let j = choose|j: int| 0 <= j < e0.len() && e0[j] == q;
                            assert(edges@[j] == q);
                        }
                        if q == k {
                            assert(edges@[edges@.len() - 1] == q);
                        }
                    }
                }
            }
            proof {
                lemma_edge_key_decode(img, hxi, hyi, t as int);
                assert forall|q: u64| #[trigger] edges@.contains(q) <==> (e_b.contains(q) || (boundary && q == k)) by {
                }
                assert forall|q: u64| #[trigger] edges@.contains(q) <==> (boundary_key(img, q as int) && (
                    (done(img, visited@, old_vis, stack@, key_cell_x(img, q as int), key_cell_y(img, q as int))
                        && (key_cell_x(img, q as int) != hxi || key_cell_y(img, q as int) != hyi))
                    || (key_cell_x(img, q as int) == hxi && key_cell_y(img, q as int) == hyi && key_side(q as int) < t + 1))) by {
                    let cx = key_cell_x(img, q as int);
                    let cy = key_cell_y(img, q as int);
                    if q != k && boundary_key(img, q as int) {
                        lemma_edge_key_encode(img, q as int);
                        assert(done(img, visited@, old_vis, stack@, cx, cy) <==> done(img, vis_b, old_vis, st_b, cx, cy));
                    }
                }
            }
            t = t + 1;
        }
        proof {
            assert forall|x: int, y: int, s: int|
                in_image(img, x, y) && 0 <= s < 4 && done(img, visited@, old_vis, stack@, x, y) && #[trigger] joins(img, x, y, s)
                    implies #[trigger] visited@[cell_index(img, nbr_x(x, s), nbr_y(y, s))] by {
                if x == hxi && y == hyi {
                    assert(joins(img, hxi, hyi, s));
                }
            }
            assert forall|k: u64| #[trigger] edges@.contains(k) <==> (boundary_key(img, k as int) && done(img, visited@, old_vis, stack@, key_cell_x(img, k as int), key_cell_y(img, k as int))) by {
                let r = k as int % 4;
                assert(key_side(k as int) < 4);
            }
            vstd::set_lib::lemma_int_range(0, n);
            vstd::set_lib::lemma_len_subset(marked, vstd::set_lib::set_int_range(0, n));
        }
    }
    proof {
        assert forall|x: int, y: int| in_image(img, x, y) implies (#[trigger] visited@[cell_index(img, x, y)] <==> (old_vis[cell_index(img, x, y)] || connected(img, sxi, syi, x, y))) by {
            if connected(img, sxi, syi, x, y) {
                let p = choose|p: Seq<(int, int)>| #[trigger] is_color_path(img, p) && p[0] == (sxi, syi) && p.last() == (x, y);
                lemma_flood_complete(img, old_vis, visited@, sxi, syi, p, p.len() - 1);
            }
        }
        assert forall|x: int, y: int, t: int|
            #![trigger visited@[cell_index(img, x, y)], joins(img, x, y, t)]
            in_image(img, x, y) && 0 <= t < 4 && visited@[cell_index(img, x, y)] && channel(img, x, y, 3)
                != 0 && joins(img, x, y, t) implies visited@[cell_index(img, nbr_x(x, t), nbr_y(y, t))] by {
            if old_vis[cell_index(img, x, y)] {
                assert(old_vis[cell_index(img, nbr_x(x, t), nbr_y(y, t))]);
            }
        }
        assert forall|k: u64| #[trigger] edges@.contains(k) <==> region_edge(img, sxi, syi, k as int) by {
            if boundary_key(img, k as int) {
                let cx = key_cell_x(img, k as int);
                let cy = key_cell_y(img, k as int);
                assert(visited@[cell_index(img, cx, cy)] <==> (old_vis[cell_index(img, cx, cy)] || connected(img, sxi, syi, cx, cy)));
                if connected(img, sxi, syi, cx, cy) {
                    let p = choose|p: Seq<(int, int)>| #[trigger] is_color_path(img, p) && p[0] == (sxi, syi) && p.last() == (cx, cy);
                    lemma_flood_complete(img, old_vis, visited@, sxi, syi, p, p.len() - 1);
                }
            }
        }
    }
    edges
}

} // verus!

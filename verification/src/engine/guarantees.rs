//! What the pixel-exact engine guarantees of its output as a whole: it
//! draws with right angles only, and every non-transparent color of the
//! image gets path data.
use vstd::prelude::*;
use crate::image::RgbaImage;
use crate::engine::emit::{lemma_emit_rectilinear, rectilinear};
use crate::engine::pixel_exact::{
    color_paths, earlier_connected, is_region_seed, region_edge_set, region_pieces, scan_state,
};
use crate::engine::region::{
    boundary_key, cell_index, channel, connected, edge_key, edge_rank, edge_start_x, edge_start_y,
    fits_u32, height, in_image, joins, key_cell_x, key_cell_y, key_side, lemma_cell_index_bounds,
    lemma_color_alpha, lemma_connected_color, lemma_connected_refl, lemma_connected_step,
    lemma_connected_symm, lemma_connected_trans, lemma_edge_key_decode, lemma_edge_key_encode,
    pixel_color, region_edge, width,
};
use crate::engine::sort::{sorted_elements, strictly_sorted};
use vstd::arithmetic::div_mod::lemma_fundamental_div_mod_converse;

verus! {

proof fn lemma_scan_state_rectilinear(img: &RgbaImage, m: nat)
    ensures
        forall|k: u64| #[trigger] scan_state(img, m).contains_key(k) ==> rectilinear(scan_state(img, m)[k].0),
    decreases m,
{
    if m > 0 {
        lemma_scan_state_rectilinear(img, (m - 1) as nat);
        let prev = scan_state(img, (m - 1) as nat);
        let c = m - 1;
        let x = c % width(img);
        let y = c / width(img);
        if is_region_seed(img, x, y) && sorted_elements(region_edge_set(img, x, y)).len() > 0 {
            let key = pixel_color(img, x, y) as u64;
            let entry = if prev.contains_key(key) {
                prev[key]
            } else {
                (Seq::<char>::empty(), (0int, 0int))
            };
            assert(rectilinear(entry.0));
            lemma_emit_rectilinear(entry.0, entry.1, region_pieces(img, x, y));
        }
    }
}

/// The pixel-exact engine draws with right angles only: the path data of
/// every color holds moves, horizontal and vertical lines, closes and
/// numbers, and no curve command.
pub proof fn law_path_data_rectilinear(img: &RgbaImage)
    ensures
        forall|k: u64| #[trigger] color_paths(img).contains_key(k) ==> rectilinear(color_paths(img)[k].0),
{
    lemma_scan_state_rectilinear(img, (width(img) * height(img)) as nat);
}

/// The colors, as keys, of the image's non-transparent pixels.
pub open spec fn opaque_colors(img: &RgbaImage) -> Set<u64> {
    Set::new(
        |k: u64|
            exists|x: int, y: int|
                in_image(img, x, y) && channel(img, x, y, 3) != 0 && k as int == #[trigger] pixel_color(img, x, y),
    )
}

proof fn lemma_scan_keys_opaque(img: &RgbaImage, m: nat)
    ensures
        forall|k: u64| #[trigger] scan_state(img, m).contains_key(k) ==> opaque_colors(img).contains(k),
    decreases m,
{
    if m > 0 {
        lemma_scan_keys_opaque(img, (m - 1) as nat);
        let prev = scan_state(img, (m - 1) as nat);
        let c = m - 1;
        let x = c % width(img);
        let y = c / width(img);
        if is_region_seed(img, x, y) && sorted_elements(region_edge_set(img, x, y)).len() > 0 {
            let key = pixel_color(img, x, y) as u64;
            assert(0 <= pixel_color(img, x, y) < 0x1_0000_0000);
            assert(key as int == pixel_color(img, x, y));
            assert(opaque_colors(img).contains(key));
            assert forall|k: u64| #[trigger] scan_state(img, m).contains_key(k) implies opaque_colors(img).contains(k) by {
                if k != key {
                    assert(prev.contains_key(k));
                }
            }
        }
    }
}

proof fn lemma_scan_keys_persist(img: &RgbaImage, m1: nat, m2: nat)
    requires
        m1 <= m2,
    ensures
        forall|k: u64| #[trigger] scan_state(img, m1).contains_key(k) ==> scan_state(img, m2).contains_key(k),
    decreases m2,
{
    if m1 < m2 {
        lemma_scan_keys_persist(img, m1, (m2 - 1) as nat);
    }
}

/// The pixel of least row-major index, below `m`, in the region of `(px, py)`.
pub proof fn lemma_least_connected(img: &RgbaImage, px: int, py: int, m: int) -> (s: (int, int))
    requires
        earlier_connected(img, px, py, m),
    ensures
        in_image(img, s.0, s.1),
        cell_index(img, s.0, s.1) < m,
        connected(img, s.0, s.1, px, py),
        !earlier_connected(img, px, py, cell_index(img, s.0, s.1)),
    decreases m,
{
    let (qx, qy) = choose|x2: int, y2: int|
        in_image(img, x2, y2) && cell_index(img, x2, y2) < m && #[trigger] connected(img, x2, y2, px, py);
    lemma_cell_index_bounds(img, qx, qy);
    if earlier_connected(img, px, py, m - 1) {
        lemma_least_connected(img, px, py, m - 1)
    } else {
        assert(cell_index(img, qx, qy) == m - 1);
        (qx, qy)
    }
}

/// Every boundary edge key lies below `(width + 1) * (height + 1) * 4`.
pub proof fn lemma_boundary_key_bound(img: &RgbaImage, k: int)
    requires
        boundary_key(img, k),
    ensures
        k < (width(img) + 1) * (height(img) + 1) * 4,
{
    lemma_edge_key_encode(img, k);
    let x = key_cell_x(img, k);
    let y = key_cell_y(img, k);
    let t = key_side(k);
    let w = width(img);
    let h = height(img);
    let sx = edge_start_x(x, t);
    let sy = edge_start_y(y, t);
    assert(sx <= w && sy <= h && 0 <= sx && 0 <= sy);
    assert((sx * (h + 1) + sy) * 4 + edge_rank(t) < (w + 1) * (h + 1) * 4) by (nonlinear_arith)
        requires
            0 <= sx <= w,
            0 <= sy <= h,
            0 <= edge_rank(t) <= 3,
    ;
}

/// The keys of a set below `b`, in increasing order.
pub proof fn lemma_sorted_below(set: Set<u64>, b: nat) -> (q: Seq<u64>)
    ensures
        strictly_sorted(q),
        q.to_set() == set.filter(|k: u64| (k as int) < b),
        forall|i: int| 0 <= i < q.len() ==> (q[i] as int) < b,
    decreases b,
{
    if b == 0 {
        let q = Seq::<u64>::empty();
        assert(q.to_set() =~= set.filter(|k: u64| (k as int) < b));
        q
    } else {
        let p = lemma_sorted_below(set, (b - 1) as nat);
        let below = b - 1;
        if below <= u64::MAX && set.contains(below as u64) {
            let q = p.push(below as u64);
            assert(q.to_set() =~= set.filter(|k: u64| (k as int) < b)) by {
                assert forall|k: u64| q.to_set().contains(k) implies set.filter(|k: u64| (k as int) < b).contains(k) by {
                    let i = choose|i: int| 0 <= i < q.len() && q[i] == k;
                    if i < p.len() {
                        assert(p.to_set().contains(p[i]));
                    }
                }
                assert forall|k: u64| set.filter(|k: u64| (k as int) < b).contains(k) implies q.to_set().contains(k) by {
                    if k as int == below {
                        assert(q[q.len() - 1] == k);
                    } else {
                        assert(p.to_set().contains(k));
                        let i = choose|i: int| 0 <= i < p.len() && p[i] == k;
                        assert(q[i] == k);
                    }
                }
            }
            q
        } else {
            assert(p.to_set() =~= set.filter(|k: u64| (k as int) < b)) by {
                assert forall|k: u64| set.filter(|k: u64| (k as int) < b).contains(k) implies p.to_set().contains(k) by {
                    assert(k as int != below);
                }
            }
            p
        }
    }
}

/// The seed of an opaque pixel's region: the region's first pixel in
/// row-major order. Its color's path data is written when the scan reaches it.
proof fn lemma_seed_written(img: &RgbaImage, px: int, py: int)
    requires
        fits_u32(img),
        in_image(img, px, py),
        channel(img, px, py, 3) != 0,
    ensures
        scan_state(img, (width(img) * height(img)) as nat).contains_key(pixel_color(img, px, py) as u64),
{
    let w = width(img);
    let h = height(img);
    lemma_connected_refl(img, px, py);
    lemma_cell_index_bounds(img, px, py);
    assert(earlier_connected(img, px, py, cell_index(img, px, py) + 1));
    let s = lemma_least_connected(img, px, py, cell_index(img, px, py) + 1);
    let (sx, sy) = s;
    let si = cell_index(img, sx, sy);
    lemma_cell_index_bounds(img, sx, sy);
    lemma_connected_color(img, sx, sy, px, py);
    lemma_color_alpha(img, sx, sy);
    lemma_color_alpha(img, px, py);
    // The seed starts its region.
    assert(!earlier_connected(img, sx, sy, si)) by {
        if earlier_connected(img, sx, sy, si) {
            let (qx, qy) = choose|x2: int, y2: int|
                in_image(img, x2, y2) && cell_index(img, x2, y2) < si && #[trigger] connected(img, x2, y2, sx, sy);
            lemma_connected_trans(img, qx, qy, sx, sy, px, py);
            assert(earlier_connected(img, px, py, si));
        }
    }
    assert(is_region_seed(img, sx, sy));
    // Its top side faces another color or the outside.
    let k = edge_key(img, sx, sy, 3);
    lemma_edge_key_decode(img, sx, sy, 3);
    assert(!joins(img, sx, sy, 3)) by {
        if joins(img, sx, sy, 3) {
            lemma_connected_refl(img, sx, sy);
            lemma_connected_step(img, sx, sy, sx, sy, (sx, sy - 1));
            lemma_connected_symm(img, sx, sy, sx, sy - 1);
            assert((sy - 1) * w + sx < si) by (nonlinear_arith)
                requires
                    si == sy * w + sx,
                    w > 0,
            ;
            assert(earlier_connected(img, sx, sy, si));
        }
    }
    lemma_connected_refl(img, sx, sy);
    assert(region_edge(img, sx, sy, k));
    assert(k < (w + 1) * (h + 1) * 4) by {
        lemma_boundary_key_bound(img, k);
    }
    assert((w + 1) * (h + 1) * 4 <= u64::MAX) by (nonlinear_arith)
        requires
            w * h * 4 <= u32::MAX,
            w >= 1,
            h >= 1,
            w <= u32::MAX,
            h <= u32::MAX,
    ;
    let set = region_edge_set(img, sx, sy);
    assert(set.contains(k as u64));
    let bound = ((w + 1) * (h + 1) * 4) as nat;
    let q = lemma_sorted_below(set, bound);
    assert(q.to_set() =~= set) by {
        assert forall|e: u64| set.contains(e) implies set.filter(|k: u64| (k as int) < bound).contains(e) by {
            lemma_boundary_key_bound(img, e as int);
        }
    }
    let sorted = sorted_elements(set);
    assert(strictly_sorted(sorted) && sorted.to_set() == set);
    assert(sorted.len() > 0) by {
        if sorted.len() == 0 {
            assert(!sorted.to_set().contains(k as u64));
        }
    }
    // The scan reaches the seed.
    lemma_fundamental_div_mod_converse(si, w, sy, sx);
    assert(scan_state(img, (si + 1) as nat).contains_key(pixel_color(img, sx, sy) as u64));
    lemma_scan_keys_persist(img, (si + 1) as nat, (w * h) as nat);
}

/// The pixel-exact engine loses no color: the colors that get path data are
/// exactly the colors of the image's non-transparent pixels.
pub proof fn law_colors_kept(img: &RgbaImage)
    requires
        fits_u32(img),
    ensures
        color_paths(img).dom() == opaque_colors(img),
{
    lemma_scan_keys_opaque(img, (width(img) * height(img)) as nat);
    assert forall|k: u64| opaque_colors(img).contains(k) implies #[trigger] color_paths(img).contains_key(k) by {
        let (x, y) = choose|x: int, y: int|
            in_image(img, x, y) && channel(img, x, y, 3) != 0 && k as int == #[trigger] pixel_color(img, x, y);
        lemma_seed_written(img, x, y);
    }
    assert(color_paths(img).dom() =~= opaque_colors(img));
}

/// The signed count of the region's boundary edges on the vertical grid line
/// `gx` in row `y`: `+1` for the right side of a region pixel left of the
/// line (it runs up), `-1` for the left side of a region pixel right of the
/// line (it runs down).
pub open spec fn line_crossing(img: &RgbaImage, sx: int, sy: int, gx: int, y: int) -> int {
    (if region_edge(img, sx, sy, edge_key(img, gx - 1, y, 2)) {
        1int
    } else {
        0int
    }) - (if region_edge(img, sx, sy, edge_key(img, gx, y, 0)) {
        1int
    } else {
        0int
    })
}

/// The signed crossings of the region's boundary edges with the horizontal
/// ray, in row `y`, over the grid lines `from..to`.
pub open spec fn ray_crossings(img: &RgbaImage, sx: int, sy: int, from: int, to: int, y: int) -> int
    decreases to - from,
{
    if from >= to {
        0
    } else {
        line_crossing(img, sx, sy, from, y) + ray_crossings(img, sx, sy, from + 1, to, y)
    }
}

/// Pixel `(x, y)` lies in the region of `(sx, sy)`, as 1 or 0.
pub open spec fn region_indicator(img: &RgbaImage, sx: int, sy: int, x: int, y: int) -> int {
    if connected(img, sx, sy, x, y) {
        1
    } else {
        0
    }
}

/// One grid line between pixels `gx - 1` and `gx` of a row crosses the
/// boundary as much as membership changes across it.
proof fn lemma_line_crossing(img: &RgbaImage, sx: int, sy: int, gx: int, y: int)
    requires
        1 <= gx <= width(img),
        0 <= y < height(img),
    ensures
        line_crossing(img, sx, sy, gx, y) == region_indicator(img, sx, sy, gx - 1, y) - region_indicator(
            img,
            sx,
            sy,
            gx,
            y,
        ),
{
    let q = (gx - 1, y);
    lemma_edge_key_decode(img, gx - 1, y, 2);
    let k1 = edge_key(img, gx - 1, y, 2);
    if connected(img, sx, sy, gx - 1, y) && joins(img, gx - 1, y, 2) {
        lemma_connected_step(img, sx, sy, gx - 1, y, (gx, y));
    }
    if gx < width(img) {
        lemma_edge_key_decode(img, gx, y, 0);
        if connected(img, sx, sy, gx, y) && joins(img, gx, y, 0) {
            lemma_connected_step(img, sx, sy, gx, y, (gx - 1, y));
        }
        if connected(img, sx, sy, gx, y) && !joins(img, gx - 1, y, 2) && connected(img, sx, sy, gx - 1, y) {
            lemma_connected_color(img, sx, sy, gx, y);
            lemma_connected_color(img, sx, sy, gx - 1, y);
        }
        if connected(img, sx, sy, gx - 1, y) && !joins(img, gx, y, 0) && connected(img, sx, sy, gx, y) {
            lemma_connected_color(img, sx, sy, gx, y);
            lemma_connected_color(img, sx, sy, gx - 1, y);
        }
    } else {
        let k2 = edge_key(img, gx, y, 0);
        if connected(img, sx, sy, gx, y) {
            lemma_connected_color(img, sx, sy, gx, y);
        }
        if boundary_key(img, k2) {
            lemma_edge_key_encode(img, k2);
            assert(k2 == edge_key(img, key_cell_x(img, k2), key_cell_y(img, k2), key_side(k2)));
            lemma_key_cell_outside(img, gx, y);
        }
    }
}

/// The left side of a pixel just right of the image names no pixel of the
/// image.
proof fn lemma_key_cell_outside(img: &RgbaImage, gx: int, y: int)
    requires
        gx == width(img),
        0 <= y < height(img),
    ensures
        !in_image(img, key_cell_x(img, edge_key(img, gx, y, 0)), key_cell_y(img, edge_key(img, gx, y, 0))),
{
    let h1 = height(img) + 1;
    let k = edge_key(img, gx, y, 0);
    let pk = gx * h1 + y;
    assert(k == pk * 4 + 2);
    lemma_fundamental_div_mod_converse(k, 4, pk, 2);
    assert(pk >= 0) by (nonlinear_arith)
        requires
            gx >= 0,
            h1 >= 1,
            y >= 0,
            pk == gx * h1 + y,
    ;
    lemma_fundamental_div_mod_converse(pk, h1, gx, y);
    assert(key_cell_x(img, k) == gx);
}

/// The crossings over lines `from..=width` add up to the membership of pixel
/// `from - 1`.
proof fn lemma_ray_telescopes(img: &RgbaImage, sx: int, sy: int, from: int, y: int)
    requires
        1 <= from <= width(img) + 1,
        0 <= y < height(img),
    ensures
        ray_crossings(img, sx, sy, from, width(img) + 1, y) == region_indicator(img, sx, sy, from - 1, y),
    decreases width(img) + 1 - from,
{
    if from <= width(img) {
        lemma_line_crossing(img, sx, sy, from, y);
        lemma_ray_telescopes(img, sx, sy, from + 1, y);
    } else {
        if connected(img, sx, sy, from - 1, y) {
            lemma_connected_color(img, sx, sy, from - 1, y);
        }
    }
}

/// The boundary edges the engine traces for a region determine the region
/// under the nonzero rule: for every pixel of the image, the signed count of
/// those edges that the horizontal ray from the pixel's center to the right
/// crosses is 1 when the pixel lies in the region and 0 otherwise.
pub proof fn law_boundary_encloses_region(img: &RgbaImage, sx: int, sy: int, x: int, y: int)
    requires
        in_image(img, x, y),
    ensures
        ray_crossings(img, sx, sy, x + 1, width(img) + 1, y) == region_indicator(img, sx, sy, x, y),
{
    lemma_ray_telescopes(img, sx, sy, x + 1, y);
}

} // verus!

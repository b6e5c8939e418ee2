//! Pixel-exact vectorization: every maximal 4-connected region of one
//! non-transparent color becomes rectilinear path data (`M`, `h`, `v`, `Z`,
//! each piece opened by an absolute `M`), gathered per color; opaque colors become `<path>` elements and
//! translucent ones are grouped by alpha under `fill-opacity`.
use vstd::prelude::*;
use crate::error::Error;
use crate::image::RgbaImage;
use crate::engine::region::{
    cell_index, channel, closed_visited, color_at, connected, fits_u32, flood_region, height,
    in_image, lemma_cell_index_bounds, lemma_cell_index_injective, lemma_color_alpha,
    lemma_connected_color, lemma_connected_refl, lemma_connected_trans,
    pixel_color, region_edge, width, nbr_x, nbr_y, joins,
};
use crate::engine::sort::{lemma_sorted_elements, sort_keys, sorted_elements, strictly_sorted};
use crate::engine::trace::{
    corner, grid_edge, lemma_boundary_grid_edge, piece_points, points, trace_pieces, trace_region,
};
use crate::text::string_of;
use vstd::arithmetic::div_mod::lemma_fundamental_div_mod_converse;
use crate::engine::color_table::{add_region, map_holds, new_table, table_rows};
use crate::engine::emit::emit_pieces;
use crate::text::{digit_char, hex2, nat_text, push_hex2, push_nat, push_str};

verus! {

/// The boundary edges of the region of `(x, y)`, as keys.
pub open spec fn region_edge_set(img: &RgbaImage, x: int, y: int) -> Set<u64> {
    Set::new(|k: u64| region_edge(img, x, y, k as int))
}

/// The pieces traced from the region of `(x, y)`: its boundary edges in
/// increasing key order, walked by `trace_pieces`.
pub open spec fn region_pieces(img: &RgbaImage, x: int, y: int) -> Seq<Seq<(int, int)>> {
    let edges = sorted_elements(region_edge_set(img, x, y));
    trace_pieces(img, edges, Seq::new(edges.len(), |j: int| false), 0)
}

/// Some pixel with row-major index below `m` lies in the region of `(x, y)`.
pub open spec fn earlier_connected(img: &RgbaImage, x: int, y: int, m: int) -> bool {
    exists|x2: int, y2: int|
        in_image(img, x2, y2) && cell_index(img, x2, y2) < m && #[trigger] connected(img, x2, y2, x, y)
}

/// `(x, y)` is the first pixel, in row-major order, of a non-transparent region.
pub open spec fn is_region_seed(img: &RgbaImage, x: int, y: int) -> bool {
    &&& in_image(img, x, y)
    &&& channel(img, x, y, 3) != 0
    &&& !earlier_connected(img, x, y, cell_index(img, x, y))
}

/// Path data and last piece start per color after the first `m` pixels in
/// row-major order: at the seed of each region, its pieces are appended to the
/// entry of its color (created empty, starting at `(0, 0)`).
pub open spec fn scan_state(img: &RgbaImage, m: nat) -> Map<u64, (Seq<char>, (int, int))>
    decreases m,
{
    if m == 0 {
        Map::empty()
    } else {
        let prev = scan_state(img, (m - 1) as nat);
        let c = m - 1;
        let x = c % width(img);
        let y = c / width(img);
        if is_region_seed(img, x, y) && sorted_elements(region_edge_set(img, x, y)).len() > 0 {
            let key = pixel_color(img, x, y) as u64;
            let entry = if prev.contains_key(key) {
                prev[key]
            } else {
                (Seq::<char>::empty(), (0int, 0int))
            };
            prev.insert(key, emit_pieces(entry.0, entry.1, region_pieces(img, x, y)))
        } else {
            prev
        }
    }
}

/// Path data per color for the whole image.
pub open spec fn color_paths(img: &RgbaImage) -> Map<u64, (Seq<char>, (int, int))> {
    scan_state(img, (width(img) * height(img)) as nat)
}

/// A `<path>` element filled with the color of `key` (`#rrggbb`).
pub open spec fn path_element(key: u64, data: Seq<char>) -> Seq<char> {
    "<path fill=\"#"@ + hex2((key / 16777216) as u8) + hex2(((key / 65536) % 256) as u8) + hex2(
        ((key / 256) % 256) as u8,
    ) + "\" d=\""@ + data + "\"/>"@
}

/// The `<path>` elements of the keys (in order) whose alpha is `a`.
pub open spec fn alpha_paths(entries: Map<u64, (Seq<char>, (int, int))>, keys: Seq<u64>, a: int) -> Seq<char>
    decreases keys.len(),
{
    if keys.len() == 0 {
        seq![]
    } else {
        let k = keys.last();
        alpha_paths(entries, keys.drop_last(), a) + if k % 256 == a {
            path_element(k, entries[k].0)
        } else {
            seq![]
        }
    }
}

/// `{:.3}` of `a / 255`: the nearest thousandth (never a tie).
pub open spec fn opacity_text(a: int) -> Seq<char> {
    let n = (a * 2000 + 255) / 510;
    if n >= 1000 {
        "1.000"@
    } else {
        seq!['0', '.', digit_char(n / 100), digit_char((n / 10) % 10), digit_char(n % 10)]
    }
}

/// The group of translucent paths with alpha `a`, if any key has that alpha.
pub open spec fn alpha_group(entries: Map<u64, (Seq<char>, (int, int))>, keys: Seq<u64>, a: int) -> Seq<char> {
    if exists|i: int| 0 <= i < keys.len() && keys[i] % 256 == a {
        "<g fill-opacity=\""@ + opacity_text(a) + "\">"@ + alpha_paths(entries, keys, a) + "</g>"@
    } else {
        seq![]
    }
}

/// The groups for alphas `0..n`, in increasing alpha.
pub open spec fn alpha_groups(entries: Map<u64, (Seq<char>, (int, int))>, keys: Seq<u64>, n: int) -> Seq<char>
    decreases n,
{
    if n <= 0 {
        seq![]
    } else {
        alpha_groups(entries, keys, n - 1) + alpha_group(entries, keys, n - 1)
    }
}

/// The opening `<svg>` tag.
pub open spec fn svg_header(w: nat, h: nat) -> Seq<char> {
    "<svg width=\""@ + nat_text(w) + "\" height=\""@ + nat_text(h)
        + "\" xmlns=\"http://www.w3.org/2000/svg\">"@
}

/// The SVG document of the pixel-exact engine: the header, the opaque colors
/// in increasing color order, the translucent colors grouped by increasing
/// alpha, and the closing tag.
pub open spec fn pixel_exact_svg(img: &RgbaImage) -> Seq<char> {
    let entries = color_paths(img);
    let keys = sorted_elements(entries.dom());
    svg_header(width(img) as nat, height(img) as nat) + alpha_paths(entries, keys, 255) + alpha_groups(
        entries,
        keys,
        255,
    ) + "</svg>\n"@
}

/// Pieces as sequences of mathematical points.
pub open spec fn pieces_view(v: Seq<Vec<(i64, i64)>>) -> Seq<Seq<(int, int)>> {
    v.map_values(|w: Vec<(i64, i64)>| w@.map_values(|p: (i64, i64)| (p.0 as int, p.1 as int)))
}

/// The three parallel vectors hold, in increasing key order, the entries of `m`.
pub open spec fn table_holds(
    keys: Seq<u64>,
    data: Seq<Vec<char>>,
    starts: Seq<(i64, i64)>,
    m: Map<u64, (Seq<char>, (int, int))>,
) -> bool {
    &&& keys.len() == data.len()
    &&& keys.len() == starts.len()
    &&& strictly_sorted(keys)
    &&& forall|i: int|
        0 <= i < keys.len() ==> #[trigger] m.contains_key(keys[i]) && m[keys[i]] == (
            data[i]@,
            (starts[i].0 as int, starts[i].1 as int),
        ) && 0 <= starts[i].0 <= 0x1_0000_0000 && 0 <= starts[i].1 <= 0x1_0000_0000
    &&& forall|k: u64| #[trigger] m.contains_key(k) ==> keys.contains(k)
}

/// The entry of `key` in `m`, or an empty one starting at the origin.
pub open spec fn entry_or_default(m: Map<u64, (Seq<char>, (int, int))>, key: u64) -> (Seq<char>, (int, int)) {
    if m.contains_key(key) {
        m[key]
    } else {
        (Seq::<char>::empty(), (0int, 0int))
    }
}

/// Appends a `<path>` element for `key` with the given path data.
fn push_path_element(out: &mut Vec<char>, key: u64, data: &Vec<char>)
    ensures
        final(out)@ == old(out)@ + path_element(key, data@),
{
    let ghost o0 = out@;
    push_str(out, "<path fill=\"#");
    push_hex2(out, (key / 16777216) as u8);
    push_hex2(out, ((key / 65536) % 256) as u8);
    push_hex2(out, ((key / 256) % 256) as u8);
    push_str(out, "\" d=\"");
    let mut i: usize = 0;
    let ghost o1 = out@;
    while i < data.len()
        invariant
            i <= data@.len(),
            out@ == o1 + data@.take(i as int),
        decreases data@.len() - i,
    {
        out.push(data[i]);
        proof {
            assert(data@.take(i + 1) =~= data@.take(i as int).push(data@[i as int]));
        }
        i = i + 1;
    }
    proof {
        assert(data@.take(data@.len() as int) =~= data@);
    }
    push_str(out, "\"/>");
    proof {
        assert(out@ =~= o0 + path_element(key, data@));
    }
}

/// Appends the `<path>` elements of the entries whose alpha is `a`.
fn push_alpha_paths(
    out: &mut Vec<char>,
    keys: &Vec<u64>,
    data: &Vec<Vec<char>>,
    starts: &Vec<(i64, i64)>,
    a: u64,
    Ghost(m): Ghost<Map<u64, (Seq<char>, (int, int))>>,
)
    requires
        table_holds(keys@, data@, starts@, m),
    ensures
        final(out)@ == old(out)@ + alpha_paths(m, keys@, a as int),
{
    let ghost o0 = out@;
    let mut i: usize = 0;
    while i < keys.len()
        invariant
            table_holds(keys@, data@, starts@, m),
            i <= keys@.len(),
            out@ == o0 + alpha_paths(m, keys@.take(i as int), a as int),
        decreases keys@.len() - i,
    {
        let ghost before = out@;
        let k = keys[i];
        proof {
            assert(keys@.take(i + 1).drop_last() =~= keys@.take(i as int));
            assert(keys@.take(i + 1).last() == k);
            assert(m.contains_key(keys@[i as int]));
        }
        if k % 256 == a {
            push_path_element(out, k, &data[i]);
        }
        proof {
            assert(out@ =~= o0 + alpha_paths(m, keys@.take(i + 1), a as int));
        }
        i = i + 1;
    }
    proof {
        assert(keys@.take(keys@.len() as int) =~= keys@);
    }
}

/// Appends `opacity_text(a)`.
fn push_opacity(out: &mut Vec<char>, a: u64)
    requires
        a < 256,
    ensures
        final(out)@ == old(out)@ + opacity_text(a as int),
{
    let n: u64 = (a * 2000 + 255) / 510;
    if n >= 1000 {
        push_str(out, "1.000");
    } else {
        let ghost o0 = out@;
        out.push('0');
        out.push('.');
        out.push(((48 + n / 100) as u8) as char);
        out.push(((48 + (n / 10) % 10) as u8) as char);
        out.push(((48 + n % 10) as u8) as char);
        proof {
            assert(out@ =~= o0 + opacity_text(a as int));
        }
    }
}

/// The document of `pixel_exact_svg` from a table holding the color entries.
fn render_document(
    w: u32,
    h: u32,
    keys: &Vec<u64>,
    data: &Vec<Vec<char>>,
    starts: &Vec<(i64, i64)>,
    Ghost(m): Ghost<Map<u64, (Seq<char>, (int, int))>>,
) -> (out: Vec<char>)
    requires
        table_holds(keys@, data@, starts@, m),
    ensures
        out@ == svg_header(w as nat, h as nat) + alpha_paths(m, keys@, 255) + alpha_groups(m, keys@, 255)
            + "</svg>\n"@,
{
    let mut out: Vec<char> = Vec::new();
    push_str(&mut out, "<svg width=\"");
    push_nat(&mut out, w as u64);
    push_str(&mut out, "\" height=\"");
    push_nat(&mut out, h as u64);
    push_str(&mut out, "\" xmlns=\"http://www.w3.org/2000/svg\">");
    let ghost head = out@;
    proof {
        assert(head =~= svg_header(w as nat, h as nat));
    }
    push_alpha_paths(&mut out, keys, data, starts, 255, Ghost(m));
    let ghost body = out@;
    let mut a: u64 = 0;
    while a < 255
        invariant
            table_holds(keys@, data@, starts@, m),
            a <= 255,
            out@ == body + alpha_groups(m, keys@, a as int),
        decreases 255 - a,
    {
        let ghost before = out@;
        let mut any = false;
        let mut i: usize = 0;
        while i < keys.len()
            invariant
                i <= keys@.len(),
                any <==> exists|j: int| 0 <= j < i && keys@[j] % 256 == a,
            decreases keys@.len() - i,
        {
            if keys[i] % 256 == a {
                any = true;
            }
            i = i + 1;
        }
        if any {
            push_str(&mut out, "<g fill-opacity=\"");
            push_opacity(&mut out, a);
            push_str(&mut out, "\">");
            push_alpha_paths(&mut out, keys, data, starts, a, Ghost(m));
            push_str(&mut out, "</g>");
        }
        proof {
            assert(out@ =~= before + alpha_group(m, keys@, a as int));
        }
        a = a + 1;
    }
    push_str(&mut out, "</svg>\n");
    out
}

/// Which pixels have been visited after the first `m` in row-major order: the
/// pixels before `m` and the regions of the non-transparent ones.
pub open spec fn visited_after(img: &RgbaImage, vis: Seq<bool>, m: int) -> bool {
    forall|x: int, y: int|
        in_image(img, x, y) ==> (#[trigger] vis[cell_index(img, x, y)] <==> (cell_index(img, x, y) < m || (
        channel(img, x, y, 3) != 0 && earlier_connected(img, x, y, m))))
}

/// A pixel already visited when the scan reaches it is no region seed.
proof fn lemma_scan_visited(img: &RgbaImage, vis: Seq<bool>, m: int, x: int, y: int)
    requires
        in_image(img, x, y),
        m == cell_index(img, x, y),
        x == m % width(img),
        y == m / width(img),
        vis.len() == width(img) * height(img),
        visited_after(img, vis, m),
        vis[m],
    ensures
        visited_after(img, vis, m + 1),
        !is_region_seed(img, x, y),
        scan_state(img, (m + 1) as nat) == scan_state(img, m as nat),
{
    assert(vis[cell_index(img, x, y)]);
    assert forall|a: int, b: int| in_image(img, a, b) implies (#[trigger] vis[cell_index(img, a, b)] <==> (cell_index(img, a, b) < m + 1 || (
        channel(img, a, b, 3) != 0 && earlier_connected(img, a, b, m + 1)))) by {
        if channel(img, a, b, 3) != 0 && earlier_connected(img, a, b, m + 1) {
            let (a2, b2) = choose|a2: int, b2: int| in_image(img, a2, b2) && cell_index(img, a2, b2) < m + 1 && #[trigger] connected(img, a2, b2, a, b);
            if cell_index(img, a2, b2) == m {
                lemma_cell_index_injective(img, a2, b2, x, y);
                let (a3, b3) = choose|a3: int, b3: int| in_image(img, a3, b3) && cell_index(img, a3, b3) < m && #[trigger] connected(img, a3, b3, x, y);
                lemma_connected_trans(img, a3, b3, x, y, a, b);
                assert(earlier_connected(img, a, b, m));
            } else {
                assert(earlier_connected(img, a, b, m));
            }
        }
        if cell_index(img, a, b) == m {
            lemma_cell_index_injective(img, a, b, x, y);
        }
    }
}

/// A transparent pixel is marked on its own and seeds nothing.
proof fn lemma_scan_transparent(img: &RgbaImage, v0: Seq<bool>, v1: Seq<bool>, m: int, x: int, y: int)
    requires
        in_image(img, x, y),
        m == cell_index(img, x, y),
        x == m % width(img),
        y == m / width(img),
        v0.len() == width(img) * height(img),
        visited_after(img, v0, m),
        closed_visited(img, v0),
        channel(img, x, y, 3) == 0,
        v1 == v0.update(m, true),
    ensures
        visited_after(img, v1, m + 1),
        closed_visited(img, v1),
        !is_region_seed(img, x, y),
        scan_state(img, (m + 1) as nat) == scan_state(img, m as nat),
{
    lemma_cell_index_bounds(img, x, y);
    assert forall|a: int, b: int| in_image(img, a, b) implies (#[trigger] v1[cell_index(img, a, b)] <==> (cell_index(img, a, b) < m + 1 || (
        channel(img, a, b, 3) != 0 && earlier_connected(img, a, b, m + 1)))) by {
        lemma_cell_index_bounds(img, a, b);
        if cell_index(img, a, b) == m {
            lemma_cell_index_injective(img, a, b, x, y);
        }
        assert(v0[cell_index(img, a, b)] <==> (cell_index(img, a, b) < m || (
            channel(img, a, b, 3) != 0 && earlier_connected(img, a, b, m))));
        if channel(img, a, b, 3) != 0 && earlier_connected(img, a, b, m + 1) {
            let (a2, b2) = choose|a2: int, b2: int| in_image(img, a2, b2) && cell_index(img, a2, b2) < m + 1 && #[trigger] connected(img, a2, b2, a, b);
            if cell_index(img, a2, b2) == m {
                lemma_cell_index_injective(img, a2, b2, x, y);
                lemma_connected_color(img, x, y, a, b);
                lemma_color_alpha(img, x, y);
                lemma_color_alpha(img, a, b);
            } else {
                assert(earlier_connected(img, a, b, m));
            }
        }
        if channel(img, a, b, 3) != 0 && earlier_connected(img, a, b, m) {
            let (a2, b2) = choose|a2: int, b2: int| in_image(img, a2, b2) && cell_index(img, a2, b2) < m && #[trigger] connected(img, a2, b2, a, b);
            assert(earlier_connected(img, a, b, m + 1));
        }
    }
    assert forall|a: int, b: int, t: int|
        #![trigger v1[cell_index(img, a, b)], joins(img, a, b, t)]
        in_image(img, a, b) && 0 <= t < 4 && v1[cell_index(img, a, b)] && channel(img, a, b, 3)
            != 0 && joins(img, a, b, t) implies v1[cell_index(img, nbr_x(a, t), nbr_y(b, t))] by {
        lemma_cell_index_bounds(img, a, b);
        if cell_index(img, a, b) == m {
            lemma_cell_index_injective(img, a, b, x, y);
        }
        assert(v0[cell_index(img, a, b)]);
        lemma_cell_index_bounds(img, nbr_x(a, t), nbr_y(b, t));
    }
}

/// A non-transparent pixel not yet visited seeds a region, which the flood
/// marks.
proof fn lemma_scan_flooded(img: &RgbaImage, v0: Seq<bool>, v1: Seq<bool>, m: int, x: int, y: int)
    requires
        in_image(img, x, y),
        m == cell_index(img, x, y),
        v0.len() == width(img) * height(img),
        v1.len() == v0.len(),
        visited_after(img, v0, m),
        !v0[m],
        channel(img, x, y, 3) != 0,
        forall|a: int, b: int|
            in_image(img, a, b) ==> (#[trigger] v1[cell_index(img, a, b)] <==> (v0[cell_index(img, a, b)] || connected(img, x, y, a, b))),
    ensures
        visited_after(img, v1, m + 1),
        is_region_seed(img, x, y),
{
    assert(!v0[cell_index(img, x, y)]);
    assert forall|a: int, b: int| in_image(img, a, b) implies (#[trigger] v1[cell_index(img, a, b)] <==> (cell_index(img, a, b) < m + 1 || (
        channel(img, a, b, 3) != 0 && earlier_connected(img, a, b, m + 1)))) by {
        lemma_cell_index_bounds(img, a, b);
        assert(v0[cell_index(img, a, b)] <==> (cell_index(img, a, b) < m || (
            channel(img, a, b, 3) != 0 && earlier_connected(img, a, b, m))));
        if cell_index(img, a, b) == m {
            lemma_cell_index_injective(img, a, b, x, y);
            lemma_connected_refl(img, x, y);
        }
        if connected(img, x, y, a, b) {
            lemma_connected_color(img, x, y, a, b);
            lemma_color_alpha(img, x, y);
            lemma_color_alpha(img, a, b);
            assert(earlier_connected(img, a, b, m + 1));
        }
        if channel(img, a, b, 3) != 0 && earlier_connected(img, a, b, m + 1) {
            let (a2, b2) = choose|a2: int, b2: int| in_image(img, a2, b2) && cell_index(img, a2, b2) < m + 1 && #[trigger] connected(img, a2, b2, a, b);
            if cell_index(img, a2, b2) == m {
                lemma_cell_index_injective(img, a2, b2, x, y);
            } else {
                assert(earlier_connected(img, a, b, m));
            }
        }
        if channel(img, a, b, 3) != 0 && earlier_connected(img, a, b, m) {
            let (a2, b2) = choose|a2: int, b2: int| in_image(img, a2, b2) && cell_index(img, a2, b2) < m && #[trigger] connected(img, a2, b2, a, b);
            assert(earlier_connected(img, a, b, m + 1));
        }
    }
    assert(!earlier_connected(img, x, y, m)) by {
        if earlier_connected(img, x, y, m) {
            assert(v0[cell_index(img, x, y)]);
        }
    }
}

/// Vectorizes an image with the pixel-exact engine: one `<path>` per color
/// (see `pixel_exact_svg`). It does not fail.
pub fn vectorize(img: &RgbaImage) -> (r: Result<String, Error>)
    requires
        fits_u32(img),
    ensures
        r matches Ok(svg) && svg@ == pixel_exact_svg(img),
{
    let w = img.width();
    let h = img.height();
    let data_in = img.as_raw();
    let total: usize = (w as usize) * (h as usize);
    let ghost n = width(img) * height(img);
    let mut visited: Vec<bool> = Vec::new();
    let mut z: usize = 0;
    while z < total
        invariant
            z <= total,
            total == n,
            visited@ == Seq::new(z as nat, |j: int| false),
        decreases total - z,
    {
        visited.push(false);
        proof {
            assert(visited@ =~= Seq::new((z + 1) as nat, |j: int| false));
        }
        z = z + 1;
    }
    let mut table = new_table();
    proof {
        assert(scan_state(img, 0) =~= Map::empty());
        assert forall|x: int, y: int| in_image(img, x, y) implies (#[trigger] visited@[cell_index(img, x, y)] <==> (cell_index(img, x, y) < 0 || (
            channel(img, x, y, 3) != 0 && earlier_connected(img, x, y, 0)))) by {
            lemma_cell_index_bounds(img, x, y);
            if earlier_connected(img, x, y, 0) {
                let (x2, y2) = choose|x2: int, y2: int| in_image(img, x2, y2) && cell_index(img, x2, y2) < 0 && #[trigger] connected(img, x2, y2, x, y);
                lemma_cell_index_bounds(img, x2, y2);
            }
        }
    }
    let mut idx: usize = 0;
    let mut y: u32 = 0;
    while y < h
        invariant
            data_in@ == img.spec_data(),
            data_in@.len() == width(img) * height(img) * 4,
            fits_u32(img),
            w as int == width(img),
            h as int == height(img),
            total == n,
            n == width(img) * height(img),
            y <= h,
            idx == y * w,
            visited@.len() == n,
            closed_visited(img, visited@),
            visited_after(img, visited@, idx as int),
            map_holds(table@, scan_state(img, idx as nat)),
        decreases h - y,
    {
        let mut x: u32 = 0;
        while x < w
            invariant
                data_in@ == img.spec_data(),
                data_in@.len() == width(img) * height(img) * 4,
                fits_u32(img),
                w as int == width(img),
                h as int == height(img),
                total == n,
                n == width(img) * height(img),
                y < h,
                x <= w,
                idx == y * w + x,
                visited@.len() == n,
                closed_visited(img, visited@),
                visited_after(img, visited@, idx as int),
                map_holds(table@, scan_state(img, idx as nat)),
            decreases w - x,
        {
            let ghost xi = x as int;
            let ghost yi = y as int;
            proof {
                lemma_cell_index_bounds(img, xi, yi);
                lemma_fundamental_div_mod_converse(idx as int, width(img), yi, xi);
            }
            let ghost m0 = scan_state(img, idx as nat);
            if visited[idx] {
                proof {
                    lemma_scan_visited(img, visited@, idx as int, xi, yi);
                }
            } else {
                let px = data_in[idx * 4 + 3];
                if px == 0 {
                    let ghost v0 = visited@;
                    visited[idx] = true;
                    proof {
                        lemma_scan_transparent(img, v0, visited@, idx as int, xi, yi);
                    }
                } else {
                    let ghost v0 = visited@;
                    let edges = flood_region(img, data_in, &mut visited, x, y);
                    proof {
                        lemma_scan_flooded(img, v0, visited@, idx as int, xi, yi);
                        assert(edges@.to_set() =~= region_edge_set(img, xi, yi));
                    }
                    let sorted = sort_keys(edges);
                    if sorted.len() > 0 {
                        proof {
                            assert forall|j: int| 0 <= j < sorted@.len() implies grid_edge(img, #[trigger] sorted@[j] as int) by {
                                assert(sorted@.to_set().contains(sorted@[j]));
                                lemma_boundary_grid_edge(img, sorted@[j] as int);
                            }
                        }
                        let pieces = trace_region(img, &sorted);
                        let key = color_at(img, data_in, x, y);
                        proof {
                            assert forall|j: int, q: int| 0 <= j < pieces@.len() && 0 <= q < pieces@[j]@.len() implies
                                0 <= (#[trigger] pieces@[j]@[q]).0 <= 0x1_0000_0000 && 0 <= pieces@[j]@[q].1 <= 0x1_0000_0000 by {
                                assert(corner(img, (pieces@[j]@[q].0 as int, pieces@[j]@[q].1 as int)));
                            }
                            assert(pieces_view(pieces@) =~= piece_points(pieces@)) by {
                                assert forall|j: int| 0 <= j < pieces@.len() implies pieces_view(pieces@)[j] == piece_points(pieces@)[j] by {
                                    assert(pieces_view(pieces@)[j] =~= points(pieces@[j]@));
                                }
                            }
                        }
                        add_region(&mut table, key, &pieces, Ghost(m0));
                    }
                }
            }
            idx = idx + 1;
            x = x + 1;
        }
        proof {
            assert(idx == (y + 1) * w) by (nonlinear_arith)
                requires
                    idx == y * w + x,
                    x == w,
            ;
        }
        y = y + 1;
    }
    let ghost m = scan_state(img, n as nat);
    let (keys, paths, starts) = table_rows(&table, Ghost(m));
    proof {
        assert(idx as int == n) by (nonlinear_arith)
            requires
                idx == y * w,
                y == h,
                n == width(img) * height(img),
                w as int == width(img),
                h as int == height(img),
        ;
        assert(m.dom() =~= keys@.to_set()) by {
            assert forall|k: u64| m.dom().contains(k) implies keys@.to_set().contains(k) by {
                assert(m.contains_key(k));
            }
            assert forall|k: u64| keys@.to_set().contains(k) implies m.dom().contains(k) by {
                let i = choose|i: int| 0 <= i < keys@.len() && keys@[i] == k;
                assert(m.contains_key(keys@[i]));
            }
        }
        lemma_sorted_elements(keys@);
    }
    let out = render_document(w, h, &keys, &paths, &starts, Ghost(m));
    Ok(string_of(&out))
}

} // verus!

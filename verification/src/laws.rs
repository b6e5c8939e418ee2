//! What the library's operations are for, stated against the documented
//! behaviour rather than against their own definitions: the parameters a
//! profile sets, which configuration knobs reach vtracer, when `Auto` picks
//! which engine, that shortening a number keeps its value, and that the EPS
//! path draws the parsed path.
use vstd::prelude::*;
use crate::config::{
    ColorMode, Engine, HierarchicalMode, PathSimplifyMode, VectorizeConfig, profile_applied,
};
use crate::engine::spline::{spline_settings_of, vtracer_defaults, vtracer_preset};
use crate::export::{ps_segment, ps_segments, Segment};
use crate::image::RgbaImage;
use crate::text::{fold_code, lower_eq};
use crate::optimize::{
    is_digit, lemma_skip_digits_bounds, shorten_chars, shortened, lemma_trim_zeros_bounds, number_starts, number_token, skip_digits,
    trim_zeros,
};
use crate::{auto_engine, unique_colors};

verus! {

/// The `photo` profile, named in any case (docs: profiles): spline engine, 10 colors of
/// precision, stacked hierarchical clustering, corner threshold 40, 2
/// iterations; besides, speckle 4, splice 45, layer difference 5, color
/// mode, spline simplification. Nothing else changes.
pub proof fn law_photo_profile(name: Seq<char>, c: VectorizeConfig)
    requires
        lower_eq(name, "photo"@),
    ensures
        ({
            let r = profile_applied(name, c);
            &&& r.engine == Engine::Spline
            &&& r.color_precision == Some(10i32)
            &&& r.hierarchical == Some(HierarchicalMode::Stacked)
            &&& r.corner_threshold == Some(40i32)
            &&& r.max_iterations == Some(2usize)
            &&& r.filter_speckle == Some(4usize)
            &&& r.splice_threshold == Some(45i32)
            &&& r.layer_difference == Some(5i32)
            &&& r.color_mode == Some(ColorMode::Color)
            &&& r.path_simplify_mode == Some(PathSimplifyMode::Spline)
            &&& r.optimize == c.optimize && r.optimize_config == c.optimize_config
            &&& r.spline_preset == c.spline_preset && r.path_precision == c.path_precision
        }),
{
    reveal_strlit("photo");
    reveal_strlit("icon");
    reveal_strlit("logo");
}

/// The `logo` profile, named in any case (docs: profiles): spline engine, color precision 8,
/// cutout hierarchical clustering, layer difference 5; besides, speckle 4,
/// corner threshold 90, splice 45, 4 iterations, color mode, spline
/// simplification. Nothing else changes.
pub proof fn law_logo_profile(name: Seq<char>, c: VectorizeConfig)
    requires
        lower_eq(name, "logo"@),
    ensures
        ({
            let r = profile_applied(name, c);
            &&& r.engine == Engine::Spline
            &&& r.color_precision == Some(8i32)
            &&& r.hierarchical == Some(HierarchicalMode::Cutout)
            &&& r.layer_difference == Some(5i32)
            &&& r.filter_speckle == Some(4usize)
            &&& r.corner_threshold == Some(90i32)
            &&& r.splice_threshold == Some(45i32)
            &&& r.max_iterations == Some(4usize)
            &&& r.color_mode == Some(ColorMode::Color)
            &&& r.path_simplify_mode == Some(PathSimplifyMode::Spline)
            &&& r.optimize == c.optimize && r.optimize_config == c.optimize_config
            &&& r.spline_preset == c.spline_preset && r.path_precision == c.path_precision
        }),
{
    reveal_strlit("logo");
    reveal_strlit("icon");
    assert(!lower_eq(name, "icon"@)) by {
        assert(fold_code(name[0]) == "logo"@[0] as u32);
    }
}

/// The `icon` profile, named in any case (docs: profiles): spline engine, color precision 4,
/// speckle 2, corner threshold 80, spline simplification; besides, splice
/// 30, color mode, layer difference 10, 4 iterations. Its clustering mode
/// and everything else are left as they were.
pub proof fn law_icon_profile(name: Seq<char>, c: VectorizeConfig)
    requires
        lower_eq(name, "icon"@),
    ensures
        ({
            let r = profile_applied(name, c);
            &&& r.engine == Engine::Spline
            &&& r.color_precision == Some(4i32)
            &&& r.filter_speckle == Some(2usize)
            &&& r.corner_threshold == Some(80i32)
            &&& r.path_simplify_mode == Some(PathSimplifyMode::Spline)
            &&& r.splice_threshold == Some(30i32)
            &&& r.color_mode == Some(ColorMode::Color)
            &&& r.layer_difference == Some(10i32)
            &&& r.max_iterations == Some(4usize)
            &&& r.hierarchical == c.hierarchical
            &&& r.optimize == c.optimize && r.optimize_config == c.optimize_config
            &&& r.spline_preset == c.spline_preset && r.path_precision == c.path_precision
        }),
{
    reveal_strlit("icon");
}

/// The `lineart` profile, named in any case (docs: profiles): spline engine, binary color
/// mode, speckle 8, corner threshold 30, splice 60, cutout hierarchical
/// clustering; besides, color precision 2, layer difference 10, 2
/// iterations, spline simplification. Nothing else changes.
pub proof fn law_lineart_profile(name: Seq<char>, c: VectorizeConfig)
    requires
        lower_eq(name, "lineart"@),
    ensures
        ({
            let r = profile_applied(name, c);
            &&& r.engine == Engine::Spline
            &&& r.color_mode == Some(ColorMode::Binary)
            &&& r.filter_speckle == Some(8usize)
            &&& r.corner_threshold == Some(30i32)
            &&& r.splice_threshold == Some(60i32)
            &&& r.hierarchical == Some(HierarchicalMode::Cutout)
            &&& r.color_precision == Some(2i32)
            &&& r.layer_difference == Some(10i32)
            &&& r.max_iterations == Some(2usize)
            &&& r.path_simplify_mode == Some(PathSimplifyMode::Spline)
            &&& r.optimize == c.optimize && r.optimize_config == c.optimize_config
            &&& r.spline_preset == c.spline_preset && r.path_precision == c.path_precision
        }),
{
    reveal_strlit("lineart");
    reveal_strlit("icon");
    reveal_strlit("logo");
    reveal_strlit("photo");
}

/// Without a spline preset, every knob the configuration gives reaches
/// vtracer as given, and every knob it leaves out keeps vtracer's default.
/// With a preset, the preset's parameters are used as they are.
pub proof fn law_spline_knobs_reach_vtracer(c: VectorizeConfig)
    ensures
        c.spline_preset matches Some(p) ==> spline_settings_of(c) == vtracer_preset(p),
        c.spline_preset is None ==> {
            let s = spline_settings_of(c);
            let d = vtracer_defaults();
            &&& (c.color_mode matches Some(v) ==> s.color_mode == v)
            &&& (c.color_mode is None ==> s.color_mode == d.color_mode)
            &&& (c.hierarchical matches Some(v) ==> s.hierarchical == v)
            &&& (c.hierarchical is None ==> s.hierarchical == d.hierarchical)
            &&& (c.filter_speckle matches Some(v) ==> s.filter_speckle == v)
            &&& (c.filter_speckle is None ==> s.filter_speckle == d.filter_speckle)
            &&& (c.color_precision matches Some(v) ==> s.color_precision == v)
            &&& (c.color_precision is None ==> s.color_precision == d.color_precision)
            &&& (c.layer_difference matches Some(v) ==> s.layer_difference == v)
            &&& (c.layer_difference is None ==> s.layer_difference == d.layer_difference)
            &&& (c.corner_threshold matches Some(v) ==> s.corner_threshold == v)
            &&& (c.corner_threshold is None ==> s.corner_threshold == d.corner_threshold)
            &&& (c.max_iterations matches Some(v) ==> s.max_iterations == v)
            &&& (c.max_iterations is None ==> s.max_iterations == d.max_iterations)
            &&& (c.splice_threshold matches Some(v) ==> s.splice_threshold == v)
            &&& (c.splice_threshold is None ==> s.splice_threshold == d.splice_threshold)
            &&& (c.path_precision matches Some(v) ==> s.path_precision == Some(v))
            &&& (c.path_precision is None ==> s.path_precision == d.path_precision)
            &&& (c.path_simplify_mode matches Some(v) ==> s.mode == v)
            &&& (c.path_simplify_mode is None ==> s.mode == d.mode)
        },
{
}

/// `Auto` (docs: engines): an empty image, or one of at most 256×256 pixels
/// with at most 128 sampled colors, goes to PixelExact; otherwise a color
/// density (distinct sampled colors per pixel) above 0.005 marks a
/// photo-like image and goes to Spline, whatever its size, and a lower
/// density goes to PixelExact.
pub proof fn law_auto_engine_choice(img: &RgbaImage)
    ensures
        ({
            let w = img.spec_width() as int;
            let h = img.spec_height() as int;
            let n = unique_colors(img) as int;
            &&& (w * h == 0 ==> auto_engine(img) == Engine::PixelExact)
            &&& (w <= 256 && h <= 256 && n <= 128 ==> auto_engine(img) == Engine::PixelExact)
            &&& (w * h > 0 && n > 128 && 200 * n > w * h ==> auto_engine(img) == Engine::Spline)
            &&& (w * h > 0 && (w > 256 || h > 256) && 200 * n > w * h ==> auto_engine(img) == Engine::Spline)
            &&& (200 * n <= w * h ==> auto_engine(img) == Engine::PixelExact)
        }),
{
}

/// The text holds a decimal point.
pub open spec fn has_point(t: Seq<char>) -> bool {
    exists|j: int| 0 <= j < t.len() && t[j] == '.'
}

/// A skipped character is a digit.
proof fn lemma_skipped_is_digit(b: Seq<char>, k: int, ae: int, j: int)
    requires
        0 <= k <= j < skip_digits(b, k, ae),
    ensures
        0 <= j < b.len(),
        is_digit(b[j]),
    decreases ae - k,
{
    if j > k {
        lemma_skipped_is_digit(b, k + 1, ae, j);
    }
}

/// The zeros trimmed are zeros.
proof fn lemma_trimmed_are_zeros(b: Seq<char>, ds: int, t: int)
    requires
        t <= b.len(),
    ensures
        forall|j: int| trim_zeros(b, ds, t) <= j < t ==> #[trigger] b[j] == '0',
    decreases t - ds,
{
    if t > ds && 0 < t <= b.len() && b[t - 1] == '0' {
        lemma_trimmed_are_zeros(b, ds, t - 1);
    }
}

/// Shortening a number in path data keeps its value (docs: optimization;
/// "1.000" → "1", "2.50" → "2.5"): the shortened text is the start of the
/// number as written, and what is dropped lies after the decimal point: zeros
/// ending the fraction, with the point itself only when no fraction digit
/// is left. The integer digits, the sign and any exponent are all kept.
pub proof fn law_shortened_number_keeps_value(b: Seq<char>, i: int, ae: int)
    requires
        0 <= i < ae <= b.len(),
        number_starts(b, i, ae),
    ensures
        ({
            let tok = number_token(b, i, ae);
            let t = tok.0;
            let o = b.subrange(i, tok.1);
            &&& i < tok.1 <= ae
            &&& t.len() <= o.len()
            &&& o.take(t.len() as int) == t
            &&& forall|k: int| t.len() <= k < o.len() ==> #[trigger] o[k] == '0' || (k == t.len() && o[k] == '.')
            &&& (t.len() < o.len() ==> has_point(t) || o[t.len() as int] == '.')
            &&& (t.len() < o.len() && o[t.len() as int] == '.' ==> !has_point(t))
        }),
{
    let tok = number_token(b, i, ae);
    let k0 = if b[i] == '-' { i + 1 } else { i };
    let k1 = skip_digits(b, k0, ae);
    lemma_skip_digits_bounds(b, k0, ae);
    if b[i] == '-' {
        assert(is_digit(b[i + 1]));
    }
    lemma_skip_digits_bounds(b, k0 + 1, ae);
    assert(k1 > i);
    if k1 < ae && b[k1] == '.' {
        let ds = k1 + 1;
        let k2 = skip_digits(b, ds, ae);
        lemma_skip_digits_bounds(b, ds, ae);
        if k2 < ae && (b[k2] == 'e' || b[k2] == 'E') {
            let k3 = k2 + 1;
            let k4 = if k3 < ae && (b[k3] == '+' || b[k3] == '-') { k3 + 1 } else { k3 };
            lemma_skip_digits_bounds(b, k4, ae);
            assert(tok.0 =~= b.subrange(i, tok.1));
        } else {
            let t = trim_zeros(b, ds, k2);
            lemma_trim_zeros_bounds(b, ds, k2);
            lemma_trimmed_are_zeros(b, ds, k2);
            let o = b.subrange(i, k2);
            if t == ds && !(k2 < ae && b[k2] == '.') {
                let s = b.subrange(i, k1);
                assert(tok.0 == s);
                assert(o.take(s.len() as int) =~= s);
                assert(!has_point(s)) by {
                    if has_point(s) {
                        let j = choose|j: int| 0 <= j < s.len() && s[j] == '.';
                        assert(s[j] == b[i + j]);
                        if i + j >= k0 {
                            lemma_skipped_is_digit(b, k0, ae, i + j);
                        }
                    }
                }
                assert forall|k: int| s.len() <= k < o.len() implies #[trigger] o[k] == '0' || (k == s.len() && o[k] == '.') by {
                    assert(o[k] == b[i + k]);
                }
            } else {
                let s = b.subrange(i, t);
                assert(tok.0 == s);
                assert(o.take(s.len() as int) =~= s);
                assert(s[k1 - i] == '.');
                assert(has_point(s));
                assert forall|k: int| s.len() <= k < o.len() implies #[trigger] o[k] == '0' || (k == s.len() && o[k] == '.') by {
                    assert(o[k] == b[i + k]);
                }
            }
        }
    } else {
        assert(tok.0 =~= b.subrange(i, tok.1));
    }
}

/// No attribute named `d` opens at `i`: not a `d="` preceded by XML
/// whitespace.
pub open spec fn no_path_data_at(s: Seq<char>, i: int) -> bool {
    !(0 < i && i + 3 < s.len() && (s[i - 1] == ' ' || s[i - 1] == '\t' || s[i - 1] == '\r' || s[i - 1] == '\n')
        && s[i] == 'd' && s[i + 1] == '=' && s[i + 2] == '"')
}

proof fn lemma_copied_from(s: Seq<char>, i: int)
    requires
        0 <= i <= s.len(),
        forall|j: int| 0 <= j < s.len() ==> #[trigger] no_path_data_at(s, j),
    ensures
        shorten_chars(s, i) == s.skip(i),
    decreases s.len() - i,
{
    if i < s.len() {
        assert(no_path_data_at(s, i));
        lemma_copied_from(s, i + 1);
        assert(s.skip(i) =~= seq![s[i]] + s.skip(i + 1));
    } else {
        assert(s.skip(i) =~= Seq::<char>::empty());
    }
}

/// Number shortening touches nothing but path data: a text with no
/// attribute named `d` comes back unchanged (an `id="1.50"` among them).
pub proof fn law_shortening_keeps_other_text(s: Seq<char>)
    requires
        forall|j: int| 0 <= j < s.len() ==> #[trigger] no_path_data_at(s, j),
    ensures
        shortened(s) == s,
{
    lemma_copied_from(s, 0);
    assert(s.skip(0) =~= s);
}

/// What a PostScript path operator does to the current path.
pub enum PathStep {
    /// Starts a new subpath at a point.
    Move,
    /// Draws a straight line to a point.
    Line,
    /// Draws a cubic Bézier curve through two control points to a point.
    Curve,
    /// Closes the subpath.
    Close,
}

/// The PostScript path operators (PostScript Language Reference, 4.4) and
/// what each does.
pub open spec fn ps_operator_meaning(op: Seq<char>) -> Option<PathStep> {
    if op == "moveto"@ {
        Some(PathStep::Move)
    } else if op == "lineto"@ {
        Some(PathStep::Line)
    } else if op == "curveto"@ {
        Some(PathStep::Curve)
    } else if op == "closepath"@ {
        Some(PathStep::Close)
    } else {
        None
    }
}

/// What a segment of the parsed SVG path does, and its points: a move, a
/// line, a cubic curve, or a close; a quadratic curve is drawn as a line to
/// its end point, the only point kept of it.
pub open spec fn svg_step(seg: Segment) -> (PathStep, Seq<char>) {
    match seg {
        Segment::MoveTo(t) => (PathStep::Move, t@),
        Segment::LineTo(t) => (PathStep::Line, t@),
        Segment::QuadTo(t) => (PathStep::Line, t@),
        Segment::CubicTo(t) => (PathStep::Curve, t@),
        Segment::Close => (PathStep::Close, Seq::empty()),
    }
}

/// The EPS path draws the parsed SVG path: each segment becomes one
/// PostScript line, its points (where it has any) followed by the path
/// operator that does what the segment does.
pub proof fn law_eps_segment_draws_it(seg: Segment)
    ensures
        exists|op: Seq<char>| {
            &&& ps_operator_meaning(op) == Some(svg_step(seg).0)
            &&& ps_segment(seg) == (if svg_step(seg).1.len() == 0 && svg_step(seg).0 == PathStep::Close {
                op + "\n"@
            } else {
                svg_step(seg).1 + " "@ + op + "\n"@
            })
        },
{
    reveal_strlit("moveto");
    reveal_strlit("lineto");
    reveal_strlit("curveto");
    reveal_strlit("closepath");
    reveal_strlit(" moveto\n");
    reveal_strlit(" lineto\n");
    reveal_strlit(" curveto\n");
    reveal_strlit("closepath\n");
    reveal_strlit(" ");
    reveal_strlit("\n");
    match seg {
        Segment::MoveTo(t) => {
            assert(ps_segment(seg) =~= t@ + " "@ + "moveto"@ + "\n"@);
            assert(ps_operator_meaning("moveto"@) == Some(PathStep::Move));
        },
        Segment::LineTo(t) => {
            assert(ps_segment(seg) =~= t@ + " "@ + "lineto"@ + "\n"@);
            assert("lineto"@[0] != "moveto"@[0]);
            assert(ps_operator_meaning("lineto"@) == Some(PathStep::Line));
        },
        Segment::QuadTo(t) => {
            assert(ps_segment(seg) =~= t@ + " "@ + "lineto"@ + "\n"@);
            assert("lineto"@[0] != "moveto"@[0]);
            assert(ps_operator_meaning("lineto"@) == Some(PathStep::Line));
        },
        Segment::CubicTo(t) => {
            assert(ps_segment(seg) =~= t@ + " "@ + "curveto"@ + "\n"@);
            assert(ps_operator_meaning("curveto"@) == Some(PathStep::Curve));
        },
        Segment::Close => {
            assert(ps_segment(seg) =~= "closepath"@ + "\n"@);
            assert(ps_operator_meaning("closepath"@) == Some(PathStep::Close));
        },
    }
}

/// The segments are drawn in the order of the SVG path, one after another.
pub proof fn law_eps_segments_in_order(segs: Seq<Segment>, seg: Segment)
    ensures
        ps_segments(Seq::<Segment>::empty()) == Seq::<char>::empty(),
        ps_segments(segs.push(seg)) == ps_segments(segs) + ps_segment(seg),
{
    assert(segs.push(seg).drop_last() =~= segs);
}

} // verus!

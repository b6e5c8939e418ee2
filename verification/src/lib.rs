//! Covecto: dual-engine image vectorization.
//!
//! - **PixelExact**: flood-fills contiguous regions of one color, traces their
//!   boundaries and writes rectilinear SVG paths; every pixel is reproduced.
//! - **Spline** (vtracer-backed): color quantization, contour tracing and
//!   Bézier fitting, for photos and illustrations.
//! - **Auto**: picks one of the two from the image's size and colors.
use vstd::prelude::*;

pub mod api;
pub mod cli;
pub mod config;
pub mod engine;
pub mod error;
pub mod export;
pub mod image;
pub mod laws;
pub mod optimize;
pub mod optimize_size;
pub mod text;

use crate::config::{ColorMode, Engine, VectorizeConfig, VectorizeRequest};
use crate::engine::ascii_svg::law_pixel_exact_svg_ascii;
use crate::engine::pixel_exact::pixel_exact_svg;
use crate::optimize_size::law_ascii_optimization_size;
use crate::engine::region::fits_u32;
use crate::engine::spline::{binary_fits, settings_sound, vtracer_determined, vtracer_output, spline_settings_of, vtracer_svg};
use crate::error::Error;
use crate::image::{color_key, RgbaImage};
use crate::optimize::{byte_len, optimize_text, optimized, utf8_len};
use crate::text::{chars_of, matches_at, occurs_at, push_str, string_of};
use std::collections::HashSet;

verus! {

/// Metadata about a vectorization result. (The compression ratio of the
/// SVG to the raw pixels is a floating-point quotient of `svg_byte_size` and
/// `input_size`; it is left to callers.)
#[derive(Debug)]
pub struct ResultMetadata {
    /// Input image dimensions (width, height).
    pub input_size: (u32, u32),
    /// Output SVG byte size.
    pub svg_byte_size: usize,
    /// Number of SVG path elements.
    pub path_count: usize,
    /// Processing time in milliseconds.
    pub processing_time_ms: u64,
}

impl Clone for ResultMetadata {
    fn clone(&self) -> (r: ResultMetadata)
        ensures
            r == *self,
    {
        ResultMetadata {
            input_size: self.input_size,
            svg_byte_size: self.svg_byte_size,
            path_count: self.path_count,
            processing_time_ms: self.processing_time_ms,
        }
    }
}

/// Result of a vectorization operation.
#[derive(Debug, Clone)]
pub struct VectorizeResult {
    /// The generated SVG string.
    pub svg: String,
    /// Which engine was used.
    pub engine_used: Engine,
    /// Metadata about the operation.
    pub metadata: ResultMetadata,
}

/// The color of pixel number `i` (row-major), packed by `color_key`.
pub open spec fn pixel_key(data: Seq<u8>, i: int) -> int {
    color_key(data[4 * i], data[4 * i + 1], data[4 * i + 2], data[4 * i + 3])
}

/// The color of the `j`-th sampled pixel when every `step`-th is sampled.
pub open spec fn sampled_key(data: Seq<u8>, step: int, j: int) -> int {
    pixel_key(data, j * step)
}

/// Images of more than 65 536 pixels are sampled every `total / 65536`
/// pixels.
pub open spec fn sample_step(total: int) -> int {
    if total > 65536 {
        total / 65536
    } else {
        1
    }
}

/// The colors of the sampled pixels: pixels `0, step, 2·step, …` below the
/// pixel count.
pub open spec fn sampled_colors(img: &RgbaImage) -> Set<u32> {
    let total = img.spec_data().len() / 4;
    let step = sample_step(total as int);
    Set::new(|k: u32| exists|j: int| 0 <= j && j * step < total && k as int == #[trigger] sampled_key(img.spec_data(), step, j))
}

/// How many distinct colors the sample holds.
pub open spec fn unique_colors(img: &RgbaImage) -> nat {
    sampled_colors(img).len()
}

/// The engine `Auto` picks. Small images (at most 256×256) with at most 128
/// colors go to PixelExact; otherwise a color density (distinct sampled
/// colors per pixel) above 0.005 means a photo-like image and Spline; the
/// rest, and empty images, go to PixelExact.
pub open spec fn auto_engine(img: &RgbaImage) -> Engine {
    let w = img.spec_width() as int;
    let h = img.spec_height() as int;
    if w * h == 0 {
        Engine::PixelExact
    } else if w <= 256 && h <= 256 && unique_colors(img) <= 128 {
        Engine::PixelExact
    } else if unique_colors(img) * 200 > w * h {
        Engine::Spline
    } else {
        Engine::PixelExact
    }
}

/// Number of non-overlapping occurrences of `pat` in `s` from position `i`
/// on, scanning left to right (`str::matches(..).count()`).
pub open spec fn matches_from(s: Seq<char>, pat: Seq<char>, i: int) -> nat
    decreases s.len() - i,
{
    if pat.len() == 0 || i < 0 || i + pat.len() > s.len() {
        0
    } else if occurs_at(s, pat, i) {
        1 + matches_from(s, pat, i + pat.len())
    } else {
        matches_from(s, pat, i + 1)
    }
}

/// Number of `<path` occurrences in an SVG text.
pub open spec fn path_count(svg: Seq<char>) -> nat {
    matches_from(svg, "<path"@, 0)
}

/// The engine a request runs: its own, or for `Auto` the one `auto_engine`
/// picks.
pub open spec fn chosen_engine(request: &VectorizeRequest) -> Engine {
    if request.config.engine == Engine::Auto {
        auto_engine(&request.image)
    } else {
        request.config.engine
    }
}

/// Requests that run without overflow or panic: `Auto` counts pixels in 32
/// bits; the pixel-exact engine indexes bytes in 32 bits; vtracer needs
/// sound parameters (see `settings_sound`) and, in binary mode, an image
/// small enough for its cluster index (see `binary_fits`).
pub open spec fn request_sound(request: &VectorizeRequest) -> bool {
    let img = &request.image;
    &&& (request.config.engine == Engine::Auto ==> img.spec_width() as int * img.spec_height() as int <= u32::MAX)
    &&& (chosen_engine(request) == Engine::PixelExact ==> fits_u32(img))
    &&& (chosen_engine(request) == Engine::Spline ==> settings_sound(spline_settings_of(request.config)))
    &&& (chosen_engine(request) == Engine::Spline ==> binary_fits(
        spline_settings_of(request.config),
        img.spec_width() as int,
        img.spec_height() as int,
    ))
}

/// The SVG after post-processing: optimized when the configuration asks for
/// it; `None` where optimization is undefined (see `optimized`).
pub open spec fn post_processed(raw: Seq<char>, config: VectorizeConfig) -> Option<Seq<char>> {
    if config.optimize {
        optimized(raw, config.optimize_config)
    } else {
        Some(raw)
    }
}

/// `result` reports `svg`, made by `engine` from an image of `width` ×
/// `height`, with its byte size and path count.
pub open spec fn reports(result: VectorizeResult, engine: Engine, svg: Seq<char>, width: u32, height: u32) -> bool {
    &&& result.engine_used == engine
    &&& result.svg@ == svg
    &&& result.metadata.input_size == (width, height)
    &&& result.metadata.svg_byte_size == utf8_len(svg)
    &&& result.metadata.path_count == path_count(svg)
}

/// The message of the error that replaces an undefined optimization.
pub open spec fn optimization_failure() -> Seq<char> {
    "empty-attribute removal would cut a multi-byte character"@
}

/// Select the best engine based on image characteristics (see
/// `auto_engine`).
pub fn auto_select_engine(img: &RgbaImage) -> (r: Engine)
    requires
        img.spec_width() as int * img.spec_height() as int <= u32::MAX,
    ensures
        r == auto_engine(img),
{
    let w: u32 = img.width();
    let h: u32 = img.height();
    let total: u32 = w * h;
    if total == 0 {
        return Engine::PixelExact;
    }
    let unique: usize = count_unique_colors(img);
    if w <= 256 && h <= 256 && unique <= 128 {
        Engine::PixelExact
    } else if (unique as u128) * 200 > total as u128 {
        Engine::Spline
    } else {
        Engine::PixelExact
    }
}

/// Count unique RGBA colors in an image. Images of more than 65 536 pixels
/// are sampled (see `sampled_colors`).
pub fn count_unique_colors(img: &RgbaImage) -> (r: usize)
    ensures
        sampled_colors(img).finite(),
        r == unique_colors(img),
{
    broadcast use vstd::std_specs::hash::group_hash_axioms;

    let raw = img.as_raw();
    let ghost data = raw@;
    let total: usize = raw.len() / 4;
    let step: usize = if total > 65536 {
        total / 65536
    } else {
        1
    };
    assert(raw@.len() == total * 4) by {
        assert(raw@.len() == img.spec_width() as int * img.spec_height() as int * 4);
    }
    let mut colors: HashSet<u32> = HashSet::new();
    let mut i: usize = 0;
    let ghost mut j: int = 0;
    while i < total
        invariant
            data == raw@,
            data == img.spec_data(),
            raw@.len() == total * 4,
            total * 4 <= usize::MAX,
            step == sample_step(total as int),
            total > 0 ==> 1 <= step <= total,
            0 <= j,
            i == j * step,
            j > 0 ==> i - step < total,
            colors@.finite(),
            colors@ == Set::new(|k: u32| exists|q: int| 0 <= q < j && k as int == #[trigger] sampled_key(data, step as int, q)),
        decreases total + step - i,
    {
        let o: usize = i * 4;
        let key: u32 = (raw[o] as u32) * 16777216 + (raw[o + 1] as u32) * 65536 + (raw[o + 2] as u32) * 256
            + (raw[o + 3] as u32);
        let ghost before = colors@;
        colors.insert(key);
        proof {
            assert(key as int == sampled_key(data, step as int, j));
            let next = Set::new(|k: u32| exists|q: int| 0 <= q < j + 1 && k as int == #[trigger] sampled_key(data, step as int, q));
            assert forall|k: u32| colors@.contains(k) <==> next.contains(k) by {
                if before.contains(k) {
                    let q = choose|q: int| 0 <= q < j && k as int == #[trigger] sampled_key(data, step as int, q);
                    assert(0 <= q < j + 1 && k as int == sampled_key(data, step as int, q));
                }
                if k == key {
                    assert(0 <= j < j + 1 && k as int == sampled_key(data, step as int, j));
                }
                if next.contains(k) {
                    let q = choose|q: int| 0 <= q < j + 1 && k as int == #[trigger] sampled_key(data, step as int, q);
                    if q < j {
                        assert(before.contains(k));
                    }
                }
            }
            assert(colors@ =~= next);
            assert((j + 1) * step == j * step + step) by (nonlinear_arith);
        }
        i = i + step;
        proof {
            j = j + 1;
        }
    }
    proof {
        assert forall|k: u32| colors@.contains(k) <==> sampled_colors(img).contains(k) by {
            if colors@.contains(k) {
                let q = choose|q: int| 0 <= q < j && k as int == #[trigger] sampled_key(data, step as int, q);
                assert(q * step <= (j - 1) * step) by (nonlinear_arith)
                    requires
                        0 <= q < j,
                        step >= 1,
                ;
                assert((j - 1) * step == j * step - step) by (nonlinear_arith);
                assert(0 <= q && q * step < total && k as int == sampled_key(img.spec_data(), step as int, q));
            }
            if sampled_colors(img).contains(k) {
                let q = choose|q: int| 0 <= q && q * step < total && k as int == #[trigger] sampled_key(img.spec_data(), step as int, q);
                assert(q < j) by (nonlinear_arith)
                    requires
                        q * step < total,
                        total <= j * step,
                        step >= 1,
                        0 <= q,
                ;
            }
        }
        assert(colors@ =~= sampled_colors(img));
    }
    colors.len()
}

/// Count `<path` occurrences in an SVG string (approximate path count).
pub fn count_svg_paths(svg: &str) -> (r: usize)
    ensures
        r == path_count(svg@),
{
    let s = chars_of(svg);
    let pat = chars_of("<path");
    proof {
        reveal_strlit("<path");
    }
    let mut count: usize = 0;
    let mut i: usize = 0;
    while i < s.len()
        invariant
            pat@ == "<path"@,
            pat@.len() == 5,
            i <= s@.len(),
            count <= i,
            count + matches_from(s@, pat@, i as int) == matches_from(s@, pat@, 0),
        decreases s@.len() - i,
    {
        if matches_at(&s, i, &pat) {
            count = count + 1;
            i = i + 5;
        } else {
            i = i + 1;
        }
    }
    count
}

/// Optimizes the engine's SVG when the configuration asks for it. Where
/// optimization is undefined (see `optimized`), the error is
/// `Error::Optimization` with `optimization_failure()` as its message.
pub fn post_process(raw: String, config: &VectorizeConfig) -> (r: Result<String, Error>)
    ensures
        match post_processed(raw@, *config) {
            Some(svg) => r matches Ok(out) && out@ == svg,
            None => r matches Err(Error::Optimization(m)) && m@ == optimization_failure(),
        },
{
    if !config.optimize {
        return Ok(raw);
    }
    let s = chars_of(raw.as_str());
    match optimize_text(&s, &config.optimize_config) {
        Some(v) => Ok(string_of(&v)),
        None => {
            let mut m: Vec<char> = Vec::new();
            push_str(&mut m, "empty-attribute removal would cut a multi-byte character");
            proof {
                assert(m@ =~= optimization_failure());
            }
            Err(Error::Optimization(string_of(&m)))
        },
    }
}

/// The result for `svg`, made by `engine` from an image of `width` ×
/// `height` in `elapsed_ms` milliseconds.
pub fn make_result(engine: Engine, svg: String, width: u32, height: u32, elapsed_ms: u64) -> (r: VectorizeResult)
    ensures
        reports(r, engine, svg@, width, height),
        r.metadata.processing_time_ms == elapsed_ms,
{
    let chars = chars_of(svg.as_str());
    let svg_byte_size: usize = byte_len(&chars);
    let path_count: usize = count_svg_paths(svg.as_str());
    VectorizeResult {
        svg,
        engine_used: engine,
        metadata: ResultMetadata {
            input_size: (width, height),
            svg_byte_size,
            path_count,
            processing_time_ms: elapsed_ms,
        },
    }
}

/// The current instant (`Instant::now`); nothing is stated of it.
#[verifier::external_body]
fn clock_now() -> std::time::Instant {
    std::time::Instant::now()
}

/// The time passed since `start` (`Instant::elapsed`); nothing is stated of
/// it.
#[verifier::external_body]
fn elapsed_since(start: &std::time::Instant) -> std::time::Duration {
    start.elapsed()
}

/// Whole milliseconds of a duration (`Duration::as_millis`); nothing is
/// stated of it.
#[verifier::external_body]
fn whole_millis(d: &std::time::Duration) -> u128 {
    d.as_millis()
}

#[verifier::external_type_specification]
#[verifier::external_body]
pub struct ExInstant(std::time::Instant);

/// Main vectorization entry point: runs the chosen engine (see
/// `chosen_engine`), post-processes its SVG and reports it. With the
/// pixel-exact engine the SVG is determined by the image; the spline
/// engine's is vtracer's, of which only its frame is known. The pixel-exact
/// engine never fails: its document is ASCII, which every optimization
/// accepts.
pub fn vectorize(request: &VectorizeRequest) -> (r: Result<VectorizeResult, Error>)
    requires
        request_sound(request),
    ensures
        ({
            let img = &request.image;
            chosen_engine(request) == Engine::PixelExact ==> (post_processed(pixel_exact_svg(img), request.config)
                matches Some(svg) && r matches Ok(res) && reports(res, Engine::PixelExact, svg, img.spec_width(), img.spec_height()))
        }),
        chosen_engine(request) == Engine::Spline ==> (r matches Ok(res) ==> (reports(res, Engine::Spline, res.svg@, request.image.spec_width(), request.image.spec_height())
            && exists|raw: Seq<char>| #![auto] vtracer_svg(raw, request.image.spec_width() as nat, request.image.spec_height() as nat)
                && post_processed(raw, request.config) == Some(res.svg@))),
        chosen_engine(request) == Engine::Spline ==> (r matches Err(e) ==> ((e matches Error::Vtracer(m) && m@ == "unable to find unused color in image to use as key"@
            && spline_settings_of(request.config).color_mode == ColorMode::Color)
            || (e matches Error::Optimization(m) && m@ == optimization_failure()))),
        ({
            let img = &request.image;
            let settings = spline_settings_of(request.config);
            chosen_engine(request) == Engine::Spline && vtracer_determined(img.spec_data(), settings) ==> match post_processed(
                vtracer_output(img.spec_data(), img.spec_width() as nat, img.spec_height() as nat, settings),
                request.config,
            ) {
                Some(svg) => r matches Ok(res) && reports(res, Engine::Spline, svg, img.spec_width(), img.spec_height()),
                None => r matches Err(Error::Optimization(m)) && m@ == optimization_failure(),
            }
        }),
{
    let engine = match request.config.engine {
        Engine::Auto => auto_select_engine(&request.image),
        other => other,
    };
    let start = clock_now();
    let raw_svg = match engine {
        Engine::Spline => crate::engine::spline::vectorize(&request.image, &request.config),
        _ => crate::engine::pixel_exact::vectorize(&request.image),
    };
    let raw_svg = match raw_svg {
        Ok(s) => s,
        Err(e) => return Err(e),
    };
    let ghost raw = raw_svg@;
    proof {
        if engine == Engine::PixelExact {
            law_pixel_exact_svg_ascii(&request.image);
            law_ascii_optimization_size(raw, request.config.optimize_config);
        }
    }
    let svg = match post_process(raw_svg, &request.config) {
        Ok(s) => s,
        Err(e) => return Err(e),
    };
    let elapsed = elapsed_since(&start);
    let ms: u128 = whole_millis(&elapsed);
    let ms64: u64 = #[verifier::truncate] (ms as u64);
    let w: u32 = request.image.width();
    let h: u32 = request.image.height();
    let result = make_result(engine, svg, w, h, ms64);
    proof {
        if engine == Engine::Spline {
            assert(vtracer_svg(raw, w as nat, h as nat) && post_processed(raw, request.config) == Some(result.svg@));
        }
    }
    Ok(result)
}

} // verus!

//! The HTTP API's rules: request counters, the health answer, how the form
//! fields of a vectorize or optimize request become a configuration, and
//! what an optimize request answers.
use vstd::prelude::*;
use crate::config::{
    apply_profile, color_mode_named, engine_named, hierarchical_named, path_simplify_named,
    profile_applied, spline_preset_named, ColorMode, Engine, HierarchicalMode, OptimizeConfig,
    OptimizePreset, PathSimplifyMode, SplinePreset, VectorizeConfig,
};
use crate::error::Error;
use crate::optimize::{byte_len, optimize_text, optimized, utf8_len};
use crate::optimization_failure;
use crate::text::{chars_of, push_str, same_text, string_of};

verus! {

/// Counters of the requests served.
pub struct AppState {
    request_count: u64,
    total_processing_ms: u64,
}

impl AppState {
    /// Requests recorded so far (wrapping at 2⁶⁴).
    pub closed spec fn spec_request_count(&self) -> u64 {
        self.request_count
    }

    /// Total processing time recorded so far, in milliseconds (wrapping at
    /// 2⁶⁴).
    pub closed spec fn spec_total_ms(&self) -> u64 {
        self.total_processing_ms
    }

    /// Records a request that took `processing_ms`: one more request, its
    /// time added to the total (both counters wrap, as atomic additions do).
    pub fn record_request(&mut self, processing_ms: u64)
        ensures
            final(self).spec_request_count() == (old(self).spec_request_count() + 1) % 0x1_0000_0000_0000_0000,
            final(self).spec_total_ms() == (old(self).spec_total_ms() + processing_ms) % 0x1_0000_0000_0000_0000,
    {
        self.request_count = self.request_count.wrapping_add(1);
        self.total_processing_ms = self.total_processing_ms.wrapping_add(processing_ms);
    }

    /// Requests recorded so far.
    pub fn request_count(&self) -> (r: u64)
        ensures
            r == self.spec_request_count(),
    {
        self.request_count
    }

    /// Total processing time recorded so far, in milliseconds. (The average
    /// per request is this over `request_count`, zero without requests.)
    pub fn total_processing_ms(&self) -> (r: u64)
        ensures
            r == self.spec_total_ms(),
    {
        self.total_processing_ms
    }
}

/// The sum of the request times.
pub open spec fn total_time(ms: Seq<u64>) -> nat
    decreases ms.len(),
{
    if ms.len() == 0 {
        0
    } else {
        total_time(ms.drop_last()) + ms.last() as nat
    }
}

/// The counters (requests, total time) after fresh counters have recorded
/// the requests of the given times in order, each as `record_request` does.
pub open spec fn counters_after(ms: Seq<u64>) -> (u64, u64)
    decreases ms.len(),
{
    if ms.len() == 0 {
        (0, 0)
    } else {
        let c = counters_after(ms.drop_last());
        (((c.0 + 1) % 0x1_0000_0000_0000_0000) as u64, ((c.1 + ms.last()) % 0x1_0000_0000_0000_0000) as u64)
    }
}

/// Fresh counters (`create_app_state`) are the counters after no request,
/// and recording one more request (`record_request`) steps them as
/// `counters_after` does.
pub proof fn law_counters_step(ms: Seq<u64>, m: u64)
    ensures
        counters_after(Seq::<u64>::empty()) == (0u64, 0u64),
        counters_after(ms.push(m)) == (((counters_after(ms).0 + 1) % 0x1_0000_0000_0000_0000) as u64, ((
            counters_after(ms).1 + m) % 0x1_0000_0000_0000_0000) as u64),
{
    assert(ms.push(m).drop_last() =~= ms);
}

/// Fresh counters that have recorded a run of requests count them and sum
/// their times (both wrapping at 2⁶⁴); as long as neither wraps, they hold
/// exactly the number of requests and the total time.
pub proof fn law_counters_count_and_sum(ms: Seq<u64>)
    ensures
        counters_after(ms).0 == ms.len() % 0x1_0000_0000_0000_0000,
        counters_after(ms).1 == total_time(ms) % 0x1_0000_0000_0000_0000,
        ms.len() < 0x1_0000_0000_0000_0000 && total_time(ms) < 0x1_0000_0000_0000_0000 ==> counters_after(ms)
            == (ms.len() as u64, total_time(ms) as u64),
    decreases ms.len(),
{
    if ms.len() > 0 {
        let rest = ms.drop_last();
        law_counters_count_and_sum(rest);
        vstd::arithmetic::div_mod::lemma_add_mod_noop(rest.len() as int, 1, 0x1_0000_0000_0000_0000);
        vstd::arithmetic::div_mod::lemma_add_mod_noop(total_time(rest) as int, ms.last() as int, 0x1_0000_0000_0000_0000);
        assert((1int) % 0x1_0000_0000_0000_0000 == 1);
        assert((ms.last() as int) % 0x1_0000_0000_0000_0000 == ms.last());
    }
}

/// Fresh counters: no requests, no time.
pub fn create_app_state() -> (r: AppState)
    ensures
        r.spec_request_count() == 0,
        r.spec_total_ms() == 0,
{
    AppState { request_count: 0, total_processing_ms: 0 }
}

/// The health answer.
#[derive(Debug)]
pub struct HealthResponse {
    pub status: String,
    pub version: String,
}

/// The health answer of a server of the given version: status `ok`.
pub fn health_response(version: &str) -> (r: HealthResponse)
    ensures
        r.status@ == "ok"@,
        r.version@ == version@,
{
    HealthResponse { status: String::from_str("ok"), version: String::from_str(version) }
}

/// The value of a run of decimal digits.
pub open spec fn digits_value(s: Seq<char>) -> int
    decreases s.len(),
{
    if s.len() == 0 {
        0
    } else {
        digits_value(s.drop_last()) * 10 + (s.last() as int - 48)
    }
}

/// Every character is an ASCII digit.
pub open spec fn all_digits(s: Seq<char>) -> bool {
    forall|i: int| 0 <= i < s.len() ==> '0' <= #[trigger] s[i] <= '9'
}

/// The integer a text writes in decimal, as `FromStr` reads integers: an
/// optional `+` (or `-` for signed types) and at least one ASCII digit,
/// nothing else.
pub open spec fn decimal_value(s: Seq<char>, signed: bool) -> Option<int> {
    let neg = s.len() > 0 && s[0] == '-' && signed;
    let body = if s.len() > 0 && (s[0] == '+' || neg) {
        s.skip(1)
    } else {
        s
    };
    if body.len() > 0 && all_digits(body) {
        Some(
            if neg {
                -digits_value(body)
            } else {
                digits_value(body)
            },
        )
    } else {
        None
    }
}

/// The value as an integer type of the given range, where it fits.
pub open spec fn in_range(v: Option<int>, lo: int, hi: int) -> Option<int> {
    match v {
        Some(x) => if lo <= x <= hi {
            Some(x)
        } else {
            None
        },
        None => None,
    }
}

/// `true` and `false`, as `bool`'s `FromStr` reads them.
pub open spec fn bool_value(s: Seq<char>) -> Option<bool> {
    if s == "true"@ {
        Some(true)
    } else if s == "false"@ {
        Some(false)
    } else {
        None
    }
}

/// `str::parse::<bool>`, its error dropped (see `bool_value`).
#[verifier::external_body]
fn parse_bool(s: &str) -> (r: Option<bool>)
    ensures
        r == bool_value(s@),
{
    s.parse().ok()
}

/// `str::parse::<i32>`, its error dropped: the decimal value where it fits.
#[verifier::external_body]
fn parse_i32(s: &str) -> (r: Option<i32>)
    ensures
        r matches Some(v) ==> in_range(decimal_value(s@, true), i32::MIN as int, i32::MAX as int) == Some(v as int),
        r is None ==> in_range(decimal_value(s@, true), i32::MIN as int, i32::MAX as int) is None,
{
    s.parse().ok()
}

/// `str::parse::<u32>`, its error dropped: the decimal value where it fits.
#[verifier::external_body]
fn parse_u32(s: &str) -> (r: Option<u32>)
    ensures
        r matches Some(v) ==> in_range(decimal_value(s@, false), 0, u32::MAX as int) == Some(v as int),
        r is None ==> in_range(decimal_value(s@, false), 0, u32::MAX as int) is None,
{
    s.parse().ok()
}

/// `str::parse::<usize>`, its error dropped: the decimal value where it
/// fits.
#[verifier::external_body]
fn parse_usize(s: &str) -> (r: Option<usize>)
    ensures
        r matches Some(v) ==> in_range(decimal_value(s@, false), 0, usize::MAX as int) == Some(v as int),
        r is None ==> in_range(decimal_value(s@, false), 0, usize::MAX as int) is None,
{
    s.parse().ok()
}

/// `s` read as an `i32`, where it is one.
pub open spec fn i32_value(s: Seq<char>) -> Option<i32> {
    match in_range(decimal_value(s, true), i32::MIN as int, i32::MAX as int) {
        Some(v) => Some(v as i32),
        None => None,
    }
}

/// `s` read as a `u32`, where it is one.
pub open spec fn u32_value(s: Seq<char>) -> Option<u32> {
    match in_range(decimal_value(s, false), 0, u32::MAX as int) {
        Some(v) => Some(v as u32),
        None => None,
    }
}

/// `s` read as a `usize`, where it is one.
pub open spec fn usize_value(s: Seq<char>) -> Option<usize> {
    match in_range(decimal_value(s, false), 0, usize::MAX as int) {
        Some(v) => Some(v as usize),
        None => None,
    }
}

/// Whether a form field carries the uploaded file: the field `file`, or one
/// without a name.
pub fn is_file_field(name: &str) -> (r: bool)
    ensures
        r == (name@ == "file"@ || name@.len() == 0),
{
    proof {
        reveal_strlit("");
        reveal_strlit("file");
    }
    let empty = same_text(name, "");
    proof {
        if name@.len() == 0 {
            assert(name@ =~= ""@);
        }
    }
    same_text(name, "file") || empty
}

/// The form fields of a vectorize request, each where it was given. Text
/// fields hold the text as sent; numbers and flags hold what the text reads
/// as, `None` where it reads as nothing. (The minimum path length field is a
/// floating-point number and is not held here.)
pub struct VectorizeParams {
    pub format: Option<String>,
    pub engine: Option<String>,
    pub profile: Option<String>,
    pub optimize: Option<bool>,
    pub optimize_preset: Option<String>,
    pub multipass: Option<bool>,
    pub multipass_iterations: Option<usize>,
    pub preset: Option<String>,
    pub color_precision: Option<i32>,
    pub filter_speckle: Option<usize>,
    pub corner_threshold: Option<i32>,
    pub splice_threshold: Option<i32>,
    pub hierarchical: Option<String>,
    pub path_simplify: Option<String>,
    pub layer_difference: Option<i32>,
    pub max_iterations: Option<usize>,
    pub path_precision: Option<u32>,
    pub color_mode: Option<String>,
}

/// No field given.
pub open spec fn no_params() -> VectorizeParams {
    VectorizeParams {
        format: None,
        engine: None,
        profile: None,
        optimize: None,
        optimize_preset: None,
        multipass: None,
        multipass_iterations: None,
        preset: None,
        color_precision: None,
        filter_speckle: None,
        corner_threshold: None,
        splice_threshold: None,
        hierarchical: None,
        path_simplify: None,
        layer_difference: None,
        max_iterations: None,
        path_precision: None,
        color_mode: None,
    }
}

/// The fields after one more: the field of that name takes the value (read
/// as its type); unknown names change nothing.
pub open spec fn with_field(p: VectorizeParams, name: Seq<char>, value: String) -> VectorizeParams {
    let v = value@;
    if name == "format"@ {
        VectorizeParams { format: Some(value), ..p }
    } else if name == "engine"@ {
        VectorizeParams { engine: Some(value), ..p }
    } else if name == "optimize"@ {
        VectorizeParams { optimize: bool_value(v), ..p }
    } else if name == "optimize_preset"@ {
        VectorizeParams { optimize_preset: Some(value), ..p }
    } else if name == "multipass"@ {
        VectorizeParams { multipass: bool_value(v), ..p }
    } else if name == "multipass_iterations"@ {
        VectorizeParams { multipass_iterations: usize_value(v), ..p }
    } else if name == "preset"@ {
        VectorizeParams { preset: Some(value), ..p }
    } else if name == "profile"@ {
        VectorizeParams { profile: Some(value), ..p }
    } else if name == "color_precision"@ {
        VectorizeParams { color_precision: i32_value(v), ..p }
    } else if name == "filter_speckle"@ {
        VectorizeParams { filter_speckle: usize_value(v), ..p }
    } else if name == "corner_threshold"@ {
        VectorizeParams { corner_threshold: i32_value(v), ..p }
    } else if name == "splice_threshold"@ {
        VectorizeParams { splice_threshold: i32_value(v), ..p }
    } else if name == "hierarchical"@ {
        VectorizeParams { hierarchical: Some(value), ..p }
    } else if name == "path_simplify"@ {
        VectorizeParams { path_simplify: Some(value), ..p }
    } else if name == "layer_difference"@ {
        VectorizeParams { layer_difference: i32_value(v), ..p }
    } else if name == "max_iterations"@ {
        VectorizeParams { max_iterations: usize_value(v), ..p }
    } else if name == "path_precision"@ {
        VectorizeParams { path_precision: u32_value(v), ..p }
    } else if name == "color_mode"@ {
        VectorizeParams { color_mode: Some(value), ..p }
    } else {
        p
    }
}

/// An `i32` field's value.
fn read_i32(value: &str) -> (r: Option<i32>)
    ensures
        r == i32_value(value@),
{
    parse_i32(value)
}

/// A `u32` field's value.
fn read_u32(value: &str) -> (r: Option<u32>)
    ensures
        r == u32_value(value@),
{
    parse_u32(value)
}

/// A `usize` field's value.
fn read_usize(value: &str) -> (r: Option<usize>)
    ensures
        r == usize_value(value@),
{
    parse_usize(value)
}

impl VectorizeParams {
    /// No field given.
    pub fn new() -> (r: VectorizeParams)
        ensures
            r == no_params(),
    {
        VectorizeParams {
            format: None,
            engine: None,
            profile: None,
            optimize: None,
            optimize_preset: None,
            multipass: None,
            multipass_iterations: None,
            preset: None,
            color_precision: None,
            filter_speckle: None,
            corner_threshold: None,
            splice_threshold: None,
            hierarchical: None,
            path_simplify: None,
            layer_difference: None,
            max_iterations: None,
            path_precision: None,
            color_mode: None,
        }
    }

    /// Takes one form field (see `with_field`).
    pub fn set_field(&mut self, name: &str, value: String)
        ensures
            *final(self) == with_field(*old(self), name@, value),
    {
        proof {
            reveal_strlit("format");
            reveal_strlit("engine");
            reveal_strlit("optimize");
            reveal_strlit("optimize_preset");
            reveal_strlit("multipass");
            reveal_strlit("multipass_iterations");
            reveal_strlit("preset");
            reveal_strlit("profile");
            reveal_strlit("color_precision");
            reveal_strlit("filter_speckle");
            reveal_strlit("corner_threshold");
            reveal_strlit("splice_threshold");
            reveal_strlit("hierarchical");
            reveal_strlit("path_simplify");
            reveal_strlit("layer_difference");
            reveal_strlit("max_iterations");
            reveal_strlit("path_precision");
            reveal_strlit("color_mode");
        }
        if same_text(name, "format") {
            self.format = Some(value);
        } else if same_text(name, "engine") {
            self.engine = Some(value);
        } else if same_text(name, "optimize") {
            self.optimize = parse_bool(value.as_str());
        } else if same_text(name, "optimize_preset") {
            self.optimize_preset = Some(value);
        } else if same_text(name, "multipass") {
            self.multipass = parse_bool(value.as_str());
        } else if same_text(name, "multipass_iterations") {
            self.multipass_iterations = read_usize(value.as_str());
        } else if same_text(name, "preset") {
            self.preset = Some(value);
        } else if same_text(name, "profile") {
            self.profile = Some(value);
        } else if same_text(name, "color_precision") {
            self.color_precision = read_i32(value.as_str());
        } else if same_text(name, "filter_speckle") {
            self.filter_speckle = read_usize(value.as_str());
        } else if same_text(name, "corner_threshold") {
            self.corner_threshold = read_i32(value.as_str());
        } else if same_text(name, "splice_threshold") {
            self.splice_threshold = read_i32(value.as_str());
        } else if same_text(name, "hierarchical") {
            self.hierarchical = Some(value);
        } else if same_text(name, "path_simplify") {
            self.path_simplify = Some(value);
        } else if same_text(name, "layer_difference") {
            self.layer_difference = read_i32(value.as_str());
        } else if same_text(name, "max_iterations") {
            self.max_iterations = read_usize(value.as_str());
        } else if same_text(name, "path_precision") {
            self.path_precision = read_u32(value.as_str());
        } else if same_text(name, "color_mode") {
            self.color_mode = Some(value);
        }
    }
}

/// The optimization preset the API's name selects, case-sensitively:
/// `safe`, `none`, and `default` for anything else.
pub open spec fn api_opt_preset(s: Seq<char>) -> OptimizePreset {
    if s == "safe"@ {
        OptimizePreset::Safe
    } else if s == "none"@ {
        OptimizePreset::Off
    } else {
        OptimizePreset::Default
    }
}

/// See `api_opt_preset`.
pub fn opt_preset_named(s: &str) -> (r: OptimizePreset)
    ensures
        r == api_opt_preset(s@),
{
    proof {
        reveal_strlit("safe");
        reveal_strlit("none");
    }
    if same_text(s, "safe") {
        OptimizePreset::Safe
    } else if same_text(s, "none") {
        OptimizePreset::Off
    } else {
        OptimizePreset::Default
    }
}

/// A name given in a field, read by `named`; an unknown name, like a
/// missing field, selects nothing.
pub open spec fn named_or_none<T>(s: Option<String>, named: spec_fn(Seq<char>) -> Option<T>) -> Option<T> {
    match s {
        Some(t) => named(t@),
        None => None,
    }
}

/// The engine name of a request: the field, or `auto`.
pub open spec fn engine_field(p: VectorizeParams) -> Seq<char> {
    match p.engine {
        Some(e) => e@,
        None => "auto"@,
    }
}

/// The configuration a vectorize request's fields give, or `None` where
/// the engine names no engine. Defaults: optimization on with the default
/// preset, no multipass, 10 multipass iterations. Unknown spline preset and
/// mode names are ignored; a profile is applied last.
pub open spec fn params_config(p: VectorizeParams) -> Option<VectorizeConfig> {
    match engine_named(engine_field(p)) {
        None => None,
        Some(engine) => {
            let c = VectorizeConfig {
                engine,
                optimize: or_true(p.optimize),
                optimize_config: OptimizeConfig {
                    preset: match p.optimize_preset {
                        Some(s) => api_opt_preset(s@),
                        None => OptimizePreset::Default,
                    },
                    multipass: p.multipass == Some(true),
                    multipass_iterations: match p.multipass_iterations {
                        Some(n) => n,
                        None => 10,
                    },
                },
                spline_preset: named_or_none(p.preset, |s: Seq<char>| spline_preset_named(s)),
                color_precision: p.color_precision,
                filter_speckle: p.filter_speckle,
                corner_threshold: p.corner_threshold,
                splice_threshold: p.splice_threshold,
                color_mode: named_or_none(p.color_mode, |s: Seq<char>| color_mode_named(s)),
                hierarchical: named_or_none(p.hierarchical, |s: Seq<char>| hierarchical_named(s)),
                path_simplify_mode: named_or_none(p.path_simplify, |s: Seq<char>| path_simplify_named(s)),
                layer_difference: p.layer_difference,
                max_iterations: p.max_iterations,
                path_precision: p.path_precision,
            };
            match p.profile {
                Some(name) => Some(profile_applied(name@, c)),
                None => Some(c),
            }
        },
    }
}

/// A flag's value, `true` where it is missing.
pub open spec fn or_true(b: Option<bool>) -> bool {
    match b {
        Some(v) => v,
        None => true,
    }
}

/// A name read by a parser, an error read as nothing.
fn ok_or_none<T>(r: Result<T, Error>) -> (o: Option<T>)
    ensures
        r matches Ok(v) ==> o == Some(v),
        r is Err ==> o is None,
{
    match r {
        Ok(v) => Some(v),
        Err(_) => None,
    }
}

/// The configuration a vectorize request's fields give (see
/// `params_config`). An unknown engine is a bad request whose message is
/// the engine error's text.
pub fn config_from_params(p: &VectorizeParams) -> (r: Result<VectorizeConfig, Error>)
    ensures
        match params_config(*p) {
            Some(c) => r matches Ok(rc) && rc == c,
            None => r matches Err(Error::BadRequest(m)) && m@ == "Invalid engine: "@ + engine_field(*p),
        },
{
    let engine_text = match &p.engine {
        Some(e) => e.as_str(),
        None => "auto",
    };
    proof {
        reveal_strlit("auto");
    }
    let engine = match Engine::parse(engine_text) {
        Ok(e) => e,
        Err(e) => {
            let m = e.message();
            return Err(Error::BadRequest(m));
        },
    };
    let preset = match &p.optimize_preset {
        Some(s) => opt_preset_named(s.as_str()),
        None => OptimizePreset::Default,
    };
    let spline_preset = match &p.preset {
        Some(s) => ok_or_none(SplinePreset::parse(s.as_str())),
        None => None,
    };
    let color_mode = match &p.color_mode {
        Some(s) => ok_or_none(ColorMode::parse(s.as_str())),
        None => None,
    };
    let hierarchical = match &p.hierarchical {
        Some(s) => ok_or_none(HierarchicalMode::parse(s.as_str())),
        None => None,
    };
    let path_simplify_mode = match &p.path_simplify {
        Some(s) => ok_or_none(PathSimplifyMode::parse(s.as_str())),
        None => None,
    };
    let mut config = VectorizeConfig {
        engine,
        optimize: match p.optimize {
            Some(v) => v,
            None => true,
        },
        optimize_config: OptimizeConfig {
            preset,
            multipass: match p.multipass {
                Some(v) => v,
                None => false,
            },
            multipass_iterations: match p.multipass_iterations {
                Some(n) => n,
                None => 10,
            },
        },
        spline_preset,
        color_precision: p.color_precision,
        filter_speckle: p.filter_speckle,
        corner_threshold: p.corner_threshold,
        splice_threshold: p.splice_threshold,
        color_mode,
        hierarchical,
        path_simplify_mode,
        layer_difference: p.layer_difference,
        max_iterations: p.max_iterations,
        path_precision: p.path_precision,
    };
    if let Some(profile) = &p.profile {
        apply_profile(profile.as_str(), &mut config);
    }
    Ok(config)
}

/// The form fields of an optimize request: the preset name as sent, the
/// multipass flag and iteration count as read (`false` and 10 where
/// missing or unreadable).
pub struct OptimizeParams {
    pub preset: String,
    pub multipass: bool,
    pub multipass_iterations: usize,
}

/// The optimize fields after one more (see `OptimizeParams`).
pub open spec fn with_optimize_field(p: OptimizeParams, name: Seq<char>, value: String) -> OptimizeParams {
    if name == "preset"@ {
        OptimizeParams { preset: value, ..p }
    } else if name == "multipass"@ {
        OptimizeParams { multipass: bool_value(value@) == Some(true), ..p }
    } else if name == "multipass_iterations"@ {
        OptimizeParams {
            multipass_iterations: match usize_value(value@) {
                Some(n) => n,
                None => 10,
            },
            ..p
        }
    } else {
        p
    }
}

impl OptimizeParams {
    /// No field given: preset `default`, no multipass, 10 iterations.
    pub fn new() -> (r: OptimizeParams)
        ensures
            r.preset@ == "default"@,
            !r.multipass,
            r.multipass_iterations == 10,
    {
        OptimizeParams { preset: String::from_str("default"), multipass: false, multipass_iterations: 10 }
    }

    /// Takes one form field (see `with_optimize_field`).
    pub fn set_field(&mut self, name: &str, value: String)
        ensures
            *final(self) == with_optimize_field(*old(self), name@, value),
    {
        proof {
            reveal_strlit("preset");
            reveal_strlit("multipass");
            reveal_strlit("multipass_iterations");
        }
        if same_text(name, "preset") {
            self.preset = value;
        } else if same_text(name, "multipass") {
            self.multipass = match parse_bool(value.as_str()) {
                Some(v) => v,
                None => false,
            };
        } else if same_text(name, "multipass_iterations") {
            self.multipass_iterations = match read_usize(value.as_str()) {
                Some(n) => n,
                None => 10,
            };
        }
    }

    /// The optimization settings the fields give.
    pub fn config(&self) -> (r: OptimizeConfig)
        ensures
            r == (OptimizeConfig {
                preset: api_opt_preset(self.preset@),
                multipass: self.multipass,
                multipass_iterations: self.multipass_iterations,
            }),
    {
        OptimizeConfig {
            preset: opt_preset_named(self.preset.as_str()),
            multipass: self.multipass,
            multipass_iterations: self.multipass_iterations,
        }
    }
}

/// The text of bytes that are not UTF-8, as `FromUtf8Error`'s `Display`
/// writes why.
pub uninterp spec fn utf8_error_text(data: Seq<u8>) -> Seq<char>;

/// `String::from_utf8`: the text where the bytes are UTF-8, else why not
/// (named `utf8_error_text`).
#[verifier::external_body]
fn text_of_bytes(data: Vec<u8>) -> (r: Result<String, String>)
    ensures
        r is Ok <==> vstd::utf8::valid_utf8(data@),
        r matches Ok(s) ==> s@ == vstd::utf8::decode_utf8(data@),
        r matches Err(m) ==> m@ == utf8_error_text(data@),
{
    String::from_utf8(data).map_err(|e| e.to_string())
}

/// What an optimize request answers: the optimized SVG and the sizes, in
/// bytes, before and after. (The reduction in percent is a floating-point
/// quotient of the two sizes; it is left to callers.)
#[derive(Debug)]
pub struct OptimizeOutcome {
    pub svg: String,
    pub original_size: usize,
    pub optimized_size: usize,
}

/// Optimizes an uploaded SVG: bytes that are not UTF-8 are a bad request
/// (`Invalid UTF-8: ` and why); where optimization is undefined (see
/// `optimized`) the error is `Error::Optimization`.
pub fn optimize_upload(data: Vec<u8>, params: &OptimizeParams) -> (r: Result<OptimizeOutcome, Error>)
    ensures
        !vstd::utf8::valid_utf8(data@) ==> (r matches Err(Error::BadRequest(m)) && m@ == "Invalid UTF-8: "@
            + utf8_error_text(data@)),
        vstd::utf8::valid_utf8(data@) ==> ({
            let text = vstd::utf8::decode_utf8(data@);
            let config = OptimizeConfig {
                preset: api_opt_preset(params.preset@),
                multipass: params.multipass,
                multipass_iterations: params.multipass_iterations,
            };
            match optimized(text, config) {
                Some(out) => r matches Ok(o) && o.svg@ == out && o.original_size == utf8_len(text)
                    && o.optimized_size == utf8_len(out),
                None => r matches Err(Error::Optimization(m)) && m@ == optimization_failure(),
            }
        }),
{
    let ghost bytes = data@;
    let text = match text_of_bytes(data) {
        Ok(t) => t,
        Err(why) => {
            let mut m: Vec<char> = Vec::new();
            push_str(&mut m, "Invalid UTF-8: ");
            push_str(&mut m, why.as_str());
            proof {
                assert(m@ =~= "Invalid UTF-8: "@ + utf8_error_text(bytes));
            }
            return Err(Error::BadRequest(string_of(&m)));
        },
    };
    let chars = chars_of(text.as_str());
    let original_size: usize = byte_len(&chars);
    let config = params.config();
    match optimize_text(&chars, &config) {
        Some(out) => {
            let optimized_size: usize = byte_len(&out);
            Ok(OptimizeOutcome { svg: string_of(&out), original_size, optimized_size })
        },
        None => {
            let mut m: Vec<char> = Vec::new();
            push_str(&mut m, "empty-attribute removal would cut a multi-byte character");
            proof {
                assert(m@ =~= optimization_failure());
            }
            Err(Error::Optimization(string_of(&m)))
        },
    }
}

} // verus!

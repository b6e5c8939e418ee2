//! Engine choice and the knobs of vectorization and optimization.
use vstd::prelude::*;
use crate::error::Error;
use crate::image::RgbaImage;
use crate::text::{chars_of, lower_eq, lower_equals, push_str, string_of};

verus! {

/// Which vectorization engine to use.
#[derive(Debug, Clone, Copy, PartialEq, Eq, Structural)]
pub enum Engine {
    /// Pixel-exact, no smoothing. Best for icons, pixel art, screenshots.
    PixelExact,
    /// Spline approximation (vtracer-backed). Best for photos, illustrations.
    Spline,
    /// Auto-select based on image characteristics.
    Auto,
}

/// SVG optimization preset.
#[derive(Debug, Clone, Copy, PartialEq, Eq, Structural)]
pub enum OptimizePreset {
    /// Every pass, including number shortening and empty-attribute removal.
    Default,
    /// Only the passes that leave the drawing untouched.
    Safe,
    /// No optimization (the output is the input).
    Off,
}

/// Optimization configuration.
#[derive(Debug, Clone, Copy, PartialEq, Eq, Structural)]
pub struct OptimizeConfig {
    /// Optimization preset.
    pub preset: OptimizePreset,
    /// Run optimization until output stabilizes.
    pub multipass: bool,
    /// Maximum multipass iterations.
    pub multipass_iterations: usize,
}

impl Default for Engine {
    fn default() -> (r: Engine)
        ensures
            r == Engine::Auto,
    {
        Engine::Auto
    }
}

impl Default for OptimizePreset {
    fn default() -> (r: OptimizePreset)
        ensures
            r == OptimizePreset::Default,
    {
        OptimizePreset::Default
    }
}

impl Default for OptimizeConfig {
    fn default() -> (r: OptimizeConfig)
        ensures
            r == (OptimizeConfig { preset: OptimizePreset::Default, multipass: false, multipass_iterations: 0 }),
    {
        OptimizeConfig { preset: OptimizePreset::Default, multipass: false, multipass_iterations: 0 }
    }
}

/// vtracer presets, exposed for convenience.
#[derive(Debug, Clone, Copy, PartialEq, Eq, Structural)]
pub enum SplinePreset {
    /// Black and white.
    Bw,
    /// Few flat colors.
    Poster,
    /// Many colors.
    Photo,
}

/// Hierarchical mode for the spline engine.
#[derive(Debug, Clone, Copy, PartialEq, Eq, Structural)]
pub enum HierarchicalMode {
    /// Shapes stacked on top of each other.
    Stacked,
    /// Shapes cut out of each other.
    Cutout,
}

/// Path simplification mode for the spline engine.
#[derive(Debug, Clone, Copy, PartialEq, Eq, Structural)]
pub enum PathSimplifyMode {
    /// Smooth curves.
    Spline,
    /// Straight segments.
    Polygon,
    /// No simplification.
    Off,
}

/// Color mode for the spline engine.
#[derive(Debug, Clone, Copy, PartialEq, Eq, Structural)]
pub enum ColorMode {
    /// Keep colors.
    Color,
    /// Black and white.
    Binary,
}

impl Default for SplinePreset {
    fn default() -> (r: SplinePreset)
        ensures
            r == SplinePreset::Photo,
    {
        SplinePreset::Photo
    }
}

impl Default for HierarchicalMode {
    fn default() -> (r: HierarchicalMode)
        ensures
            r == HierarchicalMode::Stacked,
    {
        HierarchicalMode::Stacked
    }
}

impl Default for PathSimplifyMode {
    fn default() -> (r: PathSimplifyMode)
        ensures
            r == PathSimplifyMode::Spline,
    {
        PathSimplifyMode::Spline
    }
}

impl Default for ColorMode {
    fn default() -> (r: ColorMode)
        ensures
            r == ColorMode::Color,
    {
        ColorMode::Color
    }
}

/// Full vectorization configuration. (The minimum path length of the spline
/// engine is a floating-point knob and is not held here: the spline engine
/// uses vtracer's own value.)
#[derive(Debug, Clone)]
pub struct VectorizeConfig {
    /// Which engine to use.
    pub engine: Engine,
    /// Whether to optimize the output SVG.
    pub optimize: bool,
    /// Optimization settings.
    pub optimize_config: OptimizeConfig,
    /// vtracer preset (overrides individual params).
    pub spline_preset: Option<SplinePreset>,
    /// Color quantization precision. Higher = more colors preserved.
    pub color_precision: Option<i32>,
    /// Filter speckle noise smaller than this.
    pub filter_speckle: Option<usize>,
    /// Corner detection threshold.
    pub corner_threshold: Option<i32>,
    /// Path splice threshold.
    pub splice_threshold: Option<i32>,
    /// Hierarchical mode (stacked/cutout).
    pub hierarchical: Option<HierarchicalMode>,
    /// Path simplification mode.
    pub path_simplify_mode: Option<PathSimplifyMode>,
    /// Layer difference threshold.
    pub layer_difference: Option<i32>,
    /// Maximum color quantization iterations.
    pub max_iterations: Option<usize>,
    /// Path coordinate precision (decimal places).
    pub path_precision: Option<u32>,
    /// Color mode for vtracer.
    pub color_mode: Option<ColorMode>,
}

/// The default configuration: automatic engine, default optimization (one
/// pass, 10 multipass iterations when enabled), no spline overrides.
pub open spec fn default_config() -> VectorizeConfig {
    VectorizeConfig {
        engine: Engine::Auto,
        optimize: true,
        optimize_config: OptimizeConfig {
            preset: OptimizePreset::Default,
            multipass: false,
            multipass_iterations: 10,
        },
        spline_preset: None,
        color_precision: None,
        filter_speckle: None,
        corner_threshold: None,
        splice_threshold: None,
        hierarchical: None,
        path_simplify_mode: None,
        layer_difference: None,
        max_iterations: None,
        path_precision: None,
        color_mode: None,
    }
}

impl Default for VectorizeConfig {
    fn default() -> (r: VectorizeConfig)
        ensures
            r == default_config(),
    {
        VectorizeConfig {
            engine: Engine::Auto,
            optimize: true,
            optimize_config: OptimizeConfig {
                preset: OptimizePreset::Default,
                multipass: false,
                multipass_iterations: 10,
            },
            spline_preset: None,
            color_precision: None,
            filter_speckle: None,
            corner_threshold: None,
            splice_threshold: None,
            hierarchical: None,
            path_simplify_mode: None,
            layer_difference: None,
            max_iterations: None,
            path_precision: None,
            color_mode: None,
        }
    }
}

/// A vectorization request.
pub struct VectorizeRequest {
    /// The input image (RGBA).
    pub image: RgbaImage,
    /// Configuration.
    pub config: VectorizeConfig,
}

impl VectorizeRequest {
    /// A request with the default configuration.
    pub fn new(image: RgbaImage) -> (r: VectorizeRequest)
        ensures
            r.image == image,
            r.config == default_config(),
    {
        VectorizeRequest { image, config: VectorizeConfig::default() }
    }

    /// Sets the engine.
    pub fn with_engine(self, engine: Engine) -> (r: VectorizeRequest)
        ensures
            r.image == self.image,
            r.config == (VectorizeConfig { engine, ..self.config }),
    {
        let mut s = self;
        s.config.engine = engine;
        s
    }

    /// Turns optimization on or off.
    pub fn with_optimize(self, optimize: bool) -> (r: VectorizeRequest)
        ensures
            r.image == self.image,
            r.config == (VectorizeConfig { optimize, ..self.config }),
    {
        let mut s = self;
        s.config.optimize = optimize;
        s
    }

    /// Sets the optimization settings.
    pub fn with_optimize_config(self, config: OptimizeConfig) -> (r: VectorizeRequest)
        ensures
            r.image == self.image,
            r.config == (VectorizeConfig { optimize_config: config, ..self.config }),
    {
        let mut s = self;
        s.config.optimize_config = config;
        s
    }

    /// Sets the whole configuration.
    pub fn with_config(self, config: VectorizeConfig) -> (r: VectorizeRequest)
        ensures
            r.image == self.image,
            r.config == config,
    {
        let mut s = self;
        s.config = config;
        s
    }
}

/// The configuration after applying the named profile (matched without
/// regard to case); unknown names leave it unchanged.
pub open spec fn profile_applied(name: Seq<char>, c: VectorizeConfig) -> VectorizeConfig {
    if lower_eq(name, "icon"@) {
        VectorizeConfig {
            engine: Engine::Spline,
            color_precision: Some(4),
            filter_speckle: Some(2),
            corner_threshold: Some(80),
            splice_threshold: Some(30),
            color_mode: Some(ColorMode::Color),
            path_simplify_mode: Some(PathSimplifyMode::Spline),
            layer_difference: Some(10),
            max_iterations: Some(4),
            ..c
        }
    } else if lower_eq(name, "logo"@) {
        VectorizeConfig {
            engine: Engine::Spline,
            color_precision: Some(8),
            filter_speckle: Some(4),
            corner_threshold: Some(90),
            splice_threshold: Some(45),
            color_mode: Some(ColorMode::Color),
            path_simplify_mode: Some(PathSimplifyMode::Spline),
            hierarchical: Some(HierarchicalMode::Cutout),
            layer_difference: Some(5),
            max_iterations: Some(4),
            ..c
        }
    } else if lower_eq(name, "photo"@) {
        VectorizeConfig {
            engine: Engine::Spline,
            color_precision: Some(10),
            filter_speckle: Some(4),
            corner_threshold: Some(40),
            splice_threshold: Some(45),
            color_mode: Some(ColorMode::Color),
            path_simplify_mode: Some(PathSimplifyMode::Spline),
            hierarchical: Some(HierarchicalMode::Stacked),
            layer_difference: Some(5),
            max_iterations: Some(2),
            ..c
        }
    } else if lower_eq(name, "lineart"@) {
        VectorizeConfig {
            engine: Engine::Spline,
            color_precision: Some(2),
            filter_speckle: Some(8),
            corner_threshold: Some(30),
            splice_threshold: Some(60),
            color_mode: Some(ColorMode::Binary),
            path_simplify_mode: Some(PathSimplifyMode::Spline),
            hierarchical: Some(HierarchicalMode::Cutout),
            layer_difference: Some(10),
            max_iterations: Some(2),
            ..c
        }
    } else {
        c
    }
}

/// Applies a named profile preset (`icon`, `logo`, `photo`, `lineart`) to a
/// configuration; profiles override individual spline parameters and select
/// the spline engine. Unknown names are ignored.
pub fn apply_profile(name: &str, config: &mut VectorizeConfig)
    ensures
        *final(config) == profile_applied(name@, *old(config)),
{
    let n = chars_of(name);
    if lower_equals(&n, "icon") {
        config.engine = Engine::Spline;
        config.color_precision = Some(4);
        config.filter_speckle = Some(2);
        config.corner_threshold = Some(80);
        config.splice_threshold = Some(30);
        config.color_mode = Some(ColorMode::Color);
        config.path_simplify_mode = Some(PathSimplifyMode::Spline);
        config.layer_difference = Some(10);
        config.max_iterations = Some(4);
    } else if lower_equals(&n, "logo") {
        config.engine = Engine::Spline;
        config.color_precision = Some(8);
        config.filter_speckle = Some(4);
        config.corner_threshold = Some(90);
        config.splice_threshold = Some(45);
        config.color_mode = Some(ColorMode::Color);
        config.path_simplify_mode = Some(PathSimplifyMode::Spline);
        config.hierarchical = Some(HierarchicalMode::Cutout);
        config.layer_difference = Some(5);
        config.max_iterations = Some(4);
    } else if lower_equals(&n, "photo") {
        config.engine = Engine::Spline;
        config.color_precision = Some(10);
        config.filter_speckle = Some(4);
        config.corner_threshold = Some(40);
        config.splice_threshold = Some(45);
        config.color_mode = Some(ColorMode::Color);
        config.path_simplify_mode = Some(PathSimplifyMode::Spline);
        config.hierarchical = Some(HierarchicalMode::Stacked);
        config.layer_difference = Some(5);
        config.max_iterations = Some(2);
    } else if lower_equals(&n, "lineart") {
        config.engine = Engine::Spline;
        config.color_precision = Some(2);
        config.filter_speckle = Some(8);
        config.corner_threshold = Some(30);
        config.splice_threshold = Some(60);
        config.color_mode = Some(ColorMode::Binary);
        config.path_simplify_mode = Some(PathSimplifyMode::Spline);
        config.hierarchical = Some(HierarchicalMode::Cutout);
        config.layer_difference = Some(10);
        config.max_iterations = Some(2);
    }
}

/// An `InvalidConfig` error whose message is `prefix` followed by `s`.
fn unknown_value(prefix: &str, s: &str) -> (e: Error)
    ensures
        e matches Error::InvalidConfig(m) && m@ == prefix@ + s@,
{
    let mut v: Vec<char> = Vec::new();
    push_str(&mut v, prefix);
    push_str(&mut v, s);
    proof {
        assert(v@ =~= prefix@ + s@);
    }
    Error::InvalidConfig(string_of(&v))
}

/// The engine a name selects, ignoring case.
pub open spec fn engine_named(s: Seq<char>) -> Option<Engine> {
    if lower_eq(s, "pixel-exact"@) || lower_eq(s, "pixel_exact"@) || lower_eq(s, "exact"@) {
        Some(Engine::PixelExact)
    } else if lower_eq(s, "spline"@) || lower_eq(s, "curve"@) {
        Some(Engine::Spline)
    } else if lower_eq(s, "auto"@) {
        Some(Engine::Auto)
    } else {
        None
    }
}

/// The name an engine is written with.
pub open spec fn engine_text(e: Engine) -> Seq<char> {
    match e {
        Engine::PixelExact => "pixel-exact"@,
        Engine::Spline => "spline"@,
        Engine::Auto => "auto"@,
    }
}

impl Engine {
    /// Parses an engine name (see `engine_named`).
    pub fn parse(s: &str) -> (r: Result<Engine, Error>)
        ensures
            match engine_named(s@) {
                Some(e) => r == Ok::<Engine, Error>(e),
                None => r matches Err(Error::InvalidEngine(m)) && m@ == s@,
            },
    {
        let v = chars_of(s);
        if lower_equals(&v, "pixel-exact") || lower_equals(&v, "pixel_exact") || lower_equals(&v, "exact") {
            Ok(Engine::PixelExact)
        } else if lower_equals(&v, "spline") || lower_equals(&v, "curve") {
            Ok(Engine::Spline)
        } else if lower_equals(&v, "auto") {
            Ok(Engine::Auto)
        } else {
            Err(Error::InvalidEngine(string_of(&v)))
        }
    }

    /// The engine's name, as `Display` writes it.
    pub fn to_string(&self) -> (r: String)
        ensures
            r@ == engine_text(*self),
    {
        let s = match self {
            Engine::PixelExact => "pixel-exact",
            Engine::Spline => "spline",
            Engine::Auto => "auto",
        };
        string_of(&chars_of(s))
    }
}

/// The color mode a name selects, ignoring case.
pub open spec fn color_mode_named(s: Seq<char>) -> Option<ColorMode> {
    if lower_eq(s, "color"@) {
        Some(ColorMode::Color)
    } else if lower_eq(s, "binary"@) || lower_eq(s, "bw"@) {
        Some(ColorMode::Binary)
    } else {
        None
    }
}

impl ColorMode {
    /// Parses a color mode name (see `color_mode_named`).
    pub fn parse(s: &str) -> (r: Result<ColorMode, Error>)
        ensures
            match color_mode_named(s@) {
                Some(m) => r == Ok::<ColorMode, Error>(m),
                None => r matches Err(Error::InvalidConfig(m)) && m@ == "Unknown color mode: "@ + s@,
            },
    {
        let v = chars_of(s);
        if lower_equals(&v, "color") {
            Ok(ColorMode::Color)
        } else if lower_equals(&v, "binary") || lower_equals(&v, "bw") {
            Ok(ColorMode::Binary)
        } else {
            Err(unknown_value("Unknown color mode: ", s))
        }
    }
}

/// The hierarchical mode a name selects, ignoring case.
pub open spec fn hierarchical_named(s: Seq<char>) -> Option<HierarchicalMode> {
    if lower_eq(s, "stacked"@) {
        Some(HierarchicalMode::Stacked)
    } else if lower_eq(s, "cutout"@) {
        Some(HierarchicalMode::Cutout)
    } else {
        None
    }
}

impl HierarchicalMode {
    /// Parses a hierarchical mode name (see `hierarchical_named`).
    pub fn parse(s: &str) -> (r: Result<HierarchicalMode, Error>)
        ensures
            match hierarchical_named(s@) {
                Some(m) => r == Ok::<HierarchicalMode, Error>(m),
                None => r matches Err(Error::InvalidConfig(m)) && m@ == "Unknown hierarchical mode: "@ + s@,
            },
    {
        let v = chars_of(s);
        if lower_equals(&v, "stacked") {
            Ok(HierarchicalMode::Stacked)
        } else if lower_equals(&v, "cutout") {
            Ok(HierarchicalMode::Cutout)
        } else {
            Err(unknown_value("Unknown hierarchical mode: ", s))
        }
    }
}

/// The path simplification mode a name selects, ignoring case.
pub open spec fn path_simplify_named(s: Seq<char>) -> Option<PathSimplifyMode> {
    if lower_eq(s, "spline"@) {
        Some(PathSimplifyMode::Spline)
    } else if lower_eq(s, "polygon"@) {
        Some(PathSimplifyMode::Polygon)
    } else if lower_eq(s, "none"@) {
        Some(PathSimplifyMode::Off)
    } else {
        None
    }
}

impl PathSimplifyMode {
    /// Parses a path simplification mode name (see `path_simplify_named`).
    pub fn parse(s: &str) -> (r: Result<PathSimplifyMode, Error>)
        ensures
            match path_simplify_named(s@) {
                Some(m) => r == Ok::<PathSimplifyMode, Error>(m),
                None => r matches Err(Error::InvalidConfig(m)) && m@ == "Unknown path simplify mode: "@ + s@,
            },
    {
        let v = chars_of(s);
        if lower_equals(&v, "spline") {
            Ok(PathSimplifyMode::Spline)
        } else if lower_equals(&v, "polygon") {
            Ok(PathSimplifyMode::Polygon)
        } else if lower_equals(&v, "none") {
            Ok(PathSimplifyMode::Off)
        } else {
            Err(unknown_value("Unknown path simplify mode: ", s))
        }
    }
}

/// The spline preset a name selects, ignoring case.
pub open spec fn spline_preset_named(s: Seq<char>) -> Option<SplinePreset> {
    if lower_eq(s, "bw"@) {
        Some(SplinePreset::Bw)
    } else if lower_eq(s, "poster"@) {
        Some(SplinePreset::Poster)
    } else if lower_eq(s, "photo"@) {
        Some(SplinePreset::Photo)
    } else {
        None
    }
}

impl SplinePreset {
    /// Parses a spline preset name (see `spline_preset_named`).
    pub fn parse(s: &str) -> (r: Result<SplinePreset, Error>)
        ensures
            match spline_preset_named(s@) {
                Some(m) => r == Ok::<SplinePreset, Error>(m),
                None => r matches Err(Error::InvalidConfig(m)) && m@ == "Unknown spline preset: "@ + s@,
            },
    {
        let v = chars_of(s);
        if lower_equals(&v, "bw") {
            Ok(SplinePreset::Bw)
        } else if lower_equals(&v, "poster") {
            Ok(SplinePreset::Poster)
        } else if lower_equals(&v, "photo") {
            Ok(SplinePreset::Photo)
        } else {
            Err(unknown_value("Unknown spline preset: ", s))
        }
    }
}

impl std::str::FromStr for Engine {
    type Err = Error;

    fn from_str(s: &str) -> (r: Result<Engine, Error>)
        ensures
            match engine_named(s@) {
                Some(e) => r == Ok::<Engine, Error>(e),
                None => r matches Err(Error::InvalidEngine(m)) && m@ == s@,
            },
    {
        Engine::parse(s)
    }
}

impl std::str::FromStr for ColorMode {
    type Err = Error;

    fn from_str(s: &str) -> (r: Result<ColorMode, Error>)
        ensures
            match color_mode_named(s@) {
                Some(m) => r == Ok::<ColorMode, Error>(m),
                None => r matches Err(Error::InvalidConfig(m)) && m@ == "Unknown color mode: "@ + s@,
            },
    {
        ColorMode::parse(s)
    }
}

impl std::str::FromStr for HierarchicalMode {
    type Err = Error;

    fn from_str(s: &str) -> (r: Result<HierarchicalMode, Error>)
        ensures
            match hierarchical_named(s@) {
                Some(m) => r == Ok::<HierarchicalMode, Error>(m),
                None => r matches Err(Error::InvalidConfig(m)) && m@ == "Unknown hierarchical mode: "@ + s@,
            },
    {
        HierarchicalMode::parse(s)
    }
}

impl std::str::FromStr for PathSimplifyMode {
    type Err = Error;

    fn from_str(s: &str) -> (r: Result<PathSimplifyMode, Error>)
        ensures
            match path_simplify_named(s@) {
                Some(m) => r == Ok::<PathSimplifyMode, Error>(m),
                None => r matches Err(Error::InvalidConfig(m)) && m@ == "Unknown path simplify mode: "@ + s@,
            },
    {
        PathSimplifyMode::parse(s)
    }
}

impl std::str::FromStr for SplinePreset {
    type Err = Error;

    fn from_str(s: &str) -> (r: Result<SplinePreset, Error>)
        ensures
            match spline_preset_named(s@) {
                Some(m) => r == Ok::<SplinePreset, Error>(m),
                None => r matches Err(Error::InvalidConfig(m)) && m@ == "Unknown spline preset: "@ + s@,
            },
    {
        SplinePreset::parse(s)
    }
}

/// An engine's name reads back as that engine (`to_string` then `parse`).
pub proof fn law_engine_name_round_trip(e: Engine)
    ensures
        engine_named(engine_text(e)) == Some(e),
{
    reveal_strlit("pixel-exact");
    reveal_strlit("pixel_exact");
    reveal_strlit("exact");
    reveal_strlit("spline");
    reveal_strlit("curve");
    reveal_strlit("auto");
    match e {
        Engine::PixelExact => {
            assert(lower_eq("pixel-exact"@, "pixel-exact"@));
        },
        Engine::Spline => {
            assert(lower_eq("spline"@, "spline"@));
        },
        Engine::Auto => {
            assert(lower_eq("auto"@, "auto"@));
        },
    }
}

/// A name is one of the four profiles (ignoring case).
pub open spec fn known_profile(name: Seq<char>) -> bool {
    lower_eq(name, "icon"@) || lower_eq(name, "logo"@) || lower_eq(name, "photo"@) || lower_eq(name, "lineart"@)
}

/// Profiles: an unknown name leaves the configuration as it is; a known one
/// selects the spline engine, leaves the optimization settings alone, and
/// applying it twice is applying it once.
pub proof fn law_profiles(name: Seq<char>, c: VectorizeConfig)
    ensures
        !known_profile(name) ==> profile_applied(name, c) == c,
        known_profile(name) ==> profile_applied(name, c).engine == Engine::Spline,
        profile_applied(name, c).optimize == c.optimize,
        profile_applied(name, c).optimize_config == c.optimize_config,
        profile_applied(name, profile_applied(name, c)) == profile_applied(name, c),
{
}

} // verus!

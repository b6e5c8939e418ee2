//! Output format conversion: SVG as is, SVG to PDF (svg2pdf), SVG to EPS.
//!
//! SVG parsing is usvg's. For EPS the parsed tree is read into `SvgNode`s,
//! whose numbers are already written out as PostScript will show them; the
//! PostScript program is then assembled here.
use vstd::prelude::*;
use crate::error::Error;
use crate::text::{chars_of, digit_char, fold_code, lower_eq, lower_equals, push_str, string_of};
use usvg::tiny_skia_path::PathSegment;

verus! {

/// Supported output formats.
#[derive(Debug, Clone, Copy, PartialEq, Eq, Structural)]
pub enum OutputFormat {
    Svg,
    Pdf,
    Eps,
}

impl Default for OutputFormat {
    fn default() -> (r: OutputFormat)
        ensures
            r == OutputFormat::Svg,
    {
        OutputFormat::Svg
    }
}

/// The format a name selects, ignoring case.
pub open spec fn format_named(s: Seq<char>) -> Option<OutputFormat> {
    if lower_eq(s, "svg"@) {
        Some(OutputFormat::Svg)
    } else if lower_eq(s, "pdf"@) {
        Some(OutputFormat::Pdf)
    } else if lower_eq(s, "eps"@) {
        Some(OutputFormat::Eps)
    } else {
        None
    }
}

/// The MIME content type of a format.
pub open spec fn content_type_of(f: OutputFormat) -> Seq<char> {
    match f {
        OutputFormat::Svg => "image/svg+xml"@,
        OutputFormat::Pdf => "application/pdf"@,
        OutputFormat::Eps => "application/eps"@,
    }
}

/// The file extension of a format.
pub open spec fn extension_of(f: OutputFormat) -> Seq<char> {
    match f {
        OutputFormat::Svg => "svg"@,
        OutputFormat::Pdf => "pdf"@,
        OutputFormat::Eps => "eps"@,
    }
}

impl OutputFormat {
    /// Parses a format name (see `format_named`).
    pub fn parse(s: &str) -> (r: Result<OutputFormat, Error>)
        ensures
            match format_named(s@) {
                Some(f) => r == Ok::<OutputFormat, Error>(f),
                None => r matches Err(Error::InvalidConfig(m)) && m@ == "Unknown output format: "@ + s@
                    + ". Use: svg, pdf, eps"@,
            },
    {
        let v = chars_of(s);
        if lower_equals(&v, "svg") {
            Ok(OutputFormat::Svg)
        } else if lower_equals(&v, "pdf") {
            Ok(OutputFormat::Pdf)
        } else if lower_equals(&v, "eps") {
            Ok(OutputFormat::Eps)
        } else {
            let mut m: Vec<char> = Vec::new();
            push_str(&mut m, "Unknown output format: ");
            push_str(&mut m, s);
            push_str(&mut m, ". Use: svg, pdf, eps");
            proof {
                assert(m@ =~= "Unknown output format: "@ + s@ + ". Use: svg, pdf, eps"@);
            }
            Err(Error::InvalidConfig(string_of(&m)))
        }
    }

    /// MIME content type for HTTP responses.
    pub fn content_type(&self) -> (r: &'static str)
        ensures
            r@ == content_type_of(*self),
    {
        match self {
            OutputFormat::Svg => "image/svg+xml",
            OutputFormat::Pdf => "application/pdf",
            OutputFormat::Eps => "application/eps",
        }
    }

    /// File extension.
    pub fn extension(&self) -> (r: &'static str)
        ensures
            r@ == extension_of(*self),
    {
        match self {
            OutputFormat::Svg => "svg",
            OutputFormat::Pdf => "pdf",
            OutputFormat::Eps => "eps",
        }
    }
}

impl std::str::FromStr for OutputFormat {
    type Err = Error;

    fn from_str(s: &str) -> (r: Result<OutputFormat, Error>)
        ensures
            match format_named(s@) {
                Some(f) => r == Ok::<OutputFormat, Error>(f),
                None => r matches Err(Error::InvalidConfig(m)) && m@ == "Unknown output format: "@ + s@
                    + ". Use: svg, pdf, eps"@,
            },
    {
        OutputFormat::parse(s)
    }
}

/// One drawing command of a path; each `String` holds its coordinates as
/// PostScript shows them: `x y` pairs with four decimals, space-separated.
/// A quadratic segment keeps only its end point.
#[derive(Debug)]
pub enum Segment {
    MoveTo(String),
    LineTo(String),
    QuadTo(String),
    CubicTo(String),
    Close,
}

/// A fill with a plain color.
#[derive(Debug)]
pub struct FillPaint {
    pub red: u8,
    pub green: u8,
    pub blue: u8,
    /// The IEEE-754 bits of the opacity, a number within `[0, 1]`.
    pub opacity_bits: u32,
    /// The opacity with four decimals.
    pub opacity: String,
}

/// A stroke with a plain color.
#[derive(Debug)]
pub struct StrokePaint {
    pub red: u8,
    pub green: u8,
    pub blue: u8,
    /// The stroke width with four decimals.
    pub width: String,
}

/// A path of the parsed SVG: its absolute transform (whether it is the
/// identity, and its six components `sx ky kx sy tx ty` as `Display` writes
/// them), its segments, and its fill and stroke where they are plain colors.
#[derive(Debug)]
pub struct PathShape {
    pub identity: bool,
    pub transform: String,
    pub segments: Vec<Segment>,
    pub fill: Option<FillPaint>,
    pub stroke: Option<StrokePaint>,
}

/// A node of the parsed SVG: a group with its children, a path, or anything
/// else (image, text).
#[derive(Debug)]
pub enum SvgNode {
    Group(Vec<SvgNode>),
    Path(PathShape),
    Other,
}

/// The bits of the single-precision `1.0`.
pub open spec fn one_bits() -> u32 {
    0x3f80_0000
}

/// `c / 255` with four decimals: the quotient rounded to the nearest
/// ten-thousandth (no quotient is within a two-thousandth of a unit of a
/// tie), as `d.dddd`.
pub open spec fn unit_fraction_text(c: u8) -> Seq<char> {
    let n = (c as int * 20000 + 255) / 510;
    seq![
        digit_char(n / 10000),
        '.',
        digit_char((n / 1000) % 10),
        digit_char((n / 100) % 10),
        digit_char((n / 10) % 10),
        digit_char(n % 10),
    ]
}

/// Why usvg refuses an SVG text with its default options, as its error's
/// `Display` writes it; `None` where it parses.
pub uninterp spec fn usvg_parse_error(svg: Seq<char>) -> Option<Seq<char>>;

/// The drawing usvg parses from an SVG text with its default options: its
/// width and height with two decimals and the root's children, read into
/// `SvgNode`s.
pub uninterp spec fn usvg_drawing(svg: Seq<char>) -> (Seq<char>, Seq<char>, Seq<SvgNode>);

/// The text holds `image`: an `<image>` element or an image filter may then
/// name a file, which usvg reads from disk with its default options, so the
/// parsed drawing may depend on more than the text.
pub open spec fn mentions_image(svg: Seq<char>) -> bool {
    crate::text::find(svg, "image"@) is Some
}

/// The PostScript of one segment.
pub open spec fn ps_segment(s: Segment) -> Seq<char> {
    match s {
        Segment::MoveTo(t) => t@ + " moveto\n"@,
        Segment::LineTo(t) => t@ + " lineto\n"@,
        Segment::QuadTo(t) => t@ + " lineto\n"@,
        Segment::CubicTo(t) => t@ + " curveto\n"@,
        Segment::Close => "closepath\n"@,
    }
}

/// The PostScript of a run of segments.
pub open spec fn ps_segments(s: Seq<Segment>) -> Seq<char>
    decreases s.len(),
{
    if s.len() == 0 {
        seq![]
    } else {
        ps_segments(s.drop_last()) + ps_segment(s.last())
    }
}

/// `setrgbcolor` for a color, each channel as a fraction of 255.
pub open spec fn ps_color(r: u8, g: u8, b: u8) -> Seq<char> {
    unit_fraction_text(r) + " "@ + unit_fraction_text(g) + " "@ + unit_fraction_text(b) + " setrgbcolor\n"@
}

/// The PostScript that fills a path: its color, its opacity when below one,
/// then `fill`.
pub open spec fn ps_fill(f: Option<FillPaint>) -> Seq<char> {
    match f {
        Some(p) => ps_color(p.red, p.green, p.blue) + (if p.opacity_bits != one_bits() {
            p.opacity@ + " setopacity\n"@
        } else {
            seq![]
        }) + "fill\n"@,
        None => seq![],
    }
}

/// The PostScript that strokes a path: its width, its color, then `stroke`.
pub open spec fn ps_stroke(s: Option<StrokePaint>) -> Seq<char> {
    match s {
        Some(p) => p.width@ + " setlinewidth\n"@ + ps_color(p.red, p.green, p.blue) + "stroke\n"@,
        None => seq![],
    }
}

/// The path itself (`newpath` and its segments), then fill and stroke.
pub open spec fn ps_path_body(p: PathShape) -> Seq<char> {
    "newpath\n"@ + ps_segments(p.segments@) + ps_fill(p.fill) + ps_stroke(p.stroke)
}

/// The PostScript of a path: the path itself, then fill and stroke; a path
/// with a transform other than the identity is drawn between `gsave` and
/// `grestore` under that transform (`concat`), so the transform ends with it.
pub open spec fn ps_path(p: PathShape) -> Seq<char> {
    let body = ps_path_body(p);
    if p.identity {
        body
    } else {
        "gsave\n["@ + p.transform@ + "] concat\n"@ + body + "grestore\n"@
    }
}

/// The PostScript of a node: paths are drawn, groups draw their children in
/// order, anything else is skipped.
pub open spec fn ps_node(n: SvgNode) -> Seq<char>
    decreases n,
{
    match n {
        SvgNode::Path(p) => ps_path(p),
        SvgNode::Group(children) => ps_nodes(children@),
        SvgNode::Other => seq![],
    }
}

/// The PostScript of a run of nodes.
pub open spec fn ps_nodes(ns: Seq<SvgNode>) -> Seq<char>
    decreases ns,
{
    if ns.len() == 0 {
        seq![]
    } else {
        ps_nodes(ns.subrange(0, ns.len() - 1)) + ps_node(ns[ns.len() - 1])
    }
}

/// The EPS document for a drawing of the given size (both with two
/// decimals): header with bounding box, a flip from SVG's top-left origin to
/// PostScript's bottom-left, the nodes, and the trailer.
pub open spec fn eps_text(width: Seq<char>, height: Seq<char>, nodes: Seq<SvgNode>) -> Seq<char> {
    "%!PS-Adobe-3.0 EPSF-3.0\n"@ + "%%BoundingBox: 0 0 "@ + width + " "@ + height + "\n"@
        + "%%EndComments\n\n"@ + "0.00 "@ + height + " translate\n"@ + "1 -1 scale\n\n"@
        + ps_nodes(nodes) + "\nshowpage\n%%EOF\n"@
}

/// `usvg::Tree`, the parsed SVG.
#[verifier::external_type_specification]
#[verifier::external_body]
pub struct ExTree(usvg::Tree);

/// `usvg::Node`, a node of the parsed SVG.
#[verifier::external_type_specification]
#[verifier::external_body]
pub struct ExNode(usvg::Node);

/// `usvg::Path`, a path of the parsed SVG.
#[verifier::external_type_specification]
#[verifier::external_body]
pub struct ExPath(usvg::Path);

/// `usvg::Fill`, a path's fill.
#[verifier::external_type_specification]
#[verifier::external_body]
pub struct ExFill(usvg::Fill);

/// `usvg::Stroke`, a path's stroke.
#[verifier::external_type_specification]
#[verifier::external_body]
pub struct ExStroke(usvg::Stroke);

/// `PathSegment` of tiny-skia's path data, as usvg re-exports it.
#[verifier::external_type_specification]
#[verifier::external_body]
pub struct ExPathSegment(PathSegment);

/// `usvg::Tree::from_str` with `usvg::Options::default()`, its error written
/// out by `Display`, and the parsed tree read as a drawing: `Tree::size`
/// with two decimals, and the root's children (`Tree::root`,
/// `Group::children`) read into `SvgNode`s. Whether and why it fails
/// depends on the text alone (named `usvg_parse_error`). The drawing is
/// named `usvg_drawing` for texts that do not mention `image`; where one
/// does, usvg may load files, and nothing is stated of the drawing.
#[verifier::external_body]
fn parse_svg(svg: &str) -> (r: Result<(usvg::Tree, String, String, Vec<SvgNode>), String>)
    ensures
        r is Ok <==> usvg_parse_error(svg@) is None,
        r matches Err(m) ==> usvg_parse_error(svg@) == Some(m@),
        r matches Ok(d) ==> (!mentions_image(svg@) ==> usvg_drawing(svg@) == (d.1@, d.2@, d.3@)),
{
    match usvg::Tree::from_str(svg, &usvg::Options::default()) {
        Ok(t) => {
            let w = format!("{:.2}", t.size().width());
            let h = format!("{:.2}", t.size().height());
            let nodes = t.root().children().iter().map(node_model).collect();
            Ok((t, w, h, nodes))
        },
        Err(e) => Err(e.to_string()),
    }
}

/// `svg2pdf::to_pdf` with default conversion and page options, its error
/// written out by `Display`. From pdf-writer's source, a document starts
/// with the header `%PDF-1.7` and a newline. Nothing else is stated, and
/// the document gets no name: svg2pdf writes a page's resource
/// dictionaries (graphics states for opacity among them) and its fonts by
/// walking `HashMap`s, whose order is seeded anew in each process, so the
/// bytes are not a function of the drawing alone.
#[verifier::external_body]
fn render_pdf(tree: &usvg::Tree) -> (r: Result<Vec<u8>, String>)
    ensures
        r matches Ok(b) ==> b@.len() >= 9 && b@.take(9) == seq![37u8, 80, 68, 70, 45, 49, 46, 55, 10],
{
    svg2pdf::to_pdf(tree, svg2pdf::ConversionOptions::default(), svg2pdf::PageOptions::default())
        .map_err(|e| e.to_string())
}

/// A `usvg::Node` read into an `SvgNode`, groups with their children;
/// nothing is stated of the result.
#[verifier::external_body]
fn node_model(node: &usvg::Node) -> SvgNode {
    match node {
        usvg::Node::Group(g) => SvgNode::Group(g.children().iter().map(node_model).collect()),
        usvg::Node::Path(p) => SvgNode::Path(path_model(p)),
        _ => SvgNode::Other,
    }
}

/// A `usvg::Path` read into a `PathShape`: `abs_transform` (its
/// `is_identity` and components), `data().segments()`, `fill()`, `stroke()`;
/// nothing is stated of the result.
#[verifier::external_body]
fn path_model(p: &usvg::Path) -> PathShape {
    let t = p.abs_transform();
    PathShape {
        identity: t.is_identity(),
        transform: format!("{} {} {} {} {} {}", t.sx, t.ky, t.kx, t.sy, t.tx, t.ty),
        segments: p.data().segments().map(segment_model).collect(),
        fill: p.fill().and_then(fill_model),
        stroke: p.stroke().and_then(stroke_model),
    }
}

/// A path segment read into a `Segment`, coordinates with four decimals;
/// nothing is stated of the result.
#[verifier::external_body]
fn segment_model(seg: PathSegment) -> Segment {
    match seg {
        PathSegment::MoveTo(p) => Segment::MoveTo(format!("{:.4} {:.4}", p.x, p.y)),
        PathSegment::LineTo(p) => Segment::LineTo(format!("{:.4} {:.4}", p.x, p.y)),
        PathSegment::QuadTo(_, p) => Segment::QuadTo(format!("{:.4} {:.4}", p.x, p.y)),
        PathSegment::CubicTo(a, b, p) => Segment::CubicTo(format!("{:.4} {:.4} {:.4} {:.4} {:.4} {:.4}", a.x, a.y, b.x, b.y, p.x, p.y)),
        PathSegment::Close => Segment::Close,
    }
}

/// A `usvg::Fill` read into a `FillPaint` where its paint is a plain color
/// (`Paint::Color`); `None` for gradients and patterns. Nothing is stated
/// of the result.
#[verifier::external_body]
fn fill_model(f: &usvg::Fill) -> Option<FillPaint> {
    match f.paint() {
        usvg::Paint::Color(c) => Some(FillPaint {
            red: c.red,
            green: c.green,
            blue: c.blue,
            opacity_bits: f.opacity().get().to_bits(),
            opacity: format!("{:.4}", f.opacity().get()),
        }),
        _ => None,
    }
}

/// A `usvg::Stroke` read into a `StrokePaint` where its paint is a plain
/// color (`Paint::Color`); `None` for gradients and patterns. Nothing is
/// stated of the result.
#[verifier::external_body]
fn stroke_model(s: &usvg::Stroke) -> Option<StrokePaint> {
    match s.paint() {
        usvg::Paint::Color(c) => Some(StrokePaint {
            red: c.red,
            green: c.green,
            blue: c.blue,
            width: format!("{:.4}", s.width().get()),
        }),
        _ => None,
    }
}

/// `c / 255` as usvg computes it (`NormalizedF32::new_u8`: a
/// single-precision division), with four decimals. Rust writes the exact
/// value of the float rounded to four places; the float lies within 2⁻²⁴
/// of the true quotient, far nearer than any rounding tie, so the text is
/// the true quotient rounded (`unit_fraction_text`).
#[verifier::external_body]
fn unit_text(c: u8) -> (r: String)
    ensures
        r@ == unit_fraction_text(c),
{
    format!("{:.4}", usvg::NormalizedF32::new_u8(c).get())
}

/// Appends `setrgbcolor` for a color.
fn push_color(ps: &mut Vec<char>, r: u8, g: u8, b: u8)
    ensures
        final(ps)@ == old(ps)@ + ps_color(r, g, b),
{
    push_str(ps, unit_text(r).as_str());
    push_str(ps, " ");
    push_str(ps, unit_text(g).as_str());
    push_str(ps, " ");
    push_str(ps, unit_text(b).as_str());
    push_str(ps, " setrgbcolor\n");
    proof {
        assert(final(ps)@ =~= old(ps)@ + ps_color(r, g, b));
    }
}

/// Appends the PostScript of a segment.
fn render_segment(seg: &Segment, ps: &mut Vec<char>)
    ensures
        final(ps)@ == old(ps)@ + ps_segment(*seg),
{
    match seg {
        Segment::MoveTo(t) => {
            push_str(ps, t.as_str());
            push_str(ps, " moveto\n");
        },
        Segment::LineTo(t) => {
            push_str(ps, t.as_str());
            push_str(ps, " lineto\n");
        },
        Segment::QuadTo(t) => {
            push_str(ps, t.as_str());
            push_str(ps, " lineto\n");
        },
        Segment::CubicTo(t) => {
            push_str(ps, t.as_str());
            push_str(ps, " curveto\n");
        },
        Segment::Close => {
            push_str(ps, "closepath\n");
        },
    }
    proof {
        assert(final(ps)@ =~= old(ps)@ + ps_segment(*seg));
    }
}

/// Appends the path itself, its fill and its stroke (see `ps_path_body`).
fn render_path_body(path: &PathShape, ps: &mut Vec<char>)
    ensures
        final(ps)@ == old(ps)@ + ps_path_body(*path),
{
    let ghost before_body = ps@;
    push_str(ps, "newpath\n");
    let ghost before_segments = ps@;
    let mut i: usize = 0;
    while i < path.segments.len()
        invariant
            i <= path.segments@.len(),
            ps@ == before_segments + ps_segments(path.segments@.take(i as int)),
        decreases path.segments@.len() - i,
    {
        render_segment(&path.segments[i], ps);
        proof {
            let t = path.segments@.take(i + 1);
            assert(t.drop_last() =~= path.segments@.take(i as int));
        }
        i = i + 1;
    }
    proof {
        assert(path.segments@.take(i as int) =~= path.segments@);
    }
    let ghost before_fill = ps@;
    if let Some(f) = &path.fill {
        push_color(ps, f.red, f.green, f.blue);
        if f.opacity_bits != 0x3f80_0000 {
            push_str(ps, f.opacity.as_str());
            push_str(ps, " setopacity\n");
        }
        push_str(ps, "fill\n");
    }
    proof {
        assert(ps@ =~= before_fill + ps_fill(path.fill));
    }
    let ghost before_stroke = ps@;
    if let Some(s) = &path.stroke {
        push_str(ps, s.width.as_str());
        push_str(ps, " setlinewidth\n");
        push_color(ps, s.red, s.green, s.blue);
        push_str(ps, "stroke\n");
    }
    proof {
        assert(ps@ =~= before_stroke + ps_stroke(path.stroke));
        assert(ps@ =~= before_body + "newpath\n"@ + ps_segments(path.segments@) + ps_fill(path.fill) + ps_stroke(
            path.stroke,
        ));
    }
}

/// Appends the PostScript of a path (see `ps_path`).
pub fn render_path(path: &PathShape, ps: &mut Vec<char>)
    ensures
        final(ps)@ == old(ps)@ + ps_path(*path),
{
    let ghost start = ps@;
    if !path.identity {
        push_str(ps, "gsave\n[");
        push_str(ps, path.transform.as_str());
        push_str(ps, "] concat\n");
    }
    let ghost before_body = ps@;
    render_path_body(path, ps);
    if !path.identity {
        push_str(ps, "grestore\n");
    }
    proof {
        if !path.identity {
            assert(before_body =~= start + "gsave\n["@ + path.transform@ + "] concat\n"@);
        }
        assert(ps@ =~= start + ps_path(*path));
    }
}

/// Appends the PostScript of a node (see `ps_node`).
pub fn render_node(node: &SvgNode, ps: &mut Vec<char>)
    ensures
        final(ps)@ == old(ps)@ + ps_node(*node),
    decreases node, 1nat,
{
    match node {
        SvgNode::Path(p) => render_path(p, ps),
        SvgNode::Group(children) => render_nodes(children, ps),
        SvgNode::Other => {
            proof {
                assert(ps@ =~= old(ps)@ + ps_node(*node));
            }
        },
    }
}

/// Appends the PostScript of a run of nodes, in order.
pub fn render_nodes(nodes: &Vec<SvgNode>, ps: &mut Vec<char>)
    ensures
        final(ps)@ == old(ps)@ + ps_nodes(nodes@),
    decreases nodes, 0nat,
{
    let ghost start = ps@;
    let mut i: usize = 0;
    while i < nodes.len()
        invariant
            i <= nodes@.len(),
            ps@ == start + ps_nodes(nodes@.take(i as int)),
        decreases nodes@.len() - i,
    {
        proof {
            assert(decreases_to!(nodes => nodes@[i as int]));
        }
        render_node(&nodes[i], ps);
        proof {
            let t = nodes@.take(i + 1);
            assert(t.subrange(0, t.len() - 1) =~= nodes@.take(i as int));
            assert(t[t.len() - 1] == nodes@[i as int]);
        }
        i = i + 1;
    }
    proof {
        assert(nodes@.take(i as int) =~= nodes@);
    }
}

/// The EPS document for a drawing (see `eps_text`).
pub fn eps_document(width: &str, height: &str, nodes: &Vec<SvgNode>) -> (r: String)
    ensures
        r@ == eps_text(width@, height@, nodes@),
{
    let mut ps: Vec<char> = Vec::new();
    push_str(&mut ps, "%!PS-Adobe-3.0 EPSF-3.0\n");
    push_str(&mut ps, "%%BoundingBox: 0 0 ");
    push_str(&mut ps, width);
    push_str(&mut ps, " ");
    push_str(&mut ps, height);
    push_str(&mut ps, "\n");
    push_str(&mut ps, "%%EndComments\n\n");
    push_str(&mut ps, "0.00 ");
    push_str(&mut ps, height);
    push_str(&mut ps, " translate\n");
    push_str(&mut ps, "1 -1 scale\n\n");
    render_nodes(nodes, &mut ps);
    push_str(&mut ps, "\nshowpage\n%%EOF\n");
    proof {
        assert(ps@ =~= eps_text(width@, height@, nodes@));
    }
    string_of(&ps)
}

/// The `Conversion` error for a message, prefixed.
fn conversion_error(prefix: &str, m: &str) -> (e: Error)
    ensures
        e matches Error::Conversion(t) && t@ == prefix@ + m@,
{
    let mut v: Vec<char> = Vec::new();
    push_str(&mut v, prefix);
    push_str(&mut v, m);
    proof {
        assert(v@ =~= prefix@ + m@);
    }
    Error::Conversion(string_of(&v))
}

/// The error for an SVG that usvg refuses, if it does.
pub open spec fn parse_failure(svg: Seq<char>) -> Option<Seq<char>> {
    match usvg_parse_error(svg) {
        Some(m) => Some("SVG parse error: "@ + m),
        None => None,
    }
}

/// Converts SVG to PDF with svg2pdf. Fails with the parse error where usvg
/// refuses the text, else with svg2pdf's; a document starts with `%PDF-1.7`.
pub fn svg_to_pdf(svg: &str) -> (r: Result<Vec<u8>, Error>)
    ensures
        parse_failure(svg@) matches Some(m) ==> (r matches Err(Error::Conversion(t)) && t@ == m),
        r matches Ok(b) ==> b@.len() >= 9 && b@.take(9) == seq![37u8, 80, 68, 70, 45, 49, 46, 55, 10],
        r matches Err(e) ==> (e matches Error::Conversion(t) && (parse_failure(svg@) == Some(t@)
            || (parse_failure(svg@) is None && exists|m: Seq<char>| t@ == "PDF conversion error: "@ + m))),
{
    let parsed = match parse_svg(svg) {
        Ok(t) => t,
        Err(m) => return Err(conversion_error("SVG parse error: ", m.as_str())),
    };
    match render_pdf(&parsed.0) {
        Ok(b) => Ok(b),
        Err(m) => {
            let e = conversion_error("PDF conversion error: ", m.as_str());
            proof {
                let t = "PDF conversion error: "@ + m@;
                assert(e matches Error::Conversion(s) && s@ == t);
            }
            Err(e)
        },
    }
}

/// Converts SVG to EPS: the PostScript of the parsed drawing (see
/// `eps_text`, `usvg_drawing`), as UTF-8 bytes. Fails only where usvg
/// refuses the text.
pub fn svg_to_eps(svg: &str) -> (r: Result<Vec<u8>, Error>)
    ensures
        parse_failure(svg@) matches Some(m) ==> (r matches Err(Error::Conversion(t)) && t@ == m),
        parse_failure(svg@) is None ==> (r matches Ok(b) && exists|w: Seq<char>, h: Seq<char>, nodes: Seq<SvgNode>|
            b@ == vstd::utf8::encode_utf8(#[trigger] eps_text(w, h, nodes))),
        parse_failure(svg@) is None && !mentions_image(svg@) ==> (r matches Ok(b) && b@ == vstd::utf8::encode_utf8(
            eps_text(usvg_drawing(svg@).0, usvg_drawing(svg@).1, usvg_drawing(svg@).2),
        )),
{
    let (_tree, width, height, nodes) = match parse_svg(svg) {
        Ok(t) => t,
        Err(m) => return Err(conversion_error("SVG parse error: ", m.as_str())),
    };
    let text = eps_document(width.as_str(), height.as_str(), &nodes);
    let bytes = text.as_str().as_bytes_vec();
    proof {
        assert(bytes@ == vstd::utf8::encode_utf8(eps_text(width@, height@, nodes@)));
    }
    Ok(bytes)
}

/// Convert an SVG string to the target output format. Returns the converted
/// bytes and the MIME content type: the SVG's own UTF-8 bytes, or the PDF or
/// EPS conversion (see `svg_to_pdf`, `svg_to_eps`).
pub fn convert_output(svg: &str, format: OutputFormat) -> (r: Result<(Vec<u8>, String), Error>)
    ensures
        r matches Ok((_, ct)) ==> ct@ == content_type_of(format),
        format == OutputFormat::Svg ==> (r matches Ok((b, _)) && b@ == vstd::utf8::encode_utf8(svg@)),
        format == OutputFormat::Pdf ==> (r matches Ok((b, _)) ==> (b@.len() >= 9 && b@.take(9) == seq![37u8, 80, 68, 70, 45, 49, 46, 55, 10])),
        format == OutputFormat::Pdf ==> (r matches Err(e) ==> (e matches Error::Conversion(t) && (parse_failure(svg@) == Some(t@)
            || (parse_failure(svg@) is None && exists|m: Seq<char>| t@ == "PDF conversion error: "@ + m)))),
        format != OutputFormat::Svg ==> (parse_failure(svg@) matches Some(m) ==> (r matches Err(Error::Conversion(t)) && t@ == m)),
        format == OutputFormat::Eps ==> (parse_failure(svg@) is None ==> (r matches Ok((b, _)) && exists|w: Seq<char>, h: Seq<char>, nodes: Seq<SvgNode>|
            b@ == vstd::utf8::encode_utf8(#[trigger] eps_text(w, h, nodes)))),
        format == OutputFormat::Eps ==> (parse_failure(svg@) is None && !mentions_image(svg@) ==> (r matches Ok((b, _))
            && b@ == vstd::utf8::encode_utf8(eps_text(usvg_drawing(svg@).0, usvg_drawing(svg@).1, usvg_drawing(svg@).2)))),
{
    let bytes = match format {
        OutputFormat::Svg => svg.as_bytes_vec(),
        OutputFormat::Pdf => match svg_to_pdf(svg) {
            Ok(b) => b,
            Err(e) => return Err(e),
        },
        OutputFormat::Eps => match svg_to_eps(svg) {
            Ok(b) => b,
            Err(e) => return Err(e),
        },
    };
    Ok((bytes, String::from_str(format.content_type())))
}

/// A format's file extension reads back as that format, and formats differ
/// in their content types.
pub proof fn law_format_names(f: OutputFormat, g: OutputFormat)
    ensures
        format_named(extension_of(f)) == Some(f),
        f != g ==> content_type_of(f) != content_type_of(g),
{
    reveal_strlit("svg");
    reveal_strlit("pdf");
    reveal_strlit("eps");
    reveal_strlit("image/svg+xml");
    reveal_strlit("application/pdf");
    reveal_strlit("application/eps");
    assert(lower_eq("svg"@, "svg"@));
    assert(lower_eq("pdf"@, "pdf"@));
    assert(lower_eq("eps"@, "eps"@));
    assert(!lower_eq("pdf"@, "svg"@)) by {
        assert(fold_code("pdf"@[0]) != "svg"@[0] as u32);
    }
    assert(!lower_eq("eps"@, "svg"@)) by {
        assert(fold_code("eps"@[0]) != "svg"@[0] as u32);
    }
    assert(!lower_eq("eps"@, "pdf"@)) by {
        assert(fold_code("eps"@[0]) != "pdf"@[0] as u32);
    }
    assert("image/svg+xml"@ != "application/pdf"@) by {
        assert("image/svg+xml"@.len() != "application/pdf"@.len());
    }
    assert("image/svg+xml"@ != "application/eps"@) by {
        assert("image/svg+xml"@.len() != "application/eps"@.len());
    }
    assert("application/pdf"@ != "application/eps"@) by {
        assert("application/pdf"@[12] != "application/eps"@[12]);
    }
}

} // verus!

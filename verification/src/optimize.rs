//! Lightweight SVG optimization: text passes that drop the XML prolog,
//! comments, metadata elements and empty groups, shorten numbers in path
//! data, drop empty `class`/`id` attributes and tidy whitespace.
use vstd::prelude::*;
use crate::config::{OptimizeConfig, OptimizePreset};
use crate::error::Error;
use crate::text::{
    chars_of, count_leading_ws, count_trailing_ws, find, find_from, is_whitespace, is_ws,
    leading_ws, lemma_find_some, push_range, slice_chars, string_of, trailing_ws, trim,
    trim_start,
};

verus! {

/// `remove_xml_prolog`: the first `<?xml` up to the next `?>` is cut out and
/// leading whitespace trimmed; unchanged when either marker is missing.
pub open spec fn without_prolog(s: Seq<char>) -> Seq<char> {
    match find(s, "<?xml"@) {
        None => s,
        Some(idx) => match find(s.skip(idx), "?>"@) {
            None => s,
            Some(end) => trim_start(s.take(idx) + s.skip(idx + end + "?>"@.len())),
        },
    }
}

/// `remove_comments`: each `<!--` up to the next `-->` (searched from the
/// `<!--` itself) is cut out; an unclosed comment and the text after it are
/// kept as they are.
pub open spec fn strip_comments(s: Seq<char>) -> Seq<char>
    decreases s.len(),
{
    match find(s, "<!--"@) {
        None => s,
        Some(st) => match find(s.skip(st), "-->"@) {
            None => s,
            Some(e) => {
                proof {
                    lemma_find_some(s, "<!--"@);
                    lemma_find_some(s.skip(st), "-->"@);
                    reveal_strlit("-->");
                }
                s.take(st) + strip_comments(s.skip(st + e + "-->"@.len()))
            },
        },
    }
}

/// End of the cut after an element closing at `end`: the whitespace that
/// follows is included, unless nothing but whitespace follows.
pub open spec fn cut_end(s: Seq<char>, end: int) -> int {
    if end + leading_ws(s.skip(end)) < s.len() {
        end + leading_ws(s.skip(end))
    } else {
        end
    }
}

/// Repeatedly cuts the first `open` up to the next `close` after it (and the
/// whitespace that follows, see `cut_end`), until no `open` is left or the
/// first one has no `close` after it.
pub open spec fn remove_elements(s: Seq<char>, open: Seq<char>, close: Seq<char>) -> Seq<char>
    decreases s.len(),
{
    match find(s, open) {
        None => s,
        Some(st) => match find(s.skip(st), close) {
            None => s,
            Some(e) => {
                let end = st + e + close.len();
                if close.len() > 0 {
                    proof {
                        lemma_find_some(s, open);
                        lemma_find_some(s.skip(st), close);
                    }
                    remove_elements(s.take(st) + s.skip(cut_end(s, end)), open, close)
                } else {
                    s
                }
            },
        },
    }
}

/// Cuts every empty self-closing element that starts with `open`: from
/// `open` to the first `>` after it, where that `>` follows a `/` (and the
/// whitespace after it, see `cut_end`). An element whose tag does not close
/// with `/>` is kept, children and all.
pub open spec fn strip_self_closing(s: Seq<char>, open: Seq<char>) -> Seq<char>
    decreases s.len(),
{
    match find(s, open) {
        None => s,
        Some(st) => match find(s.skip(st), ">"@) {
            None => s,
            Some(g) => {
                proof {
                    lemma_find_some(s, open);
                    lemma_find_some(s.skip(st), ">"@);
                    reveal_strlit(">");
                }
                if g > 0 && s[st + g - 1] == '/' {
                    s.take(st) + strip_self_closing(s.skip(cut_end(s, st + g + 1)), open)
                } else {
                    s.take(st + 1) + strip_self_closing(s.skip(st + 1), open)
                }
            },
        },
    }
}

/// `remove_metadata_elements`: `<metadata>`, `<title>` and `<desc>` elements,
/// then empty self-closing `<defs .../>` elements.
pub open spec fn strip_metadata(s: Seq<char>) -> Seq<char> {
    let a = remove_elements(s, "<metadata"@, "</metadata>"@);
    let b = remove_elements(a, "<title"@, "</title>"@);
    let c = remove_elements(b, "<desc"@, "</desc>"@);
    strip_self_closing(c, "<defs"@)
}

/// `remove_empty_groups`: empty self-closing `<g .../>` elements.
pub open spec fn strip_empty_groups(s: Seq<char>) -> Seq<char> {
    strip_self_closing(s, "<g "@)
}

/// A copy of `s`.
fn copy_chars(s: &Vec<char>) -> (r: Vec<char>)
    ensures
        r@ == s@,
{
    let r = slice_chars(s, 0, s.len());
    proof {
        assert(s@.subrange(0, s@.len() as int) =~= s@);
    }
    r
}

/// See `without_prolog`.
pub fn remove_xml_prolog(s: &Vec<char>) -> (r: Vec<char>)
    ensures
        r@ == without_prolog(s@),
{
    proof {
        reveal_strlit("<?xml");
        reveal_strlit("?>");
        assert("<?xml"@.len() == 5);
        assert("?>"@.len() == 2);
        assert(s@.skip(0) =~= s@);
    }
    let n = s.len();
    let open = chars_of("<?xml");
    let close = chars_of("?>");
    match find_from(s, 0, &open) {
        None => copy_chars(s),
        Some(idx) => {
            proof {
                lemma_find_some(s@, "<?xml"@);
            }
            match find_from(s, idx, &close) {
            None => copy_chars(s),
            Some(end) => {
                proof {
                    lemma_find_some(s@.skip(idx as int), "?>"@);
                }
                let mut joined = slice_chars(s, 0, idx);
                push_range(&mut joined, s, idx + end + 2, s.len());
                let k = count_leading_ws(&joined, 0);
                proof {
                    assert(joined@ =~= s@.take(idx as int) + s@.skip(idx + end + 2));
                    assert(joined@.skip(0) =~= joined@);
                }
                let r = slice_chars(&joined, k, joined.len());
                proof {
                    assert(r@ =~= trim_start(joined@));
                }
                r
            },
            }
        },
    }
}

/// See `strip_comments`.
pub fn remove_comments(s: &Vec<char>) -> (r: Vec<char>)
    ensures
        r@ == strip_comments(s@),
{
    proof {
        reveal_strlit("<!--");
        reveal_strlit("-->");
        assert("<!--"@.len() == 4);
        assert("-->"@.len() == 3);
        assert(s@.skip(0) =~= s@);
    }
    let n = s.len();
    let open = chars_of("<!--");
    let close = chars_of("-->");
    let mut result: Vec<char> = Vec::new();
    let mut search_from: usize = 0;
    loop
        invariant_except_break
            result@ + strip_comments(s@.skip(search_from as int)) == strip_comments(s@),
        invariant
            n == s@.len(),
            open@ == "<!--"@,
            close@ == "-->"@,
            open@.len() == 4,
            close@.len() == 3,
            search_from <= s@.len(),
        ensures
            search_from <= s@.len(),
            result@ + s@.skip(search_from as int) == strip_comments(s@),
        decreases s@.len() - search_from,
    {
        let ghost t = s@.skip(search_from as int);
        match find_from(s, search_from, &open) {
            None => {
                proof {
                    assert(strip_comments(t) == t);
                }
                break;
            },
            Some(start) => {
                proof {
                    lemma_find_some(t, "<!--"@);
                    assert(t.skip(start as int) =~= s@.skip(search_from + start));
                    assert(search_from + start <= s@.len());
                }
                let ghost r0 = result@;
                push_range(&mut result, s, search_from, search_from + start);
                proof {
                    assert(s@.subrange(search_from as int, search_from + start) =~= t.take(start as int));
                }
                let found = find_from(s, search_from + start, &close);
                proof {
                    lemma_find_some(t.skip(start as int), "-->"@);
                }
                match found {
                    Some(end) => {
                        proof {
                            assert(t.skip(start + end + 3) =~= s@.skip(search_from + start + end + 3));
                        }
                        search_from = search_from + start + end + 3;
                    },
                    None => {
                        proof {
                            assert(t =~= t.take(start as int) + s@.skip(search_from + start));
                        }
                        search_from = search_from + start;
                        break;
                    },
                }
            },
        }
    }
    let ghost r0 = result@;
    push_range(&mut result, s, search_from, s.len());
    proof {
        assert(s@.subrange(search_from as int, s@.len() as int) =~= s@.skip(search_from as int));
    }
    result
}

/// See `remove_elements`.
fn cut_elements(s: Vec<char>, open: &str, close: &str) -> (r: Vec<char>)
    requires
        open@.len() > 0,
        close@.len() > 0,
    ensures
        r@ == remove_elements(s@, open@, close@),
{
    let ghost s0 = s@;
    let op = chars_of(open);
    let cl = chars_of(close);
    let mut result = s;
    loop
        invariant
            op@ == open@,
            cl@ == close@,
            op@.len() > 0,
            cl@.len() > 0,
            remove_elements(result@, open@, close@) == remove_elements(s0, open@, close@),
        ensures
            result@ == remove_elements(s0, open@, close@),
        decreases result@.len(),
    {
        let n = result.len();
        proof {
            assert(result@.skip(0) =~= result@);
        }
        match find_from(&result, 0, &op) {
            None => {
                break;
            },
            Some(st) => {
                proof {
                    lemma_find_some(result@, open@);
                }
                let found = find_from(&result, st, &cl);
                proof {
                    lemma_find_some(result@.skip(st as int), close@);
                }
                match found {
                    None => {
                        break;
                    },
                    Some(e) => {
                        let end = st + e + cl.len();
                        let lw = count_leading_ws(&result, end);
                        let te = if end + lw < n { end + lw } else { end };
                        let mut next = slice_chars(&result, 0, st);
                        push_range(&mut next, &result, te, n);
                        proof {
                            assert(te == cut_end(result@, end as int));
                            assert(next@ =~= result@.take(st as int) + result@.skip(te as int));
                        }
                        result = next;
                    },
                }
            },
        }
    }
    result
}

/// See `strip_self_closing`.
fn cut_self_closing(s: Vec<char>, open: &str) -> (r: Vec<char>)
    requires
        open@.len() > 0,
    ensures
        r@ == strip_self_closing(s@, open@),
{
    proof {
        reveal_strlit(">");
        assert(s@.skip(0) =~= s@);
    }
    let op = chars_of(open);
    let gt = chars_of(">");
    let n = s.len();
    let mut out: Vec<char> = Vec::new();
    let mut pos: usize = 0;
    loop
        invariant_except_break
            out@ + strip_self_closing(s@.skip(pos as int), open@) == strip_self_closing(s@, open@),
        invariant
            op@ == open@,
            gt@ == ">"@,
            op@.len() > 0,
            gt@.len() == 1,
            n == s@.len(),
            pos <= n,
        ensures
            out@ == strip_self_closing(s@, open@),
        decreases n - pos,
    {
        let ghost t = s@.skip(pos as int);
        match find_from(&s, pos, &op) {
            None => {
                push_range(&mut out, &s, pos, n);
                proof {
                    assert(s@.subrange(pos as int, n as int) =~= t);
                }
                break;
            },
            Some(st) => {
                proof {
                    lemma_find_some(t, open@);
                    assert(t.skip(st as int) =~= s@.skip(pos + st));
                }
                let found = find_from(&s, pos + st, &gt);
                proof {
                    lemma_find_some(t.skip(st as int), ">"@);
                }
                match found {
                    None => {
                        push_range(&mut out, &s, pos, n);
                        proof {
                            assert(s@.subrange(pos as int, n as int) =~= t);
                        }
                        break;
                    },
                    Some(g) => {
                        let ghost o0 = out@;
                        if g > 0 && s[pos + st + g - 1] == '/' {
                            let end = pos + st + g + 1;
                            let lw = count_leading_ws(&s, end);
                            let te = if end + lw < n { end + lw } else { end };
                            push_range(&mut out, &s, pos, pos + st);
                            proof {
                                assert(t.skip(st + g + 1) =~= s@.skip(end as int));
                                assert(cut_end(t, st + g + 1) == te - pos);
                                assert(t.skip(te - pos) =~= s@.skip(te as int));
                                assert(s@.subrange(pos as int, pos + st) =~= t.take(st as int));
                                assert(t[st + g - 1] == s@[pos + st + g - 1]);
                            }
                            pos = te;
                        } else {
                            push_range(&mut out, &s, pos, pos + st + 1);
                            proof {
                                assert(t.skip(st + 1) =~= s@.skip(pos + st + 1));
                                assert(s@.subrange(pos as int, pos + st + 1) =~= t.take(st + 1));
                                if g > 0 {
                                    assert(t[st + g - 1] == s@[pos + st + g - 1]);
                                }
                            }
                            pos = pos + st + 1;
                        }
                    },
                }
            },
        }
    }
    out
}

/// See `strip_metadata`.
pub fn remove_metadata_elements(s: Vec<char>) -> (r: Vec<char>)
    ensures
        r@ == strip_metadata(s@),
{
    proof {
        reveal_strlit("<metadata");
        reveal_strlit("</metadata>");
        reveal_strlit("<title");
        reveal_strlit("</title>");
        reveal_strlit("<desc");
        reveal_strlit("</desc>");
        assert("<metadata"@.len() > 0 && "</metadata>"@.len() > 0);
        assert("<title"@.len() > 0 && "</title>"@.len() > 0);
        assert("<desc"@.len() > 0 && "</desc>"@.len() > 0);
        reveal_strlit("<defs");
        assert("<defs"@.len() > 0);
    }
    let a = cut_elements(s, "<metadata", "</metadata>");
    let b = cut_elements(a, "<title", "</title>");
    let c = cut_elements(b, "<desc", "</desc>");
    cut_self_closing(c, "<defs")
}

/// See `strip_empty_groups`.
pub fn remove_empty_groups(s: Vec<char>) -> (r: Vec<char>)
    ensures
        r@ == strip_empty_groups(s@),
{
    proof {
        reveal_strlit("<g ");
    }
    cut_self_closing(s, "<g ")
}

/// An ASCII digit.
pub open spec fn is_digit(c: char) -> bool {
    '0' <= c <= '9'
}

/// First position at or after `k`, before `ae`, that is not a digit.
pub open spec fn skip_digits(b: Seq<char>, k: int, ae: int) -> int
    decreases ae - k,
{
    if k < ae && 0 <= k < b.len() && is_digit(b[k]) {
        skip_digits(b, k + 1, ae)
    } else {
        k
    }
}

/// `t` moved back over trailing `0`s, not below `ds`.
pub open spec fn trim_zeros(b: Seq<char>, ds: int, t: int) -> int
    decreases t - ds,
{
    if t > ds && 0 < t <= b.len() && b[t - 1] == '0' {
        trim_zeros(b, ds, t - 1)
    } else {
        t
    }
}

/// The shortened text of the number starting at `i` (before `ae`) and the
/// position after it: in a number with a fraction and no exponent, trailing
/// zeros of the fraction are dropped, and the point too when nothing is
/// left after it, unless another `.` follows at once (it would then join the
/// next number to this one); other numbers are copied.
pub open spec fn number_token(b: Seq<char>, i: int, ae: int) -> (Seq<char>, int) {
    let k0 = if b[i] == '-' {
        i + 1
    } else {
        i
    };
    let k1 = skip_digits(b, k0, ae);
    if k1 < ae && b[k1] == '.' {
        let ds = k1 + 1;
        let k2 = skip_digits(b, ds, ae);
        if k2 < ae && (b[k2] == 'e' || b[k2] == 'E') {
            let k3 = k2 + 1;
            let k4 = if k3 < ae && (b[k3] == '+' || b[k3] == '-') {
                k3 + 1
            } else {
                k3
            };
            let k5 = skip_digits(b, k4, ae);
            (b.subrange(i, k5), k5)
        } else {
            let t = trim_zeros(b, ds, k2);
            if t == ds && !(k2 < ae && b[k2] == '.') {
                (b.subrange(i, ds - 1), k2)
            } else {
                (b.subrange(i, t), k2)
            }
        }
    } else {
        (b.subrange(i, k1), k1)
    }
}

/// A number starts at `i`: a digit, or `-` followed by a digit before `ae`.
pub open spec fn number_starts(b: Seq<char>, i: int, ae: int) -> bool {
    is_digit(b[i]) || (b[i] == '-' && i + 1 < ae && is_digit(b[i + 1]))
}

/// The path data `b[i..ae]` with its numbers shortened.
pub open spec fn attr_chars(b: Seq<char>, i: int, ae: int) -> Seq<char>
    decreases ae - i,
{
    if i >= ae || i < 0 || ae > b.len() {
        seq![]
    } else if number_starts(b, i, ae) {
        let tok = number_token(b, i, ae);
        if i < tok.1 <= ae {
            tok.0 + attr_chars(b, tok.1, ae)
        } else {
            seq![]
        }
    } else {
        seq![b[i]] + attr_chars(b, i + 1, ae)
    }
}

/// Position of the first `"` at or after `from`, or the length.
pub open spec fn quote_pos(b: Seq<char>, from: int) -> int
    decreases b.len() - from,
{
    if from >= b.len() || from < 0 {
        b.len() as int
    } else if b[from] == '"' {
        from
    } else {
        quote_pos(b, from + 1)
    }
}

/// XML whitespace: space, tab, carriage return, line feed.
pub open spec fn is_xml_space(c: char) -> bool {
    c == ' ' || c == '\t' || c == '\r' || c == '\n'
}

/// An attribute named `d` opens at `i`: `d="` after whitespace, with text
/// after it.
pub open spec fn d_attr_at(b: Seq<char>, i: int) -> bool {
    0 < i && i + 3 < b.len() && is_xml_space(b[i - 1]) && b[i] == 'd' && b[i + 1] == '=' && b[i + 2] == '"'
}

/// `b[i..]` with the numbers inside each `d="..."` value shortened; all
/// other text is copied.
pub open spec fn shorten_chars(b: Seq<char>, i: int) -> Seq<char>
    decreases b.len() - i,
{
    if i >= b.len() || i < 0 {
        seq![]
    } else if d_attr_at(b, i) {
        let ae = quote_pos(b, i + 3);
        if i + 3 <= ae < b.len() {
            seq!['d', '=', '"'] + attr_chars(b, i + 3, ae) + seq!['"'] + shorten_chars(b, ae + 1)
        } else {
            seq!['d', '=', '"'] + attr_chars(b, i + 3, ae)
        }
    } else {
        seq![b[i]] + shorten_chars(b, i + 1)
    }
}

/// `shorten_path_numbers`: the numbers in the values of `d` attributes
/// shortened.
pub open spec fn shortened(s: Seq<char>) -> Seq<char> {
    shorten_chars(s, 0)
}

/// Skipping digits moves forward, and not past `ae`.
pub proof fn lemma_skip_digits_bounds(b: Seq<char>, k: int, ae: int)
    ensures
        skip_digits(b, k, ae) >= k,
        k <= ae ==> skip_digits(b, k, ae) <= ae,
    decreases ae - k,
{
    if k < ae && 0 <= k < b.len() && is_digit(b[k]) {
        lemma_skip_digits_bounds(b, k + 1, ae);
    }
}

/// Trimming zeros moves back, and not below `ds`.
pub proof fn lemma_trim_zeros_bounds(b: Seq<char>, ds: int, t: int)
    ensures
        trim_zeros(b, ds, t) <= t,
        t >= ds ==> trim_zeros(b, ds, t) >= ds,
    decreases t - ds,
{
    if t > ds && 0 < t <= b.len() && b[t - 1] == '0' {
        lemma_trim_zeros_bounds(b, ds, t - 1);
    }
}

/// The quote found lies at or after `from`, within the bytes.
pub proof fn lemma_quote_pos_bounds(b: Seq<char>, from: int)
    requires
        0 <= from,
    ensures
        from <= quote_pos(b, from) <= b.len() || (from > b.len() && quote_pos(b, from) == b.len()),
        quote_pos(b, from) < b.len() ==> b[quote_pos(b, from)] == '"',
    decreases b.len() - from,
{
    if from < b.len() && b[from] != '"' {
        lemma_quote_pos_bounds(b, from + 1);
    }
}

fn skip_digits_exec(b: &Vec<char>, k: usize, ae: usize) -> (r: usize)
    requires
        k <= ae <= b@.len(),
    ensures
        r as int == skip_digits(b@, k as int, ae as int),
        k <= r <= ae,
        k < ae && is_digit(b@[k as int]) ==> r > k,
{
    let mut j = k;
    while j < ae && '0' <= b[j] && b[j] <= '9'
        invariant
            k <= j <= ae <= b@.len(),
            skip_digits(b@, k as int, ae as int) == skip_digits(b@, j as int, ae as int),
        decreases ae - j,
    {
        j = j + 1;
    }
    j
}

fn trim_zeros_exec(b: &Vec<char>, ds: usize, t: usize) -> (r: usize)
    requires
        ds <= t <= b@.len(),
    ensures
        r as int == trim_zeros(b@, ds as int, t as int),
        ds <= r <= t,
{
    let mut j = t;
    while j > ds && b[j - 1] == '0'
        invariant
            ds <= j <= t <= b@.len(),
            trim_zeros(b@, ds as int, t as int) == trim_zeros(b@, ds as int, j as int),
        decreases j,
    {
        j = j - 1;
    }
    j
}

/// Appends the shortened number starting at `i` and returns the position after it.
fn push_number(out: &mut Vec<char>, b: &Vec<char>, i: usize, ae: usize) -> (next: usize)
    requires
        i < ae <= b@.len(),
        number_starts(b@, i as int, ae as int),
    ensures
        final(out)@ == old(out)@ + number_token(b@, i as int, ae as int).0,
        next as int == number_token(b@, i as int, ae as int).1,
        i < next <= ae,
{
    let k0 = if b[i] == '-' { i + 1 } else { i };
    let k1 = skip_digits_exec(b, k0, ae);
    if k1 < ae && b[k1] == '.' {
        let ds = k1 + 1;
        let k2 = skip_digits_exec(b, ds, ae);
        if k2 < ae && (b[k2] == 'e' || b[k2] == 'E') {
            let k3 = k2 + 1;
            let k4 = if k3 < ae && (b[k3] == '+' || b[k3] == '-') { k3 + 1 } else { k3 };
            let k5 = skip_digits_exec(b, k4, ae);
            push_range(out, b, i, k5);
            k5
        } else {
            let t = trim_zeros_exec(b, ds, k2);
            let dot_follows: bool = k2 < ae && b[k2] == '.';
            if t == ds && !dot_follows {
                push_range(out, b, i, ds - 1);
            } else {
                push_range(out, b, i, t);
            }
            k2
        }
    } else {
        proof {
            if b@[i as int] == '-' {
                assert(is_digit(b@[i + 1]));
            }
        }
        push_range(out, b, i, k1);
        k1
    }
}

/// See `shortened`.
pub fn shorten_path_numbers(s: &Vec<char>) -> (r: Vec<char>)
    ensures
        r@ == shortened(s@),
{
    let b = s;
    let len = b.len();
    let mut out: Vec<char> = Vec::new();
    let mut i: usize = 0;
    while i < len
        invariant
            len == b@.len(),
            i <= len,
            out@ + shorten_chars(b@, i as int) == shorten_chars(b@, 0),
        decreases len - i,
    {
        let at_d: bool = i > 0 && len >= 3 && i < len - 3 && (b[i - 1] == ' ' || b[i - 1] == '\t' || b[i - 1] == '\r'
            || b[i - 1] == '\n') && b[i] == 'd' && b[i + 1] == '=' && b[i + 2] == '"';
        if at_d {
            let ghost o0 = out@;
            out.push('d');
            out.push('=');
            out.push('"');
            let attr_start = i + 3;
            let mut ae = attr_start;
            while ae < len && b[ae] != '"'
                invariant
                    attr_start <= ae <= len,
                    len == b@.len(),
                    quote_pos(b@, attr_start as int) == quote_pos(b@, ae as int),
                decreases len - ae,
            {
                ae = ae + 1;
            }
            let ghost o1 = out@;
            i = attr_start;
            while i < ae
                invariant
                    attr_start <= i <= ae <= len,
                    len == b@.len(),
                    out@ + attr_chars(b@, i as int, ae as int) == o1 + attr_chars(b@, attr_start as int, ae as int),
                decreases ae - i,
            {
                if '0' <= b[i] && b[i] <= '9' || (b[i] == '-' && i + 1 < ae && '0' <= b[i + 1] && b[i + 1] <= '9') {
                    let ghost oa = out@;
                    let next = push_number(&mut out, b, i, ae);
                    proof {
                        assert(out@ + attr_chars(b@, next as int, ae as int) =~= oa + attr_chars(b@, i as int, ae as int));
                    }
                    i = next;
                } else {
                    let ghost oa = out@;
                    out.push(b[i]);
                    proof {
                        assert(out@ + attr_chars(b@, i + 1, ae as int) =~= oa + attr_chars(b@, i as int, ae as int));
                    }
                    i = i + 1;
                }
            }
            proof {
                assert(attr_chars(b@, ae as int, ae as int) =~= Seq::<char>::empty());
            }
            if i < len && b[i] == '"' {
                out.push('"');
                i = i + 1;
                proof {
                    assert(out@ + shorten_chars(b@, i as int) =~= o0 + shorten_chars(b@, attr_start - 3));
                }
            } else {
                proof {
                    assert(shorten_chars(b@, i as int) =~= Seq::<char>::empty());
                    assert(out@ + shorten_chars(b@, i as int) =~= o0 + shorten_chars(b@, attr_start - 3));
                }
            }
        } else {
            let ghost o0 = out@;
            out.push(b[i]);
            proof {
                assert(out@ + shorten_chars(b@, i + 1) =~= o0 + shorten_chars(b@, i as int));
            }
            i = i + 1;
        }
    }
    proof {
        assert(out@ =~= out@ + shorten_chars(b@, i as int));
    }
    out
}

/// Repeatedly cuts the first `attr` together with the whitespace before it.
/// `None` when the character before that whitespace is not ASCII: the cut
/// would then start inside a UTF-8 sequence, where `String::replace_range`
/// panics.
pub open spec fn strip_attr(s: Seq<char>, attr: Seq<char>) -> Option<Seq<char>>
    decreases s.len(),
{
    match find(s, attr) {
        None => Some(s),
        Some(idx) => {
            let pre = s.take(idx);
            let tw = trailing_ws(pre);
            if attr.len() == 0 || idx < 0 || idx + attr.len() > s.len() || tw > pre.len() {
                None
            } else if tw < pre.len() && pre[pre.len() - tw - 1] as u32 >= 128 {
                None
            } else {
                strip_attr(pre.take(pre.len() - tw) + s.skip(idx + attr.len()), attr)
            }
        },
    }
}

/// `clean_empty_attributes`: `class=""`, then `id=""`.
pub open spec fn clean_attributes(s: Seq<char>) -> Option<Seq<char>> {
    match strip_attr(s, "class=\"\""@) {
        None => None,
        Some(t) => strip_attr(t, "id=\"\""@),
    }
}

/// Newline collapsing of `trim_whitespace`: a newline after a newline is
/// dropped, and so is other whitespace after a newline.
pub open spec fn collapse_newlines(s: Seq<char>, prev_nl: bool) -> Seq<char>
    decreases s.len(),
{
    if s.len() == 0 {
        seq![]
    } else {
        let c = s[0];
        if c == '\n' {
            (if prev_nl {
                seq![]
            } else {
                seq![c]
            }) + collapse_newlines(s.drop_first(), true)
        } else if is_ws(c) && prev_nl {
            collapse_newlines(s.drop_first(), true)
        } else {
            seq![c] + collapse_newlines(s.drop_first(), false)
        }
    }
}

/// `trim_whitespace`: trimmed, newlines collapsed, ending in one newline.
pub open spec fn tidy_whitespace(s: Seq<char>) -> Seq<char> {
    let r = collapse_newlines(trim(s), false);
    if r.len() > 0 && r.last() == '\n' {
        r
    } else {
        r.push('\n')
    }
}

/// The trailing whitespace lies within the text.
pub proof fn lemma_trailing_ws_bound(s: Seq<char>)
    ensures
        trailing_ws(s) <= s.len(),
    decreases s.len(),
{
    if s.len() > 0 && is_ws(s.last()) {
        lemma_trailing_ws_bound(s.drop_last());
    }
}

/// See `strip_attr`.
fn cut_attr(s: Vec<char>, attr: &str) -> (r: Option<Vec<char>>)
    requires
        attr@.len() > 0,
    ensures
        match r {
            Some(v) => strip_attr(s@, attr@) == Some(v@),
            None => strip_attr(s@, attr@) is None,
        },
{
    let ghost s0 = s@;
    let at = chars_of(attr);
    let alen = at.len();
    let mut result = s;
    let mut failed = false;
    loop
        invariant_except_break
            !failed,
        invariant
            at@ == attr@,
            alen == at@.len(),
            alen > 0,
            strip_attr(result@, attr@) == strip_attr(s0, attr@),
        ensures
            failed ==> strip_attr(s0, attr@) is None,
            !failed ==> strip_attr(s0, attr@) == Some(result@),
        decreases result@.len(),
    {
        let n = result.len();
        proof {
            assert(result@.skip(0) =~= result@);
        }
        match find_from(&result, 0, &at) {
            None => {
                break;
            },
            Some(idx) => {
                proof {
                    lemma_find_some(result@, attr@);
                }
                let tw = count_trailing_ws(&result, idx);
                proof {
                    assert(result@.take(idx as int).len() == idx);
                }
                if tw < idx && (result[idx - tw - 1] as u32) >= 128 {
                    proof {
                        let pre = result@.take(idx as int);
                        assert(pre[pre.len() - tw - 1] == result@[idx - tw - 1]);
                        assert(strip_attr(result@, attr@) is None);
                    }
                    failed = true;
                    break;
                }
                let ws_start = idx - tw;
                let mut next = slice_chars(&result, 0, ws_start);
                push_range(&mut next, &result, idx + alen, n);
                proof {
                    let pre = result@.take(idx as int);
                    assert(next@ =~= pre.take(pre.len() - tw) + result@.skip(idx + alen));
                }
                result = next;
            },
        }
    }
    if failed {
        None
    } else {
        Some(result)
    }
}

/// See `clean_attributes`.
pub fn clean_empty_attributes(s: Vec<char>) -> (r: Option<Vec<char>>)
    ensures
        match r {
            Some(v) => clean_attributes(s@) == Some(v@),
            None => clean_attributes(s@) is None,
        },
{
    proof {
        reveal_strlit("class=\"\"");
        reveal_strlit("id=\"\"");
        assert("class=\"\""@.len() > 0 && "id=\"\""@.len() > 0);
    }
    match cut_attr(s, "class=\"\"") {
        None => None,
        Some(t) => cut_attr(t, "id=\"\""),
    }
}

/// See `tidy_whitespace`.
pub fn trim_whitespace(s: &Vec<char>) -> (r: Vec<char>)
    ensures
        r@ == tidy_whitespace(s@),
{
    let k = count_leading_ws(s, 0);
    proof {
        assert(s@.skip(0) =~= s@);
    }
    let t = slice_chars(s, k, s.len());
    let e = count_trailing_ws(&t, t.len());
    proof {
        assert(t@ =~= trim_start(s@));
        assert(t@.take(t@.len() as int) =~= t@);
    }
    let u = slice_chars(&t, 0, t.len() - e);
    proof {
        assert(u@ =~= trim(s@));
    }
    let mut out: Vec<char> = Vec::new();
    let mut prev_nl = false;
    let mut i: usize = 0;
    proof {
        assert(u@.skip(0) =~= u@);
    }
    while i < u.len()
        invariant
            i <= u@.len(),
            out@ + collapse_newlines(u@.skip(i as int), prev_nl) == collapse_newlines(u@, false),
        decreases u@.len() - i,
    {
        let c = u[i];
        let ghost o0 = out@;
        let ghost p0 = prev_nl;
        proof {
            assert(u@.skip(i as int).drop_first() =~= u@.skip(i + 1));
            assert(u@.skip(i as int)[0] == c);
        }
        if c == '\n' {
            if !prev_nl {
                out.push(c);
            }
            prev_nl = true;
        } else if is_whitespace(c) && prev_nl {
        } else {
            out.push(c);
            prev_nl = false;
        }
        proof {
            assert(out@ + collapse_newlines(u@.skip(i + 1), prev_nl) =~= o0 + collapse_newlines(u@.skip(i as int), p0));
        }
        i = i + 1;
    }
    proof {
        assert(u@.skip(u@.len() as int) =~= Seq::<char>::empty());
    }
    let ends_nl = out.len() > 0 && out[out.len() - 1] == '\n';
    if !ends_nl {
        out.push('\n');
    }
    out
}

/// Length of the UTF-8 encoding (`str::len`).
pub open spec fn utf8_len(s: Seq<char>) -> nat {
    vstd::utf8::encode_utf8(s).len()
}

/// One optimization pass: the prolog always; comments, metadata elements and
/// empty groups unless the preset is `Off`; number shortening and
/// empty-attribute removal only for `Default`; whitespace tidied last.
/// `None` where empty-attribute removal would panic (see `strip_attr`).
pub open spec fn single_pass(s: Seq<char>, preset: OptimizePreset) -> Option<Seq<char>> {
    let a = without_prolog(s);
    let b = if preset == OptimizePreset::Default || preset == OptimizePreset::Safe {
        strip_empty_groups(strip_metadata(strip_comments(a)))
    } else {
        a
    };
    let c = if preset == OptimizePreset::Default {
        clean_attributes(shortened(b))
    } else {
        Some(b)
    };
    match c {
        Some(c) => Some(tidy_whitespace(c)),
        None => None,
    }
}

/// Up to `n` further passes, stopping before the first one that does not
/// shorten the text (in bytes).
pub open spec fn further_passes(prev: Seq<char>, preset: OptimizePreset, n: nat) -> Option<Seq<char>>
    decreases n,
{
    if n == 0 {
        Some(prev)
    } else {
        match single_pass(prev, preset) {
            None => None,
            Some(next) => if utf8_len(next) >= utf8_len(prev) {
                Some(prev)
            } else {
                further_passes(next, preset, (n - 1) as nat)
            },
        }
    }
}

/// The result of `optimize_svg`: the input for `Off`; otherwise one pass,
/// followed by the further passes when `multipass` is set.
pub open spec fn optimized(s: Seq<char>, config: OptimizeConfig) -> Option<Seq<char>> {
    if config.preset == OptimizePreset::Off {
        Some(s)
    } else {
        match single_pass(s, config.preset) {
            None => None,
            Some(out) => if config.multipass {
                further_passes(out, config.preset, config.multipass_iterations as nat)
            } else {
                Some(out)
            },
        }
    }
}

/// See `single_pass`.
fn run_pass(s: &Vec<char>, preset: OptimizePreset) -> (r: Option<Vec<char>>)
    ensures
        match r {
            Some(v) => single_pass(s@, preset) == Some(v@),
            None => single_pass(s@, preset) is None,
        },
{
    let a = remove_xml_prolog(s);
    let b = if preset == OptimizePreset::Default || preset == OptimizePreset::Safe {
        let x = remove_comments(&a);
        let y = remove_metadata_elements(x);
        remove_empty_groups(y)
    } else {
        a
    };
    let c = if preset == OptimizePreset::Default {
        let d = shorten_path_numbers(&b);
        clean_empty_attributes(d)
    } else {
        Some(b)
    };
    match c {
        Some(c) => Some(trim_whitespace(&c)),
        None => None,
    }
}

/// `str::len` of the text.
pub fn byte_len(v: &Vec<char>) -> (n: usize)
    ensures
        n == utf8_len(v@),
{
    let t = string_of(v);
    t.as_str().as_bytes().len()
}

/// See `optimized`; `None` exactly where the result is undefined.
pub fn optimize_text(s: &Vec<char>, config: &OptimizeConfig) -> (r: Option<Vec<char>>)
    ensures
        match r {
            Some(v) => optimized(s@, *config) == Some(v@),
            None => optimized(s@, *config) is None,
        },
{
    if config.preset == OptimizePreset::Off {
        return Some(copy_chars(s));
    }
    let out = match run_pass(s, config.preset) {
        None => return None,
        Some(o) => o,
    };
    if config.multipass {
        let mut prev = out;
        let mut k: usize = 0;
        while k < config.multipass_iterations
            invariant
                k <= config.multipass_iterations,
                config.preset != OptimizePreset::Off,
                config.multipass,
                optimized(s@, *config) == further_passes(prev@, config.preset, (config.multipass_iterations - k) as nat),
            decreases config.multipass_iterations - k,
        {
            match run_pass(&prev, config.preset) {
                None => return None,
                Some(next) => {
                    if byte_len(&next) >= byte_len(&prev) {
                        return Some(prev);
                    }
                    prev = next;
                },
            }
            k = k + 1;
        }
        return Some(prev);
    }
    Some(out)
}

/// Optimizes an SVG text (see `optimized`). The passes are defined on every
/// input but those where removing an empty attribute would cut inside a
/// UTF-8 sequence.
pub fn optimize_svg(svg: &str, config: &OptimizeConfig) -> (r: Result<String, Error>)
    requires
        optimized(svg@, *config) is Some,
    ensures
        r matches Ok(out) && out@ == optimized(svg@, *config)->0,
{
    let s = chars_of(svg);
    match optimize_text(&s, config) {
        Some(v) => Ok(string_of(&v)),
        None => Err(Error::Optimization(String::new())),
    }
}

/// The `none` preset leaves an SVG exactly as it is.
pub proof fn law_off_preset_is_identity(s: Seq<char>, multipass: bool, iterations: usize)
    ensures
        optimized(s, OptimizeConfig { preset: OptimizePreset::Off, multipass, multipass_iterations: iterations })
            == Some(s),
{
}

/// Further passes never lengthen the text.
pub proof fn lemma_further_passes_not_longer(prev: Seq<char>, preset: OptimizePreset, n: nat)
    ensures
        further_passes(prev, preset, n) matches Some(o) ==> utf8_len(o) <= utf8_len(prev),
    decreases n,
{
    if n > 0 {
        if let Some(next) = single_pass(prev, preset) {
            if utf8_len(next) < utf8_len(prev) {
                lemma_further_passes_not_longer(next, preset, (n - 1) as nat);
            }
        }
    }
}

/// Multipass optimization is one pass followed by further passes, at most
/// `iterations` of them, each kept only while it shortens the text (in
/// bytes); with no further pass allowed it is the single pass.
pub proof fn law_multipass_repeats_single_pass(s: Seq<char>, preset: OptimizePreset, iterations: usize)
    requires
        preset != OptimizePreset::Off,
    ensures
        optimized(s, OptimizeConfig { preset, multipass: true, multipass_iterations: iterations }) == match optimized(
            s,
            OptimizeConfig { preset, multipass: false, multipass_iterations: iterations },
        ) {
            Some(first) => further_passes(first, preset, iterations as nat),
            None => None,
        },
        forall|x: Seq<char>, n: nat| #[trigger] further_passes(x, preset, n + 1) == match optimized(
            x,
            OptimizeConfig { preset, multipass: false, multipass_iterations: 0 },
        ) {
            Some(y) => if utf8_len(y) < utf8_len(x) {
                further_passes(y, preset, n)
            } else {
                Some(x)
            },
            None => None,
        },
        iterations == 0 ==> optimized(s, OptimizeConfig { preset, multipass: true, multipass_iterations: iterations })
            == optimized(s, OptimizeConfig { preset, multipass: false, multipass_iterations: iterations }),
{
    assert forall|x: Seq<char>, n: nat| #[trigger] further_passes(x, preset, n + 1) == match optimized(
        x,
        OptimizeConfig { preset, multipass: false, multipass_iterations: 0 },
    ) {
        Some(y) => if utf8_len(y) < utf8_len(x) {
            further_passes(y, preset, n)
        } else {
            Some(x)
        },
        None => None,
    } by {
        assert((n + 1) as nat - 1 == n);
    }
}

/// Multipass optimization is defined wherever its first pass is, and is
/// never longer (in bytes) than that single pass.
pub proof fn law_multipass_not_longer(s: Seq<char>, preset: OptimizePreset, iterations: usize)
    ensures
        optimized(s, OptimizeConfig { preset, multipass: true, multipass_iterations: iterations }) is Some
            ==> optimized(s, OptimizeConfig { preset, multipass: false, multipass_iterations: iterations }) is Some,
        optimized(s, OptimizeConfig { preset, multipass: true, multipass_iterations: iterations }) matches Some(m)
            ==> utf8_len(m) <= utf8_len(
            optimized(s, OptimizeConfig { preset, multipass: false, multipass_iterations: iterations })->0,
        ),
{
    if preset != OptimizePreset::Off {
        if let Some(out) = single_pass(s, preset) {
            lemma_further_passes_not_longer(out, preset, iterations as nat);
        }
    }
}

} // verus!

//! How the optimization passes change the length of an ASCII text: each one
//! keeps it ASCII and never lengthens it, but for the newline that tidying
//! whitespace puts at the end.
use vstd::prelude::*;
use vstd::utf8::is_ascii_chars;
use crate::config::{OptimizeConfig, OptimizePreset};
use crate::optimize::{
    attr_chars, clean_attributes, collapse_newlines, cut_end, further_passes,
    lemma_further_passes_not_longer, optimized,
    single_pass, strip_attr, tidy_whitespace, utf8_len, lemma_quote_pos_bounds, lemma_skip_digits_bounds,
    lemma_trailing_ws_bound, lemma_trim_zeros_bounds, number_starts, number_token, quote_pos,
    d_attr_at, shorten_chars, shortened, skip_digits, trim_zeros, remove_elements, strip_comments, strip_empty_groups,
    strip_metadata, strip_self_closing, without_prolog,
};
use crate::text::{find, lemma_find_some, leading_ws, trailing_ws, trim, trim_start, is_ws};

verus! {

/// A part of an ASCII text is ASCII.
pub proof fn lemma_ascii_subrange(s: Seq<char>, a: int, b: int)
    requires
        is_ascii_chars(s),
        0 <= a <= b <= s.len(),
    ensures
        is_ascii_chars(s.subrange(a, b)),
{
    assert forall|i| 0 <= i < s.subrange(a, b).len() implies '\0' <= #[trigger] s.subrange(a, b)[i]
        <= '\u{7f}' by {
        assert(s.subrange(a, b)[i] == s[a + i]);
    }
}

/// Two ASCII texts joined are ASCII.
pub proof fn lemma_ascii_concat(s: Seq<char>, t: Seq<char>)
    requires
        is_ascii_chars(s),
        is_ascii_chars(t),
    ensures
        is_ascii_chars(s + t),
{
    assert forall|i| 0 <= i < (s + t).len() implies '\0' <= #[trigger] (s + t)[i] <= '\u{7f}' by {
        if i < s.len() {
            assert((s + t)[i] == s[i]);
        } else {
            assert((s + t)[i] == t[i - s.len()]);
        }
    }
}

/// The leading whitespace lies within the text.
pub proof fn lemma_leading_ws_bound(s: Seq<char>)
    ensures
        leading_ws(s) <= s.len(),
    decreases s.len(),
{
    if s.len() > 0 && is_ws(s[0]) {
        lemma_leading_ws_bound(s.drop_first());
    }
}

/// `trim_start` and `trim` keep an ASCII text ASCII and never lengthen it.
pub proof fn lemma_trim_ascii(s: Seq<char>)
    requires
        is_ascii_chars(s),
    ensures
        is_ascii_chars(trim_start(s)),
        trim_start(s).len() <= s.len(),
        is_ascii_chars(trim(s)),
        trim(s).len() <= s.len(),
{
    lemma_leading_ws_bound(s);
    let t = trim_start(s);
    lemma_ascii_subrange(s, leading_ws(s) as int, s.len() as int);
    assert(t =~= s.subrange(leading_ws(s) as int, s.len() as int));
    lemma_trailing_ws_bound(t);
    lemma_ascii_subrange(t, 0, t.len() - trailing_ws(t));
    assert(trim(s) =~= t.subrange(0, t.len() - trailing_ws(t)));
}

/// Dropping the prolog keeps an ASCII text ASCII and never lengthens it.
pub proof fn lemma_without_prolog_ascii(s: Seq<char>)
    requires
        is_ascii_chars(s),
    ensures
        is_ascii_chars(without_prolog(s)),
        without_prolog(s).len() <= s.len(),
{
    lemma_find_some(s, "<?xml"@);
    if let Some(idx) = find(s, "<?xml"@) {
        lemma_find_some(s.skip(idx), "?>"@);
        if let Some(end) = find(s.skip(idx), "?>"@) {
            reveal_strlit("?>");
            let j = idx + end + 2;
            let x = s.take(idx) + s.skip(j);
            lemma_ascii_subrange(s, 0, idx);
            lemma_ascii_subrange(s, j, s.len() as int);
            assert(s.take(idx) =~= s.subrange(0, idx));
            assert(s.skip(j) =~= s.subrange(j, s.len() as int));
            lemma_ascii_concat(s.take(idx), s.skip(j));
            lemma_trim_ascii(x);
        }
    }
}

/// Dropping comments keeps an ASCII text ASCII and never lengthens it.
pub proof fn lemma_strip_comments_ascii(s: Seq<char>)
    requires
        is_ascii_chars(s),
    ensures
        is_ascii_chars(strip_comments(s)),
        strip_comments(s).len() <= s.len(),
    decreases s.len(),
{
    lemma_find_some(s, "<!--"@);
    if let Some(st) = find(s, "<!--"@) {
        lemma_find_some(s.skip(st), "-->"@);
        lemma_ascii_subrange(s, 0, st);
        assert(s.take(st) =~= s.subrange(0, st));
        if let Some(e) = find(s.skip(st), "-->"@) {
            reveal_strlit("-->");
            let j = st + e + 3;
            lemma_ascii_subrange(s, j, s.len() as int);
            assert(s.skip(j) =~= s.subrange(j, s.len() as int));
            lemma_strip_comments_ascii(s.skip(j));
            lemma_ascii_concat(s.take(st), strip_comments(s.skip(j)));
        }
    }
}

/// Cutting elements keeps an ASCII text ASCII and never lengthens it.
pub proof fn lemma_remove_elements_ascii(s: Seq<char>, open: Seq<char>, close: Seq<char>)
    requires
        is_ascii_chars(s),
    ensures
        is_ascii_chars(remove_elements(s, open, close)),
        remove_elements(s, open, close).len() <= s.len(),
    decreases s.len(),
{
    lemma_find_some(s, open);
    if let Some(st) = find(s, open) {
        lemma_find_some(s.skip(st), close);
        if let Some(e) = find(s.skip(st), close) {
            let end = st + e + close.len();
            if close.len() > 0 {
                lemma_leading_ws_bound(s.skip(end));
                let c = cut_end(s, end);
                assert(end <= c <= s.len());
                lemma_ascii_subrange(s, 0, st);
                lemma_ascii_subrange(s, c, s.len() as int);
                assert(s.take(st) =~= s.subrange(0, st));
                assert(s.skip(c) =~= s.subrange(c, s.len() as int));
                lemma_ascii_concat(s.take(st), s.skip(c));
                lemma_remove_elements_ascii(s.take(st) + s.skip(c), open, close);
            }
        }
    }
}

/// Dropping metadata elements and empty groups keeps an ASCII text ASCII
/// and never lengthens it.
pub proof fn lemma_strip_elements_ascii(s: Seq<char>)
    requires
        is_ascii_chars(s),
    ensures
        is_ascii_chars(strip_empty_groups(strip_metadata(s))),
        strip_empty_groups(strip_metadata(s)).len() <= s.len(),
{
    let a = remove_elements(s, "<metadata"@, "</metadata>"@);
    lemma_remove_elements_ascii(s, "<metadata"@, "</metadata>"@);
    let b = remove_elements(a, "<title"@, "</title>"@);
    lemma_remove_elements_ascii(a, "<title"@, "</title>"@);
    let c = remove_elements(b, "<desc"@, "</desc>"@);
    lemma_remove_elements_ascii(b, "<desc"@, "</desc>"@);
    let d = strip_self_closing(c, "<defs"@);
    lemma_strip_self_closing_ascii(c, "<defs"@);
    lemma_strip_self_closing_ascii(d, "<g "@);
}

/// Cutting empty self-closing elements keeps an ASCII text ASCII and never
/// lengthens it.
pub proof fn lemma_strip_self_closing_ascii(s: Seq<char>, open: Seq<char>)
    requires
        is_ascii_chars(s),
    ensures
        is_ascii_chars(strip_self_closing(s, open)),
        strip_self_closing(s, open).len() <= s.len(),
    decreases s.len(),
{
    lemma_find_some(s, open);
    if let Some(st) = find(s, open) {
        lemma_find_some(s.skip(st), ">"@);
        if let Some(g) = find(s.skip(st), ">"@) {
            reveal_strlit(">");
            if g > 0 && s[st + g - 1] == '/' {
                let end = st + g + 1;
                lemma_leading_ws_bound(s.skip(end));
                let c = cut_end(s, end);
                lemma_ascii_subrange(s, 0, st);
                lemma_ascii_subrange(s, c, s.len() as int);
                assert(s.take(st) =~= s.subrange(0, st));
                assert(s.skip(c) =~= s.subrange(c, s.len() as int));
                lemma_strip_self_closing_ascii(s.skip(c), open);
                lemma_ascii_concat(s.take(st), strip_self_closing(s.skip(c), open));
            } else {
                lemma_ascii_subrange(s, 0, st + 1);
                lemma_ascii_subrange(s, st + 1, s.len() as int);
                assert(s.take(st + 1) =~= s.subrange(0, st + 1));
                assert(s.skip(st + 1) =~= s.subrange(st + 1, s.len() as int));
                lemma_strip_self_closing_ascii(s.skip(st + 1), open);
                lemma_ascii_concat(s.take(st + 1), strip_self_closing(s.skip(st + 1), open));
            }
        }
    }
}

/// A shortened number is a prefix of the text it was read from.
pub proof fn lemma_number_token_prefix(b: Seq<char>, i: int, ae: int)
    requires
        0 <= i < ae <= b.len(),
    ensures
        ({
            let tok = number_token(b, i, ae);
            exists|x: int|
                i <= x <= tok.1 && x <= b.len() && tok.0 == #[trigger] b.subrange(i, x)
        }),
        i < number_token(b, i, ae).1 || number_token(b, i, ae).1 == i,
        number_token(b, i, ae).1 <= ae,
{
    let k0 = if b[i] == '-' { i + 1 } else { i };
    let k1 = skip_digits(b, k0, ae);
    lemma_skip_digits_bounds(b, k0, ae);
    let tok = number_token(b, i, ae);
    if k1 < ae && b[k1] == '.' {
        let ds = k1 + 1;
        let k2 = skip_digits(b, ds, ae);
        lemma_skip_digits_bounds(b, ds, ae);
        if k2 < ae && (b[k2] == 'e' || b[k2] == 'E') {
            let k3 = k2 + 1;
            let k4 = if k3 < ae && (b[k3] == '+' || b[k3] == '-') { k3 + 1 } else { k3 };
            let k5 = skip_digits(b, k4, ae);
            lemma_skip_digits_bounds(b, k4, ae);
            assert(tok.0 == b.subrange(i, k5));
        } else {
            let t = trim_zeros(b, ds, k2);
            lemma_trim_zeros_bounds(b, ds, k2);
            if t == ds && !(k2 < ae && b[k2] == '.') {
                assert(tok.0 == b.subrange(i, ds - 1));
            } else {
                assert(tok.0 == b.subrange(i, t));
            }
        }
    } else {
        assert(tok.0 == b.subrange(i, k1));
    }
}

/// Shortening the numbers of a path keeps it ASCII and never lengthens it.
pub proof fn lemma_attr_chars_ascii(b: Seq<char>, i: int, ae: int)
    requires
        is_ascii_chars(b),
        0 <= i <= ae <= b.len(),
    ensures
        is_ascii_chars(attr_chars(b, i, ae)),
        attr_chars(b, i, ae).len() <= ae - i,
    decreases ae - i,
{
    if i < ae {
        if number_starts(b, i, ae) {
            let tok = number_token(b, i, ae);
            lemma_number_token_prefix(b, i, ae);
            if i < tok.1 <= ae {
                let x = choose|x: int| i <= x <= tok.1 && x <= b.len() && tok.0 == #[trigger] b.subrange(i, x);
                lemma_attr_chars_ascii(b, tok.1, ae);
                lemma_ascii_subrange(b, i, x);
                lemma_ascii_concat(tok.0, attr_chars(b, tok.1, ae));
            } else {
                assert(is_ascii_chars(Seq::<char>::empty()));
            }
        } else {
            lemma_attr_chars_ascii(b, i + 1, ae);
            lemma_ascii_subrange(b, i, i + 1);
            assert(seq![b[i]] =~= b.subrange(i, i + 1));
            lemma_ascii_concat(seq![b[i]], attr_chars(b, i + 1, ae));
        }
    } else {
        assert(is_ascii_chars(Seq::<char>::empty()));
    }
}

/// Shortening path numbers keeps an ASCII text ASCII and never lengthens
/// it.
pub proof fn lemma_shorten_chars_ascii(b: Seq<char>, i: int)
    requires
        is_ascii_chars(b),
        0 <= i <= b.len(),
    ensures
        is_ascii_chars(shorten_chars(b, i)),
        shorten_chars(b, i).len() <= b.len() - i,
    decreases b.len() - i,
{
    if i < b.len() {
        let head = seq!['d', '=', '"'];
        assert(is_ascii_chars(head));
        assert(is_ascii_chars(seq!['"']));
        if d_attr_at(b, i) {
            let ae = quote_pos(b, i + 3);
            lemma_quote_pos_bounds(b, i + 3);
            lemma_attr_chars_ascii(b, i + 3, ae);
            let a = attr_chars(b, i + 3, ae);
            lemma_ascii_concat(head, a);
            if i + 3 <= ae < b.len() {
                lemma_shorten_chars_ascii(b, ae + 1);
                lemma_ascii_concat(head + a, seq!['"']);
                lemma_ascii_concat(head + a + seq!['"'], shorten_chars(b, ae + 1));
            }
        } else {
            lemma_shorten_chars_ascii(b, i + 1);
            lemma_ascii_subrange(b, i, i + 1);
            assert(seq![b[i]] =~= b.subrange(i, i + 1));
            lemma_ascii_concat(seq![b[i]], shorten_chars(b, i + 1));
        }
    } else {
        assert(is_ascii_chars(Seq::<char>::empty()));
    }
}

/// Shortening path numbers keeps an ASCII text ASCII and never lengthens it.
pub proof fn lemma_shortened_ascii(s: Seq<char>)
    requires
        is_ascii_chars(s),
    ensures
        is_ascii_chars(shortened(s)),
        shortened(s).len() <= s.len(),
{
    lemma_shorten_chars_ascii(s, 0);
}

/// Removing an attribute from an ASCII text succeeds, keeps it ASCII and
/// never lengthens it.
pub proof fn lemma_strip_attr_ascii(s: Seq<char>, attr: Seq<char>)
    requires
        is_ascii_chars(s),
        attr.len() > 0,
    ensures
        strip_attr(s, attr) matches Some(o) && is_ascii_chars(o) && o.len() <= s.len(),
    decreases s.len(),
{
    lemma_find_some(s, attr);
    if let Some(idx) = find(s, attr) {
        let pre = s.take(idx);
        let tw = trailing_ws(pre);
        lemma_trailing_ws_bound(pre);
        if tw < pre.len() {
            assert(pre[pre.len() - tw - 1] == s[pre.len() - tw - 1]);
        }
        let j = idx + attr.len();
        let cut = pre.len() - tw;
        lemma_ascii_subrange(s, 0, cut);
        lemma_ascii_subrange(s, j, s.len() as int);
        assert(pre.take(cut) =~= s.subrange(0, cut));
        assert(s.skip(j) =~= s.subrange(j, s.len() as int));
        lemma_ascii_concat(pre.take(cut), s.skip(j));
        lemma_strip_attr_ascii(pre.take(cut) + s.skip(j), attr);
    }
}

/// Removing empty attributes from an ASCII text succeeds, keeps it ASCII and
/// never lengthens it.
pub proof fn lemma_clean_attributes_ascii(s: Seq<char>)
    requires
        is_ascii_chars(s),
    ensures
        clean_attributes(s) matches Some(o) && is_ascii_chars(o) && o.len() <= s.len(),
{
    reveal_strlit("class=\"\"");
    reveal_strlit("id=\"\"");
    lemma_strip_attr_ascii(s, "class=\"\""@);
    let t = strip_attr(s, "class=\"\""@)->0;
    lemma_strip_attr_ascii(t, "id=\"\""@);
}

/// Collapsing newlines keeps an ASCII text ASCII and never lengthens it.
pub proof fn lemma_collapse_newlines_ascii(s: Seq<char>, prev_nl: bool)
    requires
        is_ascii_chars(s),
    ensures
        is_ascii_chars(collapse_newlines(s, prev_nl)),
        collapse_newlines(s, prev_nl).len() <= s.len(),
    decreases s.len(),
{
    if s.len() > 0 {
        let c = s[0];
        let rest = s.drop_first();
        lemma_ascii_subrange(s, 1, s.len() as int);
        assert(rest =~= s.subrange(1, s.len() as int));
        lemma_collapse_newlines_ascii(rest, true);
        lemma_collapse_newlines_ascii(rest, false);
        assert(is_ascii_chars(seq![c]));
        assert(is_ascii_chars(Seq::<char>::empty()));
        if c == '\n' {
            let h = if prev_nl { Seq::<char>::empty() } else { seq![c] };
            lemma_ascii_concat(h, collapse_newlines(rest, true));
        } else if !(is_ws(c) && prev_nl) {
            lemma_ascii_concat(seq![c], collapse_newlines(rest, false));
        }
    }
}

/// Tidying whitespace keeps an ASCII text ASCII and lengthens it by at most
/// the final newline.
pub proof fn lemma_tidy_whitespace_ascii(s: Seq<char>)
    requires
        is_ascii_chars(s),
    ensures
        is_ascii_chars(tidy_whitespace(s)),
        tidy_whitespace(s).len() <= s.len() + 1,
{
    lemma_trim_ascii(s);
    let r = collapse_newlines(trim(s), false);
    lemma_collapse_newlines_ascii(trim(s), false);
    assert(is_ascii_chars(seq!['\n']));
    lemma_ascii_concat(r, seq!['\n']);
    assert(r.push('\n') =~= r + seq!['\n']);
}

/// An ASCII text is as long in UTF-8 bytes as in characters.
pub proof fn lemma_ascii_utf8_len(s: Seq<char>)
    requires
        is_ascii_chars(s),
    ensures
        utf8_len(s) == s.len(),
{
    vstd::utf8::is_ascii_chars_encode_utf8(s);
}

/// One pass over an ASCII text succeeds, keeps it ASCII and lengthens it by
/// at most the final newline.
pub proof fn lemma_single_pass_ascii(s: Seq<char>, preset: OptimizePreset)
    requires
        is_ascii_chars(s),
    ensures
        single_pass(s, preset) matches Some(o) && is_ascii_chars(o) && o.len() <= s.len() + 1,
{
    lemma_without_prolog_ascii(s);
    let a = without_prolog(s);
    lemma_strip_comments_ascii(a);
    lemma_strip_elements_ascii(strip_comments(a));
    let b = if preset == OptimizePreset::Default || preset == OptimizePreset::Safe {
        strip_empty_groups(strip_metadata(strip_comments(a)))
    } else {
        a
    };
    lemma_shortened_ascii(b);
    lemma_clean_attributes_ascii(shortened(b));
    let c = if preset == OptimizePreset::Default {
        clean_attributes(shortened(b))->0
    } else {
        b
    };
    lemma_tidy_whitespace_ascii(c);
}

/// Further passes over an ASCII text succeed and keep it ASCII.
pub proof fn lemma_further_passes_ascii(prev: Seq<char>, preset: OptimizePreset, n: nat)
    requires
        is_ascii_chars(prev),
    ensures
        further_passes(prev, preset, n) matches Some(o) && is_ascii_chars(o),
    decreases n,
{
    if n > 0 {
        lemma_single_pass_ascii(prev, preset);
        let next = single_pass(prev, preset)->0;
        if utf8_len(next) < utf8_len(prev) {
            lemma_further_passes_ascii(next, preset, (n - 1) as nat);
        }
    }
}

/// Optimizing an ASCII SVG always succeeds and gives ASCII text at most one
/// byte longer than the input: every pass only removes or shortens, and
/// tidying whitespace may end the text with a newline that it lacked.
pub proof fn law_ascii_optimization_size(s: Seq<char>, config: OptimizeConfig)
    requires
        is_ascii_chars(s),
    ensures
        optimized(s, config) matches Some(o) && is_ascii_chars(o) && utf8_len(o) <= utf8_len(s) + 1,
{
    lemma_ascii_utf8_len(s);
    if config.preset != OptimizePreset::Off {
        lemma_single_pass_ascii(s, config.preset);
        let out = single_pass(s, config.preset)->0;
        lemma_ascii_utf8_len(out);
        if config.multipass {
            let n = config.multipass_iterations as nat;
            lemma_further_passes_ascii(out, config.preset, n);
            lemma_further_passes_not_longer(out, config.preset, n);
        }
    }
}

} // verus!

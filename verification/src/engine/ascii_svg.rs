//! The pixel-exact document is plain ASCII: tags, hexadecimal colors,
//! decimal numbers and rectilinear path commands. Optimizing it therefore
//! always succeeds.
use vstd::prelude::*;
use vstd::utf8::is_ascii_chars;
use crate::engine::emit::{rectilinear, rectilinear_char};
use crate::engine::guarantees::law_path_data_rectilinear;
use crate::engine::pixel_exact::{
    alpha_group, alpha_groups, alpha_paths, color_paths, opacity_text, path_element, pixel_exact_svg,
    scan_state, svg_header,
};
use crate::engine::region::{height, width};
use crate::optimize_size::lemma_ascii_concat;
use crate::text::{digit_char, hex2, nat_text};
use crate::engine::sort::{sorted_elements, strictly_sorted};
use crate::image::RgbaImage;

verus! {

/// `x` put into its place in the increasing sequence `t`.
pub open spec fn insert_sorted(t: Seq<u64>, x: u64) -> Seq<u64>
    decreases t.len(),
{
    if t.len() == 0 {
        seq![x]
    } else if x < t[0] {
        seq![x] + t
    } else {
        seq![t[0]] + insert_sorted(t.drop_first(), x)
    }
}

/// Inserting a new key into an increasing sequence keeps it increasing and
/// adds exactly that key.
proof fn lemma_insert_sorted(t: Seq<u64>, x: u64)
    requires
        strictly_sorted(t),
        !t.contains(x),
    ensures
        strictly_sorted(insert_sorted(t, x)),
        insert_sorted(t, x).to_set() == t.to_set().insert(x),
        insert_sorted(t, x).len() == t.len() + 1,
        forall|i: int| 0 <= i < insert_sorted(t, x).len() ==> (#[trigger] insert_sorted(t, x)[i] == x
            || t.contains(insert_sorted(t, x)[i])),
    decreases t.len(),
{
    let r = insert_sorted(t, x);
    if t.len() == 0 {
        assert(r.to_set() =~= t.to_set().insert(x)) by {
            assert forall|y: u64| r.to_set().contains(y) implies t.to_set().insert(x).contains(y) by {
                assert(r.contains(y));
            }
            assert(r[0] == x);
        }
    } else if x < t[0] {
        assert forall|i: int, j: int| 0 <= i < j < r.len() implies r[i] < r[j] by {
            if i == 0 {
                assert(r[j] == t[j - 1]);
                assert(t[0] <= t[j - 1]);
            } else {
                assert(r[i] == t[i - 1] && r[j] == t[j - 1]);
            }
        }
        assert(r.to_set() =~= t.to_set().insert(x)) by {
            assert forall|y: u64| r.to_set().contains(y) implies t.to_set().insert(x).contains(y) by {
                let i = choose|i: int| 0 <= i < r.len() && r[i] == y;
                if i > 0 {
                    assert(t[i - 1] == y);
                }
            }
            assert forall|y: u64| t.to_set().insert(x).contains(y) implies r.to_set().contains(y) by {
                if y == x {
                    assert(r[0] == x);
                } else {
                    let i = choose|i: int| 0 <= i < t.len() && t[i] == y;
                    assert(r[i + 1] == y);
                }
            }
        }
        assert forall|i: int| 0 <= i < r.len() implies (#[trigger] r[i] == x || t.contains(r[i])) by {
            if i > 0 {
                assert(r[i] == t[i - 1]);
            }
        }
    } else {
        let rest = t.drop_first();
        assert(strictly_sorted(rest)) by {
            assert forall|i: int, j: int| 0 <= i < j < rest.len() implies rest[i] < rest[j] by {
                assert(rest[i] == t[i + 1] && rest[j] == t[j + 1]);
            }
        }
        assert(!rest.contains(x)) by {
            if rest.contains(x) {
                let i = choose|i: int| 0 <= i < rest.len() && rest[i] == x;
                assert(t[i + 1] == x);
            }
        }
        lemma_insert_sorted(rest, x);
        let q = insert_sorted(rest, x);
        assert(x > t[0]) by {
            assert(t[0] != x);
        }
        assert forall|i: int, j: int| 0 <= i < j < r.len() implies r[i] < r[j] by {
            if i == 0 {
                assert(r[j] == q[j - 1]);
                if q[j - 1] != x {
                    let k = choose|k: int| 0 <= k < rest.len() && rest[k] == q[j - 1];
                    assert(t[k + 1] == q[j - 1]);
                }
            } else {
                assert(r[i] == q[i - 1] && r[j] == q[j - 1]);
            }
        }
        assert(r.to_set() =~= t.to_set().insert(x)) by {
            assert forall|y: u64| r.to_set().contains(y) implies t.to_set().insert(x).contains(y) by {
                let i = choose|i: int| 0 <= i < r.len() && r[i] == y;
                if i > 0 {
                    assert(q[i - 1] == y);
                    assert(q.to_set().contains(y));
                    if y != x {
                        assert(rest.to_set().contains(y));
                        let k = choose|k: int| 0 <= k < rest.len() && rest[k] == y;
                        assert(t[k + 1] == y);
                    }
                } else {
                    assert(t[0] == y);
                }
            }
            assert forall|y: u64| t.to_set().insert(x).contains(y) implies r.to_set().contains(y) by {
                if y == x {
                    assert(q.to_set().contains(x));
                    let i = choose|i: int| 0 <= i < q.len() && q[i] == x;
                    assert(r[i + 1] == x);
                } else {
                    let i = choose|i: int| 0 <= i < t.len() && t[i] == y;
                    if i == 0 {
                        assert(r[0] == y);
                    } else {
                        assert(rest[i - 1] == y);
                        assert(q.to_set().contains(y));
                        let k = choose|k: int| 0 <= k < q.len() && q[k] == y;
                        assert(r[k + 1] == y);
                    }
                }
            }
        }
        assert forall|i: int| 0 <= i < r.len() implies (#[trigger] r[i] == x || t.contains(r[i])) by {
            if i > 0 {
                assert(r[i] == q[i - 1]);
                if q[i - 1] != x {
                    let k = choose|k: int| 0 <= k < rest.len() && rest[k] == q[i - 1];
                    assert(t[k + 1] == r[i]);
                }
            } else {
                assert(r[0] == t[0]);
            }
        }
    }
}

/// Every finite set of keys has its increasing sequence.
pub proof fn lemma_sorted_exists(s: Set<u64>)
    requires
        s.finite(),
    ensures
        strictly_sorted(sorted_elements(s)),
        sorted_elements(s).to_set() == s,
    decreases s.len(),
{
    if s.len() == 0 {
        assert(s =~= Seq::<u64>::empty().to_set());
        assert(strictly_sorted(Seq::<u64>::empty()));
    } else {
        let x = s.choose();
        let smaller = s.remove(x);
        lemma_sorted_exists(smaller);
        let t = sorted_elements(smaller);
        assert(!t.contains(x)) by {
            if t.contains(x) {
                assert(t.to_set().contains(x));
            }
        }
        lemma_insert_sorted(t, x);
        assert(insert_sorted(t, x).to_set() =~= s);
    }
}

/// The colors met in a scan are finitely many.
pub proof fn lemma_scan_state_finite(img: &RgbaImage, m: nat)
    ensures
        scan_state(img, m).dom().finite(),
    decreases m,
{
    if m > 0 {
        lemma_scan_state_finite(img, (m - 1) as nat);
    }
}

/// Decimal digits are ASCII.
pub proof fn lemma_nat_text_ascii(n: nat)
    ensures
        is_ascii_chars(nat_text(n)),
    decreases n,
{
    if n >= 10 {
        lemma_nat_text_ascii(n / 10);
        let d = digit_char((n % 10) as int);
        assert(is_ascii_chars(seq![d]));
        lemma_ascii_concat(nat_text(n / 10), seq![d]);
        assert(nat_text(n / 10).push(d) =~= nat_text(n / 10) + seq![d]);
    }
}

/// Path data of right-angle commands is ASCII.
pub proof fn lemma_rectilinear_ascii(d: Seq<char>)
    requires
        rectilinear(d),
    ensures
        is_ascii_chars(d),
{
    assert forall|i| 0 <= i < d.len() implies '\0' <= #[trigger] d[i] <= '\u{7f}' by {
        assert(rectilinear_char(d[i]));
    }
}

/// A `<path>` element with ASCII data is ASCII.
pub proof fn lemma_path_element_ascii(key: u64, data: Seq<char>)
    requires
        is_ascii_chars(data),
    ensures
        is_ascii_chars(path_element(key, data)),
{
    reveal_strlit("<path fill=\"#");
    reveal_strlit("\" d=\"");
    reveal_strlit("\"/>");
    let a = "<path fill=\"#"@;
    assert(is_ascii_chars(a));
    let h1 = hex2((key / 16777216) as u8);
    let h2 = hex2(((key / 65536) % 256) as u8);
    let h3 = hex2(((key / 256) % 256) as u8);
    assert(is_ascii_chars(h1));
    assert(is_ascii_chars(h2));
    assert(is_ascii_chars(h3));
    assert(is_ascii_chars("\" d=\""@));
    assert(is_ascii_chars("\"/>"@));
    lemma_ascii_concat(a, h1);
    lemma_ascii_concat(a + h1, h2);
    lemma_ascii_concat(a + h1 + h2, h3);
    lemma_ascii_concat(a + h1 + h2 + h3, "\" d=\""@);
    lemma_ascii_concat(a + h1 + h2 + h3 + "\" d=\""@, data);
    lemma_ascii_concat(a + h1 + h2 + h3 + "\" d=\""@ + data, "\"/>"@);
}

/// The colors' path data are ASCII for every key listed.
pub open spec fn entries_ascii(entries: Map<u64, (Seq<char>, (int, int))>, keys: Seq<u64>) -> bool {
    forall|i: int| 0 <= i < keys.len() ==> is_ascii_chars(#[trigger] entries[keys[i]].0)
}

/// The `<path>` elements of one alpha are ASCII.
pub proof fn lemma_alpha_paths_ascii(entries: Map<u64, (Seq<char>, (int, int))>, keys: Seq<u64>, a: int)
    requires
        entries_ascii(entries, keys),
    ensures
        is_ascii_chars(alpha_paths(entries, keys, a)),
    decreases keys.len(),
{
    if keys.len() > 0 {
        let k = keys.last();
        let rest = keys.drop_last();
        assert(entries_ascii(entries, rest)) by {
            assert forall|i: int| 0 <= i < rest.len() implies is_ascii_chars(#[trigger] entries[rest[i]].0) by {
                assert(rest[i] == keys[i]);
            }
        }
        lemma_alpha_paths_ascii(entries, rest, a);
        assert(is_ascii_chars(entries[keys[keys.len() - 1]].0));
        lemma_path_element_ascii(k, entries[k].0);
        assert(is_ascii_chars(Seq::<char>::empty()));
        let tail = if k % 256 == a {
            path_element(k, entries[k].0)
        } else {
            seq![]
        };
        lemma_ascii_concat(alpha_paths(entries, rest, a), tail);
    }
}

/// The opacity of a group is ASCII.
pub proof fn lemma_opacity_text_ascii(a: int)
    requires
        0 <= a < 256,
    ensures
        is_ascii_chars(opacity_text(a)),
{
    reveal_strlit("1.000");
    let n = (a * 2000 + 255) / 510;
    assert(n >= 0);
    if n < 1000 {
        assert(0 <= n / 100 <= 9);
    }
}

/// A group of translucent paths is ASCII.
pub proof fn lemma_alpha_group_ascii(entries: Map<u64, (Seq<char>, (int, int))>, keys: Seq<u64>, a: int)
    requires
        entries_ascii(entries, keys),
        0 <= a < 256,
    ensures
        is_ascii_chars(alpha_group(entries, keys, a)),
{
    if exists|i: int| 0 <= i < keys.len() && keys[i] % 256 == a {
        reveal_strlit("<g fill-opacity=\"");
        reveal_strlit("\">");
        reveal_strlit("</g>");
        let o = "<g fill-opacity=\""@;
        assert(is_ascii_chars(o));
        assert(is_ascii_chars("\">"@));
        assert(is_ascii_chars("</g>"@));
        lemma_opacity_text_ascii(a);
        lemma_alpha_paths_ascii(entries, keys, a);
        lemma_ascii_concat(o, opacity_text(a));
        lemma_ascii_concat(o + opacity_text(a), "\">"@);
        lemma_ascii_concat(o + opacity_text(a) + "\">"@, alpha_paths(entries, keys, a));
        lemma_ascii_concat(o + opacity_text(a) + "\">"@ + alpha_paths(entries, keys, a), "</g>"@);
    } else {
        assert(is_ascii_chars(Seq::<char>::empty()));
    }
}

/// The groups of all alphas below `n` are ASCII.
pub proof fn lemma_alpha_groups_ascii(entries: Map<u64, (Seq<char>, (int, int))>, keys: Seq<u64>, n: int)
    requires
        entries_ascii(entries, keys),
        n <= 256,
    ensures
        is_ascii_chars(alpha_groups(entries, keys, n)),
    decreases n,
{
    if n <= 0 {
        assert(is_ascii_chars(Seq::<char>::empty()));
    } else {
        lemma_alpha_groups_ascii(entries, keys, n - 1);
        lemma_alpha_group_ascii(entries, keys, n - 1);
        lemma_ascii_concat(alpha_groups(entries, keys, n - 1), alpha_group(entries, keys, n - 1));
    }
}

/// The opening tag is ASCII.
pub proof fn lemma_svg_header_ascii(w: nat, h: nat)
    ensures
        is_ascii_chars(svg_header(w, h)),
{
    reveal_strlit("<svg width=\"");
    reveal_strlit("\" height=\"");
    reveal_strlit("\" xmlns=\"http://www.w3.org/2000/svg\">");
    let a = "<svg width=\""@;
    let b = "\" height=\""@;
    let c = "\" xmlns=\"http://www.w3.org/2000/svg\">"@;
    assert(is_ascii_chars(a));
    assert(is_ascii_chars(b));
    assert(is_ascii_chars(c));
    lemma_nat_text_ascii(w);
    lemma_nat_text_ascii(h);
    lemma_ascii_concat(a, nat_text(w));
    lemma_ascii_concat(a + nat_text(w), b);
    lemma_ascii_concat(a + nat_text(w) + b, nat_text(h));
    lemma_ascii_concat(a + nat_text(w) + b + nat_text(h), c);
}

/// The pixel-exact document of every image is ASCII.
pub proof fn law_pixel_exact_svg_ascii(img: &RgbaImage)
    ensures
        is_ascii_chars(pixel_exact_svg(img)),
{
    let entries = color_paths(img);
    let keys = sorted_elements(entries.dom());
    lemma_scan_state_finite(img, (width(img) * height(img)) as nat);
    lemma_sorted_exists(entries.dom());
    law_path_data_rectilinear(img);
    assert(entries_ascii(entries, keys)) by {
        assert forall|i: int| 0 <= i < keys.len() implies is_ascii_chars(#[trigger] entries[keys[i]].0) by {
            assert(keys.to_set().contains(keys[i]));
            assert(entries.contains_key(keys[i]));
            lemma_rectilinear_ascii(entries[keys[i]].0);
        }
    }
    let head = svg_header(width(img) as nat, height(img) as nat);
    lemma_svg_header_ascii(width(img) as nat, height(img) as nat);
    lemma_alpha_paths_ascii(entries, keys, 255);
    lemma_alpha_groups_ascii(entries, keys, 255);
    reveal_strlit("</svg>\n");
    assert(is_ascii_chars("</svg>\n"@));
    lemma_ascii_concat(head, alpha_paths(entries, keys, 255));
    lemma_ascii_concat(head + alpha_paths(entries, keys, 255), alpha_groups(entries, keys, 255));
    lemma_ascii_concat(head + alpha_paths(entries, keys, 255) + alpha_groups(entries, keys, 255), "</svg>\n"@);
}

} // verus!

//! Writing traced pieces as SVG path data: a moveto, one `h`/`v` per straight
//! run and a closing `Z` per piece.
use vstd::prelude::*;
use crate::text::{digit_char, int_text, nat_text, push_int};

verus! {

/// The moveto that starts a piece at `s`, absolute: `M{x},{y}`.
pub open spec fn moveto_text(s: (int, int)) -> Seq<char> {
    seq!['M'] + int_text(s.0) + seq![','] + int_text(s.1)
}

/// The line command from `a` to `b`: `h` when the run is horizontal, else `v`.
pub open spec fn segment_text(a: (int, int), b: (int, int)) -> Seq<char> {
    if b.1 - a.1 == 0 {
        seq!['h'] + int_text(b.0 - a.0)
    } else {
        seq!['v'] + int_text(b.1 - a.1)
    }
}

/// The line commands through the first `n` corners of a piece.
pub open spec fn segments_text(piece: Seq<(int, int)>, n: int) -> Seq<char>
    decreases n,
{
    if n <= 1 {
        seq![]
    } else {
        segments_text(piece, n - 1) + segment_text(piece[n - 2], piece[n - 1])
    }
}

/// A whole piece: moveto, line commands, `Z`.
pub open spec fn piece_text(piece: Seq<(int, int)>) -> Seq<char> {
    moveto_text(piece[0]) + segments_text(piece, piece.len() as int) + seq!['Z']
}

/// Appends the pieces to a color's path data; returns the new data and the
/// start of the last piece written.
pub open spec fn emit_pieces(
    buf: Seq<char>,
    last_start: (int, int),
    pieces: Seq<Seq<(int, int)>>,
) -> (Seq<char>, (int, int))
    decreases pieces.len(),
{
    if pieces.len() == 0 {
        (buf, last_start)
    } else {
        let p = pieces[0];
        emit_pieces(buf + piece_text(p), p[0], pieces.drop_first())
    }
}

/// Writes one piece (see `piece_text`).
fn write_piece(buf: &mut Vec<char>, last_start: &mut (i64, i64), piece: &Vec<(i64, i64)>)
    requires
        piece@.len() >= 1,
        forall|j: int| 0 <= j < piece@.len() ==> 0 <= #[trigger] piece@[j].0 <= 0x1_0000_0000 && 0 <= piece@[j].1 <= 0x1_0000_0000,
        0 <= old(last_start).0 <= 0x1_0000_0000,
        0 <= old(last_start).1 <= 0x1_0000_0000,
    ensures
        final(buf)@ == old(buf)@ + piece_text(
            piece@.map_values(|p: (i64, i64)| (p.0 as int, p.1 as int))),
        *final(last_start) == piece@[0],
{
    let ghost pts = piece@.map_values(|p: (i64, i64)| (p.0 as int, p.1 as int));
    let ghost b0 = buf@;
    let s = piece[0];
    buf.push('M');
    push_int(buf, s.0);
    buf.push(',');
    push_int(buf, s.1);
    proof {
        assert(buf@ =~= b0 + moveto_text(pts[0]));
    }
    *last_start = s;
    let mut i: usize = 1;
    while i < piece.len()
        invariant
            1 <= i <= piece@.len(),
            pts == piece@.map_values(|p: (i64, i64)| (p.0 as int, p.1 as int)),
            forall|j: int| 0 <= j < piece@.len() ==> 0 <= #[trigger] piece@[j].0 <= 0x1_0000_0000 && 0 <= piece@[j].1 <= 0x1_0000_0000,
            buf@ == b0 + moveto_text(pts[0])
                + segments_text(pts, i as int),
        decreases piece@.len() - i,
    {
        let a = piece[i - 1];
        let b = piece[i];
        let ghost before = buf@;
        let dx = b.0 - a.0;
        let dy = b.1 - a.1;
        if dy == 0 {
            buf.push('h');
            push_int(buf, dx);
        } else {
            buf.push('v');
            push_int(buf, dy);
        }
        proof {
            assert(buf@ =~= before + segment_text(pts[i - 1], pts[i as int]));
            assert(segments_text(pts, i + 1) == segments_text(pts, i as int) + segment_text(pts[i - 1], pts[i as int]));
            assert(buf@ =~= b0 + moveto_text(pts[0])
                + segments_text(pts, i + 1));
        }
        i = i + 1;
    }
    buf.push('Z');
    proof {
        assert(buf@ =~= b0 + piece_text(pts));
    }
}

/// Writes the pieces in order (see `emit_pieces`).
pub fn write_pieces(buf: &mut Vec<char>, last_start: &mut (i64, i64), pieces: &Vec<Vec<(i64, i64)>>)
    requires
        forall|j: int| 0 <= j < pieces@.len() ==> (#[trigger] pieces@[j])@.len() >= 1,
        forall|j: int, q: int| 0 <= j < pieces@.len() && 0 <= q < pieces@[j]@.len() ==>
            0 <= (#[trigger] pieces@[j]@[q]).0 <= 0x1_0000_0000 && 0 <= pieces@[j]@[q].1 <= 0x1_0000_0000,
        0 <= old(last_start).0 <= 0x1_0000_0000,
        0 <= old(last_start).1 <= 0x1_0000_0000,
    ensures
        (final(buf)@, (final(last_start).0 as int, final(last_start).1 as int)) == emit_pieces(old(buf)@,
            (old(last_start).0 as int, old(last_start).1 as int),
            pieces@.map_values(|v: Vec<(i64, i64)>| v@.map_values(|p: (i64, i64)| (p.0 as int, p.1 as int)))),
        0 <= final(last_start).0 <= 0x1_0000_0000,
        0 <= final(last_start).1 <= 0x1_0000_0000,
{
    let ghost all = pieces@.map_values(|v: Vec<(i64, i64)>| v@.map_values(|p: (i64, i64)| (p.0 as int, p.1 as int)));
    let ghost target = emit_pieces(buf@, (last_start.0 as int, last_start.1 as int), all);
    let mut i: usize = 0;
    proof {
        assert(all.skip(0) =~= all);
    }
    while i < pieces.len()
        invariant
            i <= pieces@.len(),
            all == pieces@.map_values(|v: Vec<(i64, i64)>| v@.map_values(|p: (i64, i64)| (p.0 as int, p.1 as int))),
            forall|j: int| 0 <= j < pieces@.len() ==> (#[trigger] pieces@[j])@.len() >= 1,
            forall|j: int, q: int| 0 <= j < pieces@.len() && 0 <= q < pieces@[j]@.len() ==>
                0 <= (#[trigger] pieces@[j]@[q]).0 <= 0x1_0000_0000 && 0 <= pieces@[j]@[q].1 <= 0x1_0000_0000,
            0 <= last_start.0 <= 0x1_0000_0000,
            0 <= last_start.1 <= 0x1_0000_0000,
            emit_pieces(buf@, (last_start.0 as int, last_start.1 as int), all.skip(i as int)) == target,
        decreases pieces@.len() - i,
    {
        let ghost b0 = buf@;
        let ghost l0 = (last_start.0 as int, last_start.1 as int);
        proof {
            assert(all.skip(i as int)[0] == all[i as int]);
            assert(all.skip(i as int).drop_first() =~= all.skip(i + 1));
            assert forall|q: int| 0 <= q < pieces@[i as int]@.len() implies
                0 <= #[trigger] pieces@[i as int]@[q].0 <= 0x1_0000_0000 && 0 <= pieces@[i as int]@[q].1 <= 0x1_0000_0000 by {
                assert(0 <= pieces@[i as int]@[q].0);
            }
        }
        write_piece(buf, last_start, &pieces[i]);
        i = i + 1;
    }
    proof {
        assert(all.skip(pieces@.len() as int) =~= Seq::<Seq<(int, int)>>::empty());
        assert(all.skip(0) =~= all);
    }
}

/// A character path data may hold: an absolute moveto (`M`), a horizontal or
/// vertical line (`h`, `v`), a close (`Z`), a digit, a comma or a minus sign.
pub open spec fn rectilinear_char(c: char) -> bool {
    c == 'M' || c == 'h' || c == 'v' || c == 'Z' || c == ',' || c == '-' || ('0' <= c && c <= '9')
}

/// Path data with no curve commands: every character is a `rectilinear_char`.
pub open spec fn rectilinear(d: Seq<char>) -> bool {
    forall|i: int| 0 <= i < d.len() ==> rectilinear_char(#[trigger] d[i])
}

proof fn lemma_concat_rectilinear(a: Seq<char>, b: Seq<char>)
    requires
        rectilinear(a),
        rectilinear(b),
    ensures
        rectilinear(a + b),
{
    assert forall|i: int| 0 <= i < (a + b).len() implies rectilinear_char(#[trigger] (a + b)[i]) by {
        if i < a.len() {
            assert((a + b)[i] == a[i]);
        } else {
            assert((a + b)[i] == b[i - a.len()]);
        }
    }
}

proof fn lemma_nat_text_rectilinear(n: nat)
    ensures
        rectilinear(int_text(n as int)),
    decreases n,
{
    if n >= 10 {
        lemma_nat_text_rectilinear(n / 10);
        let d = nat_text(n / 10);
        assert(int_text((n / 10) as int) == d);
        lemma_concat_rectilinear(d, seq![digit_char((n % 10) as int)]);
        assert(nat_text(n) =~= d + seq![digit_char((n % 10) as int)]);
    }
}

proof fn lemma_int_text_rectilinear(v: int)
    ensures
        rectilinear(int_text(v)),
{
    if v < 0 {
        lemma_nat_text_rectilinear((-v) as nat);
        assert(int_text((-v) as nat as int) == nat_text((-v) as nat));
        lemma_concat_rectilinear(seq!['-'], nat_text((-v) as nat));
    } else {
        lemma_nat_text_rectilinear(v as nat);
    }
}

proof fn lemma_segments_rectilinear(piece: Seq<(int, int)>, n: int)
    ensures
        rectilinear(segments_text(piece, n)),
    decreases n,
{
    if n > 1 {
        lemma_segments_rectilinear(piece, n - 1);
        let a = piece[n - 2];
        let b = piece[n - 1];
        if b.1 - a.1 == 0 {
            lemma_int_text_rectilinear(b.0 - a.0);
            lemma_concat_rectilinear(seq!['h'], int_text(b.0 - a.0));
        } else {
            lemma_int_text_rectilinear(b.1 - a.1);
            lemma_concat_rectilinear(seq!['v'], int_text(b.1 - a.1));
        }
        lemma_concat_rectilinear(segments_text(piece, n - 1), segment_text(a, b));
    }
}

proof fn lemma_piece_rectilinear(piece: Seq<(int, int)>)
    ensures
        rectilinear(piece_text(piece)),
{
    let s = piece[0];
    let m = moveto_text(s);
    assert(rectilinear(m)) by {
        lemma_int_text_rectilinear(s.0);
        lemma_int_text_rectilinear(s.1);
        lemma_concat_rectilinear(seq!['M'], int_text(s.0));
        lemma_concat_rectilinear(seq!['M'] + int_text(s.0), seq![',']);
        lemma_concat_rectilinear(seq!['M'] + int_text(s.0) + seq![','], int_text(s.1));
    }
    lemma_segments_rectilinear(piece, piece.len() as int);
    lemma_concat_rectilinear(m, segments_text(piece, piece.len() as int));
    lemma_concat_rectilinear(m + segments_text(piece, piece.len() as int), seq!['Z']);
}

/// Emitting pieces into rectilinear path data keeps it rectilinear.
pub proof fn lemma_emit_rectilinear(buf: Seq<char>, last_start: (int, int), pieces: Seq<Seq<(int, int)>>)
    requires
        rectilinear(buf),
    ensures
        rectilinear(emit_pieces(buf, last_start, pieces).0),
    decreases pieces.len(),
{
    if pieces.len() > 0 {
        let p = pieces[0];
        lemma_piece_rectilinear(p);
        lemma_concat_rectilinear(buf, piece_text(p));
        lemma_emit_rectilinear(buf + piece_text(p), p[0], pieces.drop_first());
    }
}

} // verus!

//! The path data gathered per color while the image is scanned, held in a
//! `BTreeMap` keyed by the packed color, and read back in increasing color
//! order.
use vstd::prelude::*;
use std::collections::BTreeMap;
use crate::engine::emit::{emit_pieces, write_pieces};
use crate::engine::pixel_exact::{entry_or_default, pieces_view, table_holds};
use crate::engine::sort::strictly_sorted;
use crate::text::slice_chars;
use vstd::std_specs::cmp::OrdSpec;
use vstd::std_specs::iter::IteratorSpec;

verus! {

broadcast use vstd::std_specs::btree::group_btree_axioms;

/// The map holds, per color, the path data and last piece start of `m`,
/// with starts within the grid's coordinates.
pub open spec fn map_holds(t: Map<u64, (Vec<char>, (i64, i64))>, m: Map<u64, (Seq<char>, (int, int))>) -> bool {
    &&& t.dom() == m.dom()
    &&& forall|k: u64| #[trigger] t.contains_key(k) ==> m[k] == (t[k].0@, (t[k].1.0 as int, t[k].1.1 as int))
        && 0 <= t[k].1.0 <= 0x1_0000_0000 && 0 <= t[k].1.1 <= 0x1_0000_0000
}

/// `u64` keys are ordered as the `BTreeMap` specification needs.
pub open spec fn u64_keys_ordered() -> bool {
    &&& vstd::laws_cmp::obeys_cmp::<u64>()
    &&& vstd::std_specs::btree::key_obeys_cmp_spec::<u64>()
}

/// `u64` keys are ordered (see `u64_keys_ordered`).
proof fn lemma_u64_keys_ordered()
    ensures
        u64_keys_ordered(),
{
    broadcast use vstd::laws_cmp::group_laws_cmp;
}

/// The keys of a map with `u64` keys come out strictly increasing, each key
/// of the map once.
proof fn lemma_keys_in_order<V>(t: &BTreeMap<u64, V>)
    ensures
        strictly_sorted(vstd::std_specs::btree::spec_keys_iter(t).remaining().unref()),
        vstd::std_specs::btree::spec_keys_iter(t).remaining().unref().to_set() == t@.dom(),
{
    broadcast use vstd::laws_cmp::group_laws_cmp;
    broadcast use vstd::laws_cmp::lemma_ref_obeys_cmp_spec;
    vstd::std_specs::btree::axiom_spec_keys_iter(t);
    let ks = vstd::std_specs::btree::spec_keys_iter(t).remaining();
    assert(vstd::laws_cmp::obeys_cmp::<&u64>());
    vstd::std_specs::btree::axiom_increasing_seq_meaning(ks);
    assert forall|i: int, j: int| 0 <= i < j < ks.unref().len() implies ks.unref()[i] < ks.unref()[j] by {
        assert(OrdSpec::cmp_spec(&ks[i], &ks[j]) is Less);
        assert(ks.unref()[i] == *ks[i] && ks.unref()[j] == *ks[j]);
    }
}

/// An empty table, for no colors.
pub fn new_table() -> (t: BTreeMap<u64, (Vec<char>, (i64, i64))>)
    ensures
        map_holds(t@, Map::empty()),
{
    BTreeMap::new()
}

/// Appends the pieces of a region to the entry of its color.
pub fn add_region(
    table: &mut BTreeMap<u64, (Vec<char>, (i64, i64))>,
    key: u64,
    pieces: &Vec<Vec<(i64, i64)>>,
    Ghost(m): Ghost<Map<u64, (Seq<char>, (int, int))>>,
)
    requires
        map_holds(old(table)@, m),
        forall|j: int| 0 <= j < pieces@.len() ==> (#[trigger] pieces@[j])@.len() >= 1,
        forall|j: int, q: int| 0 <= j < pieces@.len() && 0 <= q < pieces@[j]@.len() ==>
            0 <= (#[trigger] pieces@[j]@[q]).0 <= 0x1_0000_0000 && 0 <= pieces@[j]@[q].1 <= 0x1_0000_0000,
    ensures
        map_holds(final(table)@, m.insert(key, emit_pieces(
            entry_or_default(m, key).0,
            entry_or_default(m, key).1,
            pieces_view(pieces@),
        ))),
{
    proof {
        lemma_u64_keys_ordered();
    }
    let ghost t0 = table@;
    let (mut buf, mut last) = match table.remove(&key) {
        Some(e) => e,
        None => (Vec::new(), (0i64, 0i64)),
    };
    proof {
        assert(buf@ == entry_or_default(m, key).0);
        assert((last.0 as int, last.1 as int) == entry_or_default(m, key).1);
    }
    write_pieces(&mut buf, &mut last, pieces);
    table.insert(key, (buf, last));
    proof {
        let m2 = m.insert(key, emit_pieces(entry_or_default(m, key).0, entry_or_default(m, key).1, pieces_view(pieces@)));
        assert(table@.dom() =~= m2.dom());
        assert forall|k: u64| #[trigger] table@.contains_key(k) implies m2[k] == (table@[k].0@, (
            table@[k].1.0 as int,
            table@[k].1.1 as int,
        )) && 0 <= table@[k].1.0 <= 0x1_0000_0000 && 0 <= table@[k].1.1 <= 0x1_0000_0000 by {
            if k != key {
                assert(t0.contains_key(k));
            }
        }
    }
}

/// Row `i` of the three vectors holds the entry of `m` for `keys[i]`.
pub open spec fn rows_match(
    keys: Seq<u64>,
    data: Seq<Vec<char>>,
    starts: Seq<(i64, i64)>,
    m: Map<u64, (Seq<char>, (int, int))>,
) -> bool {
    forall|i: int| 0 <= i < keys.len() ==> #[trigger] m.contains_key(keys[i]) && m[keys[i]] == (
        data[i]@,
        (starts[i].0 as int, starts[i].1 as int),
    ) && 0 <= starts[i].0 <= 0x1_0000_0000 && 0 <= starts[i].1 <= 0x1_0000_0000
}

/// The entries in increasing color order, as three parallel vectors.
pub fn table_rows(
    table: &BTreeMap<u64, (Vec<char>, (i64, i64))>,
    Ghost(m): Ghost<Map<u64, (Seq<char>, (int, int))>>,
) -> (rows: (Vec<u64>, Vec<Vec<char>>, Vec<(i64, i64)>))
    requires
        map_holds(table@, m),
    ensures
        table_holds(rows.0@, rows.1@, rows.2@, m),
{
    proof {
        lemma_u64_keys_ordered();
        vstd::std_specs::btree::axiom_spec_keys_iter(table);
        lemma_keys_in_order(table);
    }
    let ghost ks = vstd::std_specs::btree::spec_keys_iter(table).remaining();
    let mut keys: Vec<u64> = Vec::new();
    let mut data: Vec<Vec<char>> = Vec::new();
    let mut starts: Vec<(i64, i64)> = Vec::new();
    for k in it: table.keys()
        invariant
            it.seq() == ks,
            map_holds(table@, m),
            u64_keys_ordered(),
            ks.unref().to_set() == table@.dom(),
            keys@ == ks.take(it.index() as int).unref(),
            data@.len() == keys@.len(),
            starts@.len() == keys@.len(),
            rows_match(keys@, data@, starts@, m),
    {
        let key: u64 = *k;
        proof {
            assert(ks.unref()[it.index() as int] == key);
            assert(ks.unref().to_set().contains(key));
        }
        let entry = table.get(&key).unwrap();
        let copy = slice_chars(&entry.0, 0, entry.0.len());
        proof {
            assert(entry.0@.subrange(0, entry.0@.len() as int) =~= entry.0@);
        }
        let ghost i0 = keys@.len();
        let ghost k0 = keys@;
        let ghost d0 = data@;
        let ghost s0 = starts@;
        proof {
            assert(table@.contains_key(key));
            assert(*entry == table@[key]);
        }
        keys.push(key);
        data.push(copy);
        starts.push(entry.1);
        proof {
            assert(ks.take(it.index() + 1).unref() =~= keys@);
            assert forall|i: int| 0 <= i < keys@.len() implies #[trigger] m.contains_key(keys@[i]) && m[keys@[i]] == (
                data@[i]@,
                (starts@[i].0 as int, starts@[i].1 as int),
            ) && 0 <= starts@[i].0 <= 0x1_0000_0000 && 0 <= starts@[i].1 <= 0x1_0000_0000 by {
                if i == i0 {
                    assert(keys@[i] == key && data@[i] == copy && starts@[i] == entry.1);
                    assert(m.contains_key(key));
                    assert(copy@ == entry.0@);
                    assert(m[key] == (table@[key].0@, (table@[key].1.0 as int, table@[key].1.1 as int)));
                } else {
                    assert(keys@[i] == k0[i] && data@[i] == d0[i] && starts@[i] == s0[i]);
                    assert(m.contains_key(k0[i]));
                }
            }
            assert(rows_match(keys@, data@, starts@, m));
        }
    }
    proof {
        assert(ks.take(ks.len() as int) =~= ks);
        assert(keys@ =~= ks.unref());
        assert forall|k: u64| #[trigger] m.contains_key(k) implies keys@.contains(k) by {
            assert(ks.unref().to_set().contains(k));
        }
    }
    (keys, data, starts)
}

} // verus!

//! Semantic equivalence mapping: per field, values mapped to their canonical
//! forms, so that synonyms such as "yes" and "true" are recognized as one.

use vstd::prelude::*;
use crate::record::{FieldId, copy_string};
use crate::numfmt::string_of;

verus! {

/// Per-field synonym table: for each field identifier, a table from values to
/// their canonical forms.
#[derive(Debug)]
pub struct EquivalenceMapper {
    /// One entry per field identifier, each with its pairs (value, canonical form).
    mappings: Vec<(FieldId, Vec<(String, String)>)>,
}

/// No two pairs have the same value.
pub open spec fn keys_distinct(v: Seq<(String, String)>) -> bool {
    forall|i: int, j: int| 0 <= i < j < v.len() ==> v[i].0@ != v[j].0@
}

/// Some pair has value `k`.
pub open spec fn has_key(v: Seq<(String, String)>, k: Seq<char>) -> bool {
    exists|j: int| 0 <= j < v.len() && v[j].0@ == k
}

/// The table that pairs stand for.
pub open spec fn pairs_view(v: Seq<(String, String)>) -> Map<Seq<char>, Seq<char>> {
    Map::new(|k: Seq<char>| has_key(v, k), |k: Seq<char>| v[choose|j: int| 0 <= j < v.len() && v[j].0@ == k].1@)
}

/// Some entry is for field `f`.
pub open spec fn has_field(m: Seq<(FieldId, Vec<(String, String)>)>, f: FieldId) -> bool {
    exists|i: int| 0 <= i < m.len() && m[i].0 == f
}

impl EquivalenceMapper {
    /// Entries have distinct fields, and each entry's pairs distinct values.
    #[verifier::type_invariant]
    closed spec fn wf(self) -> bool {
        entries_wf(self.mappings@)
    }
}

/// The tables that entries stand for, by field.
pub open spec fn fields_view(m: Seq<(FieldId, Vec<(String, String)>)>) -> Map<FieldId, Map<Seq<char>, Seq<char>>> {
    Map::new(|f: FieldId| has_field(m, f), |f: FieldId| pairs_view(m[choose|i: int| 0 <= i < m.len() && m[i].0 == f].1@))
}

/// No two entries are for the same field.
pub open spec fn fields_distinct(m: Seq<(FieldId, Vec<(String, String)>)>) -> bool {
    forall|i: int, j: int| 0 <= i < j < m.len() ==> m[i].0 != m[j].0
}

/// Every entry's pairs have distinct values.
pub open spec fn entries_wf(m: Seq<(FieldId, Vec<(String, String)>)>) -> bool {
    &&& fields_distinct(m)
    &&& forall|i: int| 0 <= i < m.len() ==> keys_distinct(#[trigger] m[i].1@)
}

/// The table of field `f`, empty when it has none.
pub open spec fn field_table(m: Map<FieldId, Map<Seq<char>, Seq<char>>>, f: FieldId) -> Map<Seq<char>, Seq<char>> {
    if m.contains_key(f) {
        m[f]
    } else {
        Map::empty()
    }
}

/// A table with pairs inserted one after another, a later pair replacing an
/// earlier one with the same value.
pub open spec fn insert_all(t: Map<Seq<char>, Seq<char>>, s: Seq<(Seq<char>, Seq<char>)>) -> Map<Seq<char>, Seq<char>>
    decreases s.len(),
{
    if s.len() == 0 {
        t
    } else {
        insert_all(t, s.drop_last()).insert(s.last().0, s.last().1)
    }
}

/// Pairs of strings by their characters.
pub open spec fn pairs_chars(v: Seq<(String, String)>) -> Seq<(Seq<char>, Seq<char>)> {
    v.map_values(|p: (String, String)| (p.0@, p.1@))
}

impl View for EquivalenceMapper {
    type V = Map<FieldId, Map<Seq<char>, Seq<char>>>;

    closed spec fn view(&self) -> Map<FieldId, Map<Seq<char>, Seq<char>>> {
        fields_view(self.mappings@)
    }
}

/// Replacing an entry by one for the same field.
proof fn lemma_fields_set(m: Seq<(FieldId, Vec<(String, String)>)>, i: int, e: (FieldId, Vec<(String, String)>))
    requires
        entries_wf(m),
        0 <= i < m.len(),
        m[i].0 == e.0,
        keys_distinct(e.1@),
    ensures
        entries_wf(m.update(i, e)),
        fields_view(m.update(i, e)) == fields_view(m).insert(e.0, pairs_view(e.1@)),
{
    let w = m.update(i, e);
    assert forall|f: FieldId| has_field(w, f) == has_field(m, f) by {
        if has_field(w, f) {
            let k = choose|k: int| 0 <= k < w.len() && w[k].0 == f;
            assert(m[k].0 == f);
        }
        if has_field(m, f) {
            let k = choose|k: int| 0 <= k < m.len() && m[k].0 == f;
            assert(w[k].0 == f);
        }
    }
    assert forall|k: int| 0 <= k < w.len() implies keys_distinct(#[trigger] w[k].1@) by {
        if k != i {
            assert(w[k] == m[k]);
        }
    }
    assert forall|f: FieldId| #[trigger] fields_view(w).contains_key(f) implies fields_view(w)[f]
        == fields_view(m).insert(e.0, pairs_view(e.1@))[f] by {
        let k = choose|k: int| 0 <= k < w.len() && w[k].0 == f;
        let k0 = choose|k: int| 0 <= k < m.len() && m[k].0 == f;
        assert(k == k0);
    }
    assert(fields_view(w) =~= fields_view(m).insert(e.0, pairs_view(e.1@)));
}

/// Adding an entry for a new field.
proof fn lemma_fields_push(m: Seq<(FieldId, Vec<(String, String)>)>, e: (FieldId, Vec<(String, String)>))
    requires
        entries_wf(m),
        !has_field(m, e.0),
        keys_distinct(e.1@),
    ensures
        entries_wf(m.push(e)),
        fields_view(m.push(e)) == fields_view(m).insert(e.0, pairs_view(e.1@)),
{
    let w = m.push(e);
    assert forall|i: int, j: int| 0 <= i < j < w.len() implies w[i].0 != w[j].0 by {
        if j == m.len() {
            assert(w[i] == m[i]);
        }
    }
    assert forall|k: int| 0 <= k < w.len() implies keys_distinct(#[trigger] w[k].1@) by {
        if k < m.len() {
            assert(w[k] == m[k]);
        }
    }
    assert forall|f: FieldId| has_field(w, f) == (has_field(m, f) || f == e.0) by {
        if has_field(w, f) && f != e.0 {
            let k = choose|k: int| 0 <= k < w.len() && w[k].0 == f;
            assert(m[k].0 == f);
        }
        if has_field(m, f) {
            let k = choose|k: int| 0 <= k < m.len() && m[k].0 == f;
            assert(w[k].0 == f);
        }
        if f == e.0 {
            assert(w[m.len() as int].0 == f);
        }
    }
    assert forall|f: FieldId| #[trigger] fields_view(w).contains_key(f) implies fields_view(w)[f]
        == fields_view(m).insert(e.0, pairs_view(e.1@))[f] by {
        let k = choose|k: int| 0 <= k < w.len() && w[k].0 == f;
        if f == e.0 {
            assert(w[m.len() as int].0 == f);
            assert(k == m.len());
        } else {
            let k0 = choose|k: int| 0 <= k < m.len() && m[k].0 == f;
            assert(w[k0].0 == f);
            assert(k == k0);
        }
    }
    assert(fields_view(w) =~= fields_view(m).insert(e.0, pairs_view(e.1@)));
}

/// Removing an entry removes its field.
proof fn lemma_fields_remove(m: Seq<(FieldId, Vec<(String, String)>)>, i: int)
    requires
        entries_wf(m),
        0 <= i < m.len(),
    ensures
        entries_wf(m.remove(i)),
        fields_view(m.remove(i)) == fields_view(m).remove(m[i].0),
{
    let w = m.remove(i);
    let f0 = m[i].0;
    assert forall|a: int, b: int| 0 <= a < b < w.len() implies w[a].0 != w[b].0 by {
        let a0 = if a < i { a } else { a + 1 };
        let b0 = if b < i { b } else { b + 1 };
        assert(w[a] == m[a0] && w[b] == m[b0]);
    }
    assert forall|k: int| 0 <= k < w.len() implies keys_distinct(#[trigger] w[k].1@) by {
        let k0 = if k < i { k } else { k + 1 };
        assert(w[k] == m[k0]);
    }
    assert forall|f: FieldId| has_field(w, f) == (has_field(m, f) && f != f0) by {
        if has_field(w, f) {
            let k = choose|k: int| 0 <= k < w.len() && w[k].0 == f;
            let k0 = if k < i { k } else { k + 1 };
            assert(m[k0].0 == f);
        }
        if has_field(m, f) && f != f0 {
            let k = choose|k: int| 0 <= k < m.len() && m[k].0 == f;
            let k1 = if k < i { k } else { k - 1 };
            assert(w[k1].0 == f);
        }
    }
    assert forall|f: FieldId| #[trigger] fields_view(w).contains_key(f) implies fields_view(w)[f]
        == fields_view(m).remove(f0)[f] by {
        let k = choose|k: int| 0 <= k < w.len() && w[k].0 == f;
        let k0 = choose|k: int| 0 <= k < m.len() && m[k].0 == f;
        let kk = if k < i { k } else { k + 1 };
        assert(m[kk].0 == f);
        assert(kk == k0);
    }
    assert(fields_view(w) =~= fields_view(m).remove(f0));
}

/// Adding or replacing a pair: the table with `k` mapped to `x`.
proof fn lemma_pairs_set(v: Seq<(String, String)>, j: int, p: (String, String))
    requires
        keys_distinct(v),
        0 <= j < v.len(),
        v[j].0@ == p.0@,
    ensures
        keys_distinct(v.update(j, p)),
        pairs_view(v.update(j, p)) == pairs_view(v).insert(p.0@, p.1@),
{
    let w = v.update(j, p);
    assert forall|k: Seq<char>| has_key(w, k) == has_key(v, k) by {
        if has_key(w, k) {
            let i = choose|i: int| 0 <= i < w.len() && w[i].0@ == k;
            assert(v[i].0@ == k);
        }
        if has_key(v, k) {
            let i = choose|i: int| 0 <= i < v.len() && v[i].0@ == k;
            assert(w[i].0@ == k);
        }
    }
    assert forall|k: Seq<char>| #[trigger] pairs_view(w).contains_key(k) implies pairs_view(w)[k]
        == pairs_view(v).insert(p.0@, p.1@)[k] by {
        let i = choose|i: int| 0 <= i < w.len() && w[i].0@ == k;
        let i0 = choose|i: int| 0 <= i < v.len() && v[i].0@ == k;
        assert(i == i0);
    }
    assert(pairs_view(w) =~= pairs_view(v).insert(p.0@, p.1@));
}

/// Adding a pair with a new value.
proof fn lemma_pairs_push(v: Seq<(String, String)>, p: (String, String))
    requires
        keys_distinct(v),
        !has_key(v, p.0@),
    ensures
        keys_distinct(v.push(p)),
        pairs_view(v.push(p)) == pairs_view(v).insert(p.0@, p.1@),
{
    let w = v.push(p);
    assert forall|i: int, j: int| 0 <= i < j < w.len() implies w[i].0@ != w[j].0@ by {
        if j == v.len() {
            assert(w[i] == v[i]);
        }
    }
    assert forall|k: Seq<char>| has_key(w, k) == (has_key(v, k) || k == p.0@) by {
        if has_key(w, k) && k != p.0@ {
            let i = choose|i: int| 0 <= i < w.len() && w[i].0@ == k;
            assert(v[i].0@ == k);
        }
        if has_key(v, k) {
            let i = choose|i: int| 0 <= i < v.len() && v[i].0@ == k;
            assert(w[i].0@ == k);
        }
        if k == p.0@ {
            assert(w[v.len() as int].0@ == k);
        }
    }
    assert forall|k: Seq<char>| #[trigger] pairs_view(w).contains_key(k) implies pairs_view(w)[k]
        == pairs_view(v).insert(p.0@, p.1@)[k] by {
        let i = choose|i: int| 0 <= i < w.len() && w[i].0@ == k;
        if k == p.0@ {
            assert(w[v.len() as int].0@ == k);
            assert(i == v.len());
        } else {
            let i0 = choose|i: int| 0 <= i < v.len() && v[i].0@ == k;
            assert(w[i0].0@ == k);
            assert(i == i0);
        }
    }
    assert(pairs_view(w) =~= pairs_view(v).insert(p.0@, p.1@));
}

/// Index of the pair with value `k`, if any.
fn find_key(v: &Vec<(String, String)>, k: &String) -> (r: Option<usize>)
    ensures
        match r {
            Some(j) => j < v@.len() && v@[j as int].0@ == k@,
            None => !has_key(v@, k@),
        },
{
    let mut j: usize = 0;
    while j < v.len()
        invariant
            j <= v@.len(),
            forall|i: int| 0 <= i < j ==> v@[i].0@ != k@,
        decreases v.len() - j,
    {
        if v[j].0 == *k {
            return Some(j);
        }
        j = j + 1;
    }
    None
}

/// Index of the entry for field `f`, if any.
fn find_field(m: &Vec<(FieldId, Vec<(String, String)>)>, f: FieldId) -> (r: Option<usize>)
    ensures
        match r {
            Some(i) => i < m@.len() && m@[i as int].0 == f,
            None => !has_field(m@, f),
        },
{
    let mut i: usize = 0;
    while i < m.len()
        invariant
            i <= m@.len(),
            forall|j: int| 0 <= j < i ==> m@[j].0 != f,
        decreases m.len() - i,
    {
        if m[i].0 == f {
            return Some(i);
        }
        i = i + 1;
    }
    None
}

/// Pairs equal by their characters stand for the same table.
proof fn lemma_pairs_same(v: Seq<(String, String)>, w: Seq<(String, String)>)
    requires
        pairs_chars(v) == pairs_chars(w),
        keys_distinct(v),
    ensures
        keys_distinct(w),
        pairs_view(v) == pairs_view(w),
{
    assert(v.len() == pairs_chars(v).len() && w.len() == pairs_chars(w).len());
    assert forall|j: int| 0 <= j < v.len() implies v[j].0@ == w[j].0@ && v[j].1@ == w[j].1@ by {
        assert(pairs_chars(v)[j] == pairs_chars(w)[j]);
    }
    assert forall|k: Seq<char>| has_key(v, k) == has_key(w, k) by {
        if has_key(v, k) {
            let j = choose|j: int| 0 <= j < v.len() && v[j].0@ == k;
            assert(w[j].0@ == k);
        }
        if has_key(w, k) {
            let j = choose|j: int| 0 <= j < w.len() && w[j].0@ == k;
            assert(v[j].0@ == k);
        }
    }
    assert forall|k: Seq<char>| #[trigger] pairs_view(v).contains_key(k) implies pairs_view(v)[k] == pairs_view(w)[k] by {
        let j1 = choose|j: int| 0 <= j < v.len() && v[j].0@ == k;
        let j2 = choose|j: int| 0 <= j < w.len() && w[j].0@ == k;
        assert(v[j2].0@ == k);
        assert(j1 == j2);
    }
    assert(pairs_view(v) =~= pairs_view(w));
}

/// Two entries for the same field with pairs equal by their characters.
pub open spec fn same_entry(a: (FieldId, Vec<(String, String)>), b: (FieldId, Vec<(String, String)>)) -> bool {
    a.0 == b.0 && pairs_chars(a.1@) == pairs_chars(b.1@)
}

/// Entries with the same fields and pairs equal by their characters stand
/// for the same tables.
proof fn lemma_fields_same(m: Seq<(FieldId, Vec<(String, String)>)>, n: Seq<(FieldId, Vec<(String, String)>)>)
    requires
        entries_wf(m),
        m.len() == n.len(),
        forall|j: int| 0 <= j < m.len() ==> same_entry(#[trigger] m[j], n[j]),
    ensures
        entries_wf(n),
        fields_view(m) == fields_view(n),
{
    assert forall|j: int| 0 <= j < n.len() implies keys_distinct(#[trigger] n[j].1@) by {
        assert(same_entry(m[j], n[j]));
        lemma_pairs_same(m[j].1@, n[j].1@);
    }
    assert forall|i: int, j: int| 0 <= i < j < n.len() implies n[i].0 != n[j].0 by {
        assert(same_entry(m[i], n[i]) && same_entry(m[j], n[j]));
    }
    assert forall|f: FieldId| has_field(m, f) == has_field(n, f) by {
        if has_field(m, f) {
            let j = choose|j: int| 0 <= j < m.len() && m[j].0 == f;
            assert(same_entry(m[j], n[j]));
        }
        if has_field(n, f) {
            let j = choose|j: int| 0 <= j < n.len() && n[j].0 == f;
            assert(same_entry(m[j], n[j]));
        }
    }
    assert forall|f: FieldId| #[trigger] fields_view(m).contains_key(f) implies fields_view(m)[f] == fields_view(n)[f] by {
        let j1 = choose|j: int| 0 <= j < m.len() && m[j].0 == f;
        let j2 = choose|j: int| 0 <= j < n.len() && n[j].0 == f;
        assert(same_entry(m[j2], n[j2]));
        assert(m[j2].0 == f);
        assert(j1 == j2);
        assert(same_entry(m[j1], n[j1]));
        lemma_pairs_same(m[j1].1@, n[j1].1@);
    }
    assert(fields_view(m) =~= fields_view(n));
}

/// A table from pairs with distinct values has one entry per pair.
proof fn lemma_pairs_len(v: Seq<(String, String)>)
    requires
        keys_distinct(v),
    ensures
        pairs_view(v).len() == v.len(),
{
    let ks = v.map_values(|p: (String, String)| p.0@);
    assert(ks.no_duplicates()) by {
        assert forall|i: int, j: int| 0 <= i < ks.len() && 0 <= j < ks.len() && i != j implies ks[i] != ks[j] by {
            if i < j {
                assert(v[i].0@ != v[j].0@);
            } else {
                assert(v[j].0@ != v[i].0@);
            }
        }
    }
    ks.unique_seq_to_set();
    assert forall|k: Seq<char>| ks.to_set().contains(k) == has_key(v, k) by {
        if has_key(v, k) {
            let j = choose|j: int| 0 <= j < v.len() && v[j].0@ == k;
            assert(ks[j] == k);
        }
        if ks.contains(k) {
            let j = choose|j: int| 0 <= j < ks.len() && ks[j] == k;
            assert(v[j].0@ == k);
        }
    }
    assert(pairs_view(v).dom() =~= ks.to_set());
}

/// Tables by field from entries with distinct fields number as the entries.
proof fn lemma_fields_len(m: Seq<(FieldId, Vec<(String, String)>)>)
    requires
        fields_distinct(m),
    ensures
        fields_view(m).len() == m.len(),
{
    let fs = m.map_values(|e: (FieldId, Vec<(String, String)>)| e.0);
    assert(fs.no_duplicates()) by {
        assert forall|i: int, j: int| 0 <= i < fs.len() && 0 <= j < fs.len() && i != j implies fs[i] != fs[j] by {
            if i < j {
                assert(m[i].0 != m[j].0);
            } else {
                assert(m[j].0 != m[i].0);
            }
        }
    }
    fs.unique_seq_to_set();
    assert forall|f: FieldId| fs.to_set().contains(f) == has_field(m, f) by {
        if has_field(m, f) {
            let j = choose|j: int| 0 <= j < m.len() && m[j].0 == f;
            assert(fs[j] == f);
        }
        if fs.contains(f) {
            let j = choose|j: int| 0 <= j < fs.len() && fs[j] == f;
            assert(m[j].0 == f);
        }
    }
    assert(fields_view(m).dom() =~= fs.to_set());
}

/// Records `from` mapped to `to` in `pairs`, replacing the pair with value
/// `from` if there is one.
fn put_pair(pairs: &mut Vec<(String, String)>, from: String, to: String)
    requires
        keys_distinct(old(pairs)@),
    ensures
        keys_distinct(final(pairs)@),
        pairs_view(final(pairs)@) == pairs_view(old(pairs)@).insert(from@, to@),
{
    let ghost before = pairs@;
    match find_key(pairs, &from) {
        Some(j) => {
            pairs.set(j, (from, to));
            proof {
                assert(pairs@ =~= before.update(j as int, pairs@[j as int]));
                lemma_pairs_set(before, j as int, pairs@[j as int]);
            }
        },
        None => {
            pairs.push((from, to));
            proof {
                assert(pairs@ =~= before.push(pairs@[before.len() as int]));
                lemma_pairs_push(before, pairs@[before.len() as int]);
            }
        },
    }
}

/// A copy of pairs.
fn copy_pairs(v: &Vec<(String, String)>) -> (r: Vec<(String, String)>)
    ensures
        pairs_chars(r@) == pairs_chars(v@),
{
    let mut r: Vec<(String, String)> = Vec::new();
    let mut i: usize = 0;
    while i < v.len()
        invariant
            i <= v@.len(),
            r@.len() == i,
            forall|j: int| 0 <= j < i ==> r@[j].0@ == v@[j].0@ && r@[j].1@ == v@[j].1@,
        decreases v.len() - i,
    {
        r.push((copy_string(&v[i].0), copy_string(&v[i].1)));
        i = i + 1;
    }
    assert(pairs_chars(r@) =~= pairs_chars(v@));
    r
}

impl EquivalenceMapper {
    /// An empty mapper.
    pub fn new() -> (m: Self)
        ensures
            m@ == Map::<FieldId, Map<Seq<char>, Seq<char>>>::empty(),
    {
        let m = EquivalenceMapper { mappings: Vec::new() };
        assert(m@ =~= Map::<FieldId, Map<Seq<char>, Seq<char>>>::empty());
        m
    }

    /// An empty mapper; the default boolean synonyms are added per field by
    /// `apply_default_bool_mappings`.
    pub fn with_defaults() -> (m: Self)
        ensures
            m@ == Map::<FieldId, Map<Seq<char>, Seq<char>>>::empty(),
    {
        Self::new()
    }

    /// The canonical form of `value` for field `fid`, if one is recorded.
    pub fn map(&self, fid: FieldId, value: &str) -> (r: Option<String>)
        ensures
            match r {
                Some(s) => self@.contains_key(fid) && self@[fid].contains_key(value@) && s@ == self@[fid][value@],
                None => !(self@.contains_key(fid) && self@[fid].contains_key(value@)),
            },
    {
        proof {
            use_type_invariant(self);
        }
        let key = string_of(value);
        match find_field(&self.mappings, fid) {
            None => None,
            Some(i) => {
                let ghost m = self.mappings@;
                assert((choose|j: int| 0 <= j < m.len() && m[j].0 == fid) == i);
                let pairs = &self.mappings[i].1;
                match find_key(pairs, &key) {
                    None => None,
                    Some(j) => {
                        assert((choose|x: int| 0 <= x < pairs@.len() && pairs@[x].0@ == key@) == j);
                        Some(copy_string(&pairs[j].1))
                    },
                }
            },
        }
    }
}

impl EquivalenceMapper {
    /// Records, for field `fid`, the canonical form `to` of value `from`,
    /// replacing an earlier one.
    pub fn add_mapping(&mut self, fid: FieldId, from: String, to: String)
        ensures
            final(self)@ == old(self)@.insert(fid, field_table(old(self)@, fid).insert(from@, to@)),
    {
        let ghost fv = from@;
        let ghost tv = to@;
        let mut v: Vec<(String, String)> = Vec::new();
        v.push((from, to));
        let ghost s = pairs_chars(v@);
        let ghost t = field_table(self@, fid);
        assert(s.drop_last() =~= Seq::<(Seq<char>, Seq<char>)>::empty());
        assert(s.last() == (fv, tv));
        assert(insert_all(t, s.drop_last()) == t);
        assert(insert_all(t, s) == t.insert(fv, tv));
        self.add_mappings(fid, v);
    }

    /// Records pairs (value, canonical form) for field `fid` one after
    /// another, a later pair replacing an earlier one; the field gets a
    /// table, though an empty one, even when there are no pairs.
    pub fn add_mappings(&mut self, fid: FieldId, mappings: Vec<(String, String)>)
        ensures
            final(self)@ == old(self)@.insert(fid, insert_all(field_table(old(self)@, fid), pairs_chars(mappings@))),
    {
        proof {
            use_type_invariant(&*self);
        }
        let mut entries: Vec<(FieldId, Vec<(String, String)>)> = Vec::new();
        std::mem::swap(&mut entries, &mut self.mappings);
        let ghost m0 = entries@;
        assert(fields_view(m0) == old(self)@);
        let found = find_field(&entries, fid);
        let mut pairs: Vec<(String, String)> = match found {
            Some(i) => {
                let (_, p) = entries.remove(i);
                proof {
                    assert((choose|j: int| 0 <= j < m0.len() && m0[j].0 == fid) == i);
                }
                p
            },
            None => {
                proof {
                    assert(pairs_view(Seq::<(String, String)>::empty()) =~= Map::<Seq<char>, Seq<char>>::empty());
                }
                Vec::new()
            },
        };
        let ghost base = pairs_view(pairs@);
        assert(base == field_table(old(self)@, fid));
        let ghost all = pairs_chars(mappings@);
        let mut k: usize = 0;
        assert(all.take(0) =~= Seq::<(Seq<char>, Seq<char>)>::empty());
        while k < mappings.len()
            invariant
                k <= mappings@.len(),
                all == pairs_chars(mappings@),
                keys_distinct(pairs@),
                pairs_view(pairs@) == insert_all(base, all.take(k as int)),
            decreases mappings.len() - k,
        {
            let from = copy_string(&mappings[k].0);
            let to = copy_string(&mappings[k].1);
            put_pair(&mut pairs, from, to);
            proof {
                assert(all.take(k + 1).drop_last() =~= all.take(k as int));
                assert(all.take(k + 1).last() == all[k as int]);
            }
            k = k + 1;
        }
        assert(all.take(mappings@.len() as int) =~= all);
        let ghost e_fid = fid;
        match found {
            Some(i) => {
                entries.insert(i, (fid, pairs));
                proof {
                    assert(entries@ =~= m0.update(i as int, entries@[i as int]));
                    lemma_fields_set(m0, i as int, entries@[i as int]);
                }
            },
            None => {
                entries.push((fid, pairs));
                proof {
                    assert(entries@ =~= m0.push(entries@[m0.len() as int]));
                    lemma_fields_push(m0, entries@[m0.len() as int]);
                }
            },
        }
        self.mappings = entries;
    }

    /// Records the boolean synonyms for field `fid`: "yes", "Yes", "YES",
    /// "true", "True", "TRUE" map to "1"; "no", "No", "NO", "false",
    /// "False", "FALSE" map to "0".
    pub fn apply_default_bool_mappings(&mut self, fid: FieldId)
        ensures
            final(self)@ == old(self)@.insert(fid, insert_all(field_table(old(self)@, fid), default_bool_pairs())),
    {
        let mut v: Vec<(String, String)> = Vec::new();
        v.push((string_of("yes"), string_of("1")));
        v.push((string_of("Yes"), string_of("1")));
        v.push((string_of("YES"), string_of("1")));
        v.push((string_of("true"), string_of("1")));
        v.push((string_of("True"), string_of("1")));
        v.push((string_of("TRUE"), string_of("1")));
        v.push((string_of("no"), string_of("0")));
        v.push((string_of("No"), string_of("0")));
        v.push((string_of("NO"), string_of("0")));
        v.push((string_of("false"), string_of("0")));
        v.push((string_of("False"), string_of("0")));
        v.push((string_of("FALSE"), string_of("0")));
        assert(pairs_chars(v@) =~= default_bool_pairs());
        self.add_mappings(fid, v);
    }

    /// Whether field `fid` records a canonical form for `value`.
    pub fn has_mapping(&self, fid: FieldId, value: &str) -> (r: bool)
        ensures
            r == (self@.contains_key(fid) && self@[fid].contains_key(value@)),
    {
        self.map(fid, value).is_some()
    }

    /// The number of fields with a table.
    pub fn field_count(&self) -> (n: usize)
        ensures
            n == self@.len(),
    {
        proof {
            use_type_invariant(self);
            lemma_fields_len(self.mappings@);
        }
        self.mappings.len()
    }

    /// The number of values with a canonical form in field `fid`.
    pub fn mapping_count(&self, fid: FieldId) -> (n: usize)
        ensures
            n == field_table(self@, fid).len(),
    {
        proof {
            use_type_invariant(self);
        }
        match find_field(&self.mappings, fid) {
            None => {
                proof {
                    assert(Map::<Seq<char>, Seq<char>>::empty().dom() =~= Set::<Seq<char>>::empty());
                }
                0
            },
            Some(i) => {
                proof {
                    let m = self.mappings@;
                    assert((choose|j: int| 0 <= j < m.len() && m[j].0 == fid) == i);
                    lemma_pairs_len(m[i as int].1@);
                }
                self.mappings[i].1.len()
            },
        }
    }

    /// Drops the table of field `fid`.
    pub fn clear_field(&mut self, fid: FieldId)
        ensures
            final(self)@ == old(self)@.remove(fid),
    {
        proof {
            use_type_invariant(&*self);
        }
        let mut entries: Vec<(FieldId, Vec<(String, String)>)> = Vec::new();
        std::mem::swap(&mut entries, &mut self.mappings);
        let ghost m0 = entries@;
        match find_field(&entries, fid) {
            Some(i) => {
                entries.remove(i);
                proof {
                    lemma_fields_remove(m0, i as int);
                }
            },
            None => {
                assert(fields_view(m0).remove(fid) =~= fields_view(m0));
            },
        }
        self.mappings = entries;
    }

    /// Drops every table.
    pub fn clear(&mut self)
        ensures
            final(self)@ == Map::<FieldId, Map<Seq<char>, Seq<char>>>::empty(),
    {
        self.mappings = Vec::new();
        assert(fields_view(self.mappings@) =~= Map::<FieldId, Map<Seq<char>, Seq<char>>>::empty());
    }
}

/// The boolean synonyms, in the order they are recorded.
pub open spec fn default_bool_pairs() -> Seq<(Seq<char>, Seq<char>)> {
    seq![
        ("yes"@, "1"@),
        ("Yes"@, "1"@),
        ("YES"@, "1"@),
        ("true"@, "1"@),
        ("True"@, "1"@),
        ("TRUE"@, "1"@),
        ("no"@, "0"@),
        ("No"@, "0"@),
        ("NO"@, "0"@),
        ("false"@, "0"@),
        ("False"@, "0"@),
        ("FALSE"@, "0"@),
    ]
}

impl Default for EquivalenceMapper {
    fn default() -> (m: Self)
        ensures
            m@ == Map::<FieldId, Map<Seq<char>, Seq<char>>>::empty(),
    {
        Self::new()
    }
}

impl Clone for EquivalenceMapper {
    /// A mapper with the same tables.
    fn clone(&self) -> (r: Self)
        ensures
            r@ == self@,
    {
        proof {
            use_type_invariant(self);
        }
        let mut out: Vec<(FieldId, Vec<(String, String)>)> = Vec::new();
        let mut i: usize = 0;
        while i < self.mappings.len()
            invariant
                i <= self.mappings@.len(),
                out@.len() == i,
                forall|j: int| 0 <= j < i ==> same_entry(#[trigger] self.mappings@[j], out@[j]),
            decreases self.mappings.len() - i,
        {
            let pairs = copy_pairs(&self.mappings[i].1);
            out.push((self.mappings[i].0, pairs));
            i = i + 1;
        }
        proof {
            lemma_fields_same(self.mappings@, out@);
        }
        EquivalenceMapper { mappings: out }
    }
}

/// A mapping just recorded is what its field's table gives for the value,
/// and the tables of other fields are as they were.
pub proof fn lemma_add_then_map(
    m: Map<FieldId, Map<Seq<char>, Seq<char>>>,
    fid: FieldId,
    other: FieldId,
    from: Seq<char>,
    to: Seq<char>,
)
    ensures
        m.insert(fid, field_table(m, fid).insert(from, to)).contains_key(fid),
        m.insert(fid, field_table(m, fid).insert(from, to))[fid].contains_key(from),
        m.insert(fid, field_table(m, fid).insert(from, to))[fid][from] == to,
        other != fid ==> field_table(m.insert(fid, field_table(m, fid).insert(from, to)), other) == field_table(m, other),
{
}

} // verus!

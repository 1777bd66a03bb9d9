//! Canonical form of records: fields ordered by identifier at every level,
//! nested records and arrays made canonical in turn, and fields that hold
//! nothing (an empty string, array, nested record or nested array) dropped.

use vstd::prelude::*;
use crate::record::{
    LnmpField, LnmpRecord, LnmpValue, FieldModel, ValueModel, sort_by_fid, insert_by_fid, fields_model,
    records_model, lemma_fields_model, lemma_records_model, copy_string, copy_strings, fids_ascending,
};
use crate::binary::nested_encoder::{fsize, vsize, rsize, lemma_fsize_push, lemma_fsize_sort, lemma_fsize_member};
use crate::binary::delta::{fields_eq, field_lists_eq};
use crate::binary::delta_props::lemma_with_sort;
use crate::binary::types::is_flat;
use crate::record::{with_fid, lemma_filter_push};

verus! {

/// A value that holds nothing: an empty string, string array, nested record
/// or nested array.
pub open spec fn is_empty_model(v: ValueModel) -> bool {
    match v {
        ValueModel::Str(s) => s.len() == 0,
        ValueModel::StrArray(a) => a.len() == 0,
        ValueModel::Record(fs) => fs.len() == 0,
        ValueModel::RecordArray(rs) => rs.len() == 0,
        _ => false,
    }
}

/// The size of records with one more at the end.
pub proof fn lemma_rsize_push(t: Seq<Seq<FieldModel>>, x: Seq<FieldModel>)
    ensures
        rsize(t.push(x)) == rsize(t) + fsize(x) + 2,
    decreases t.len(),
{
    if t.len() > 0 {
        assert(t.push(x).subrange(1, t.len() + 1int) =~= t.subrange(1, t.len() as int).push(x));
        lemma_rsize_push(t.subrange(1, t.len() as int), x);
        assert(t.push(x)[0] == t[0]);
        assert(rsize(t.push(x)) == fsize(t[0]) + 2 + rsize(t.subrange(1, t.len() as int).push(x)));
    } else {
        assert(t.push(x).subrange(1, 1) =~= Seq::<Seq<FieldModel>>::empty());
        assert(t.push(x)[0] == x);
        assert(rsize(t.push(x)) == fsize(x) + 2 + rsize(Seq::<Seq<FieldModel>>::empty()));
    }
}

/// A value made canonical: nested records and arrays made canonical in turn.
pub open spec fn canonical_value(v: ValueModel) -> ValueModel
    decreases vsize(v), 2nat,
{
    match v {
        ValueModel::Record(fs) => ValueModel::Record(canonical_record(fs)),
        ValueModel::RecordArray(rs) => ValueModel::RecordArray(canonical_records(rs)),
        _ => v,
    }
}

/// The canonical form of a record: fields in identifier order (equal
/// identifiers in the order they come), values made canonical, fields that
/// then hold nothing dropped.
pub open spec fn canonical_record(fs: Seq<FieldModel>) -> Seq<FieldModel>
    decreases fsize(fs) + 1, 1nat,
{
    proof {
        lemma_fsize_sort(fs);
    }
    canonical_list(sort_by_fid(fs))
}

/// Fields in their order with values made canonical, those that then hold
/// nothing dropped.
pub open spec fn canonical_list(fs: Seq<FieldModel>) -> Seq<FieldModel>
    decreases fsize(fs), 0nat,
{
    if fs.len() == 0 {
        Seq::empty()
    } else {
        proof {
            assert(fs =~= fs.drop_last().push(fs.last()));
            lemma_fsize_push(fs.drop_last(), fs.last());
        }
        let v = canonical_value(fs.last().value);
        let pre = canonical_list(fs.drop_last());
        if is_empty_model(v) {
            pre
        } else {
            pre.push(FieldModel { fid: fs.last().fid, value: v })
        }
    }
}

/// Records each made canonical.
pub open spec fn canonical_records(rs: Seq<Seq<FieldModel>>) -> Seq<Seq<FieldModel>>
    decreases rsize(rs), 0nat,
{
    if rs.len() == 0 {
        Seq::empty()
    } else {
        proof {
            assert(rs =~= rs.drop_last().push(rs.last()));
            lemma_rsize_push(rs.drop_last(), rs.last());
        }
        canonical_records(rs.drop_last()).push(canonical_record(rs.last()))
    }
}

/// Whether a value holds nothing.
pub fn is_empty_value(value: &LnmpValue) -> (r: bool)
    ensures
        r == is_empty_model(value@),
{
    match value {
        LnmpValue::String(s) => {
            s.unicode_len() == 0
        },
        LnmpValue::StringArray(a) => {
            assert(crate::record::strings_model(a@).len() == a@.len());
            a.len() == 0
        },
        LnmpValue::NestedRecord(r) => {
            proof {
                lemma_fields_model(r.fields@);
            }
            r.fields.len() == 0
        },
        LnmpValue::NestedArray(rs) => {
            proof {
                lemma_records_model(rs@);
            }
            rs.len() == 0
        },
        _ => false,
    }
}

/// A value made canonical.
fn canonicalize_value(value: &LnmpValue) -> (r: LnmpValue)
    ensures
        r@ == canonical_value(value@),
    decreases vsize(value@), 2nat,
{
    match value {
        LnmpValue::Int(i) => LnmpValue::Int(*i),
        LnmpValue::Float(f) => LnmpValue::Float(*f),
        LnmpValue::Bool(b) => LnmpValue::Bool(*b),
        LnmpValue::String(s) => LnmpValue::String(copy_string(s)),
        LnmpValue::StringArray(a) => LnmpValue::StringArray(copy_strings(a)),
        LnmpValue::NestedRecord(r) => LnmpValue::NestedRecord(Box::new(canonicalize_record(r))),
        LnmpValue::NestedArray(rs) => {
            let ghost m = records_model(rs@);
            proof {
                lemma_records_model(rs@);
            }
            let mut out: Vec<LnmpRecord> = Vec::new();
            let mut i: usize = 0;
            assert(m.take(0) =~= Seq::<Seq<FieldModel>>::empty());
            assert(records_model(out@) =~= Seq::<Seq<FieldModel>>::empty());
            while i < rs.len()
                invariant
                    i <= rs@.len(),
                    m == records_model(rs@),
                    m.len() == rs@.len(),
                    forall|j: int| 0 <= j < m.len() ==> #[trigger] m[j] == rs@[j]@,
                    vsize(value@) == rsize(m) + 1,
                    records_model(out@) == canonical_records(m.take(i as int)),
                decreases rs.len() - i,
            {
                proof {
                    crate::binary::nested_encoder::lemma_rsize_member(m, i as int);
                    assert(m.take(i + 1).drop_last() =~= m.take(i as int));
                    assert(m.take(i + 1).last() == m[i as int]);
                }
                let c = canonicalize_record(&rs[i]);
                let ghost before = out@;
                out.push(c);
                proof {
                    assert(out@.drop_last() =~= before);
                }
                i = i + 1;
            }
            assert(m.take(rs@.len() as int) =~= m);
            LnmpValue::NestedArray(out)
        },
    }
}

/// The canonical form of a record: fields sorted by identifier (stable),
/// nested records and arrays made canonical, fields that hold nothing
/// (empty string, array, nested record or nested array) left out.
pub fn canonicalize_record(record: &LnmpRecord) -> (r: LnmpRecord)
    ensures
        r@ == canonical_record(record@),
    decreases fsize(record@) + 1, 1nat,
{
    let sorted = record.sorted_fields();
    let ghost s = sort_by_fid(record@);
    proof {
        lemma_fsize_sort(record@);
        lemma_fields_model(sorted@);
    }
    let mut out = LnmpRecord::new();
    let mut i: usize = 0;
    assert(s.take(0) =~= Seq::<FieldModel>::empty());
    while i < sorted.len()
        invariant
            i <= sorted@.len(),
            s == fields_model(sorted@),
            s.len() == sorted@.len(),
            forall|j: int| 0 <= j < s.len() ==> #[trigger] s[j] == sorted@[j]@,
            fsize(s) == fsize(record@),
            out@ == canonical_list(s.take(i as int)),
        decreases sorted.len() - i,
    {
        proof {
            lemma_fsize_member(s, i as int);
            assert(s.take(i + 1).drop_last() =~= s.take(i as int));
            assert(s.take(i + 1).last() == s[i as int]);
        }
        let v = canonicalize_value(&sorted[i].value);
        if !is_empty_value(&v) {
            out.add_field(LnmpField { fid: sorted[i].fid, value: v });
        }
        i = i + 1;
    }
    assert(s.take(sorted@.len() as int) =~= s);
    out
}

/// Whether making a record canonical a second time changes nothing, values
/// compared as the record type compares them (floats as numbers, so a NaN
/// anywhere makes the answer false).
pub fn validate_round_trip_stability(record: &LnmpRecord) -> (r: bool)
    ensures
        r == fields_eq(canonical_record(record@), canonical_record(canonical_record(record@))),
{
    let once = canonicalize_record(record);
    let twice = canonicalize_record(&once);
    field_lists_eq(&once.fields, &twice.fields)
}

/// Placing a field keeps every identifier under a bound that the field and
/// the list are under.
proof fn lemma_insert_bound(t: Seq<FieldModel>, x: FieldModel, b: u16)
    requires
        forall|k: int| 0 <= k < t.len() ==> #[trigger] t[k].fid <= b,
        x.fid <= b,
    ensures
        forall|k: int| 0 <= k < insert_by_fid(t, x).len() ==> #[trigger] insert_by_fid(t, x)[k].fid <= b,
    decreases t.len(),
{
    if !(t.len() == 0 || t.last().fid <= x.fid) {
        lemma_insert_bound(t.drop_last(), x, b);
    }
}

/// Placing a field in an ordered list keeps it ordered.
proof fn lemma_insert_ascending(t: Seq<FieldModel>, x: FieldModel)
    requires
        fids_ascending(t),
    ensures
        fids_ascending(insert_by_fid(t, x)),
    decreases t.len(),
{
    if !(t.len() == 0 || t.last().fid <= x.fid) {
        let init = t.drop_last();
        lemma_insert_ascending(init, x);
        lemma_insert_bound(init, x, t.last().fid);
    }
}

/// Sorting gives an ordered list.
pub(crate) proof fn lemma_sort_ascending(s: Seq<FieldModel>)
    ensures
        fids_ascending(sort_by_fid(s)),
    decreases s.len(),
{
    if s.len() > 0 {
        lemma_sort_ascending(s.drop_last());
        lemma_insert_ascending(sort_by_fid(s.drop_last()), s.last());
    }
}

/// Sorting an ordered list changes nothing.
proof fn lemma_sort_ordered(s: Seq<FieldModel>)
    requires
        fids_ascending(s),
    ensures
        sort_by_fid(s) == s,
    decreases s.len(),
{
    if s.len() > 0 {
        lemma_sort_ordered(s.drop_last());
        assert(s.drop_last().push(s.last()) =~= s);
    }
}

/// The canonical list of fields under a bound stays under it, and that of an
/// ordered list is ordered.
proof fn lemma_list_ordered(s: Seq<FieldModel>, b: u16)
    ensures
        (forall|k: int| 0 <= k < s.len() ==> #[trigger] s[k].fid <= b) ==> forall|k: int|
            0 <= k < canonical_list(s).len() ==> #[trigger] canonical_list(s)[k].fid <= b,
        fids_ascending(s) ==> fids_ascending(canonical_list(s)),
    decreases s.len(),
{
    if s.len() > 0 {
        let init = s.drop_last();
        let last = s.last();
        lemma_list_ordered(init, b);
        lemma_list_ordered(init, last.fid);
        if forall|k: int| 0 <= k < s.len() ==> #[trigger] s[k].fid <= b {
            assert forall|k: int| 0 <= k < init.len() implies #[trigger] init[k].fid <= b by {
                assert(init[k] == s[k]);
            }
        }
        if fids_ascending(s) {
            assert forall|k: int| 0 <= k < init.len() implies #[trigger] init[k].fid <= last.fid by {
                assert(init[k] == s[k]);
            }
        }
    }
}

/// Every field holds something and a value that is already canonical.
pub open spec fn is_canonical_list(c: Seq<FieldModel>) -> bool {
    forall|k: int| 0 <= k < c.len() ==> !is_empty_model(#[trigger] c[k].value) && canonical_value(c[k].value) == c[k].value
}

/// A canonical list is its own canonical list.
proof fn lemma_list_fixed(c: Seq<FieldModel>)
    requires
        is_canonical_list(c),
    ensures
        canonical_list(c) == c,
    decreases c.len(),
{
    if c.len() > 0 {
        let init = c.drop_last();
        assert forall|k: int| 0 <= k < init.len() implies !is_empty_model(#[trigger] init[k].value)
            && canonical_value(init[k].value) == init[k].value by {
            assert(init[k] == c[k]);
        }
        lemma_list_fixed(init);
        assert(c[c.len() - 1] == c.last());
        assert(init.push(c.last()) =~= c);
    }
}

/// Making a value canonical twice gives what making it canonical once gives.
proof fn lemma_value_idem(v: ValueModel)
    ensures
        canonical_value(canonical_value(v)) == canonical_value(v),
    decreases vsize(v), 2nat,
{
    match v {
        ValueModel::Record(fs) => lemma_record_idem(fs),
        ValueModel::RecordArray(rs) => lemma_records_idem(rs),
        _ => {},
    }
}

/// The canonical list of fields is canonical.
proof fn lemma_list_canonical(s: Seq<FieldModel>)
    ensures
        is_canonical_list(canonical_list(s)),
    decreases fsize(s), 0nat,
{
    if s.len() > 0 {
        let init = s.drop_last();
        let last = s.last();
        assert(s =~= init.push(last));
        lemma_fsize_push(init, last);
        lemma_list_canonical(init);
        lemma_value_idem(last.value);
        let c = canonical_list(s);
        let pre = canonical_list(init);
        assert forall|k: int| 0 <= k < c.len() implies !is_empty_model(#[trigger] c[k].value)
            && canonical_value(c[k].value) == c[k].value by {
            if k < pre.len() {
                assert(c[k] == pre[k]);
            }
        }
    }
}

/// Making a record canonical twice gives what making it canonical once gives.
proof fn lemma_record_idem(fs: Seq<FieldModel>)
    ensures
        canonical_record(canonical_record(fs)) == canonical_record(fs),
        fids_ascending(canonical_record(fs)),
        is_canonical_list(canonical_record(fs)),
    decreases fsize(fs) + 1, 1nat,
{
    let s = sort_by_fid(fs);
    lemma_fsize_sort(fs);
    lemma_sort_ascending(fs);
    lemma_list_ordered(s, 0);
    lemma_list_canonical(s);
    let c = canonical_list(s);
    lemma_sort_ordered(c);
    lemma_list_fixed(c);
}

/// Making records canonical twice gives what making them canonical once gives.
proof fn lemma_records_idem(rs: Seq<Seq<FieldModel>>)
    ensures
        canonical_records(canonical_records(rs)) == canonical_records(rs),
    decreases rsize(rs), 0nat,
{
    if rs.len() > 0 {
        let init = rs.drop_last();
        let last = rs.last();
        assert(rs =~= init.push(last));
        lemma_rsize_push(init, last);
        lemma_records_idem(init);
        lemma_record_idem(last);
        let t = canonical_records(init);
        let y = canonical_record(last);
        assert(t.push(y).drop_last() =~= t);
        assert(t.push(y).last() == y);
    }
}

/// Canonical form is stable: making a record canonical a second time
/// changes nothing. The canonical form has its fields in identifier order,
/// and none of them holds nothing.
pub proof fn lemma_canonical_idempotent(fs: Seq<FieldModel>)
    ensures
        canonical_record(canonical_record(fs)) == canonical_record(fs),
        fids_ascending(canonical_record(fs)),
        forall|k: int| 0 <= k < canonical_record(fs).len() ==> !is_empty_model(#[trigger] canonical_record(fs)[k].value),
{
    lemma_record_idem(fs);
}

/// The fields that hold something, in order.
pub open spec fn non_empty(s: Seq<FieldModel>) -> Seq<FieldModel> {
    s.filter(|f: FieldModel| !is_empty_model(f.value))
}

/// The canonical list of flat fields keeps those that hold something.
proof fn lemma_list_flat(s: Seq<FieldModel>)
    requires
        forall|k: int| 0 <= k < s.len() ==> is_flat(#[trigger] s[k].value),
    ensures
        canonical_list(s) == non_empty(s),
    decreases s.len(),
{
    if s.len() > 0 {
        let init = s.drop_last();
        assert(s =~= init.push(s.last()));
        assert forall|k: int| 0 <= k < init.len() implies is_flat(#[trigger] init[k].value) by {
            assert(init[k] == s[k]);
        }
        assert(is_flat(s[s.len() - 1].value));
        lemma_list_flat(init);
        init.lemma_filter_push(s.last(), |f: FieldModel| !is_empty_model(f.value));
        assert(canonical_value(s.last().value) == s.last().value);
        assert(FieldModel { fid: s.last().fid, value: s.last().value } == s.last());
    } else {
        s.lemma_filter_len(|f: FieldModel| !is_empty_model(f.value));
        assert(non_empty(s) =~= s);
    }
}

/// Keeping the fields with one identifier and keeping those that hold
/// something can be done in either order.
proof fn lemma_with_non_empty(s: Seq<FieldModel>, g: u16)
    ensures
        with_fid(non_empty(s), g) == non_empty(with_fid(s, g)),
    decreases s.len(),
{
    if s.len() == 0 {
        s.lemma_filter_len(|f: FieldModel| !is_empty_model(f.value));
        s.lemma_filter_len(|f: FieldModel| f.fid == g);
        assert(non_empty(s) =~= s);
        assert(with_fid(s, g) =~= s);
    } else {
        let init = s.drop_last();
        let x = s.last();
        assert(s =~= init.push(x));
        lemma_with_non_empty(init, g);
        init.lemma_filter_push(x, |f: FieldModel| !is_empty_model(f.value));
        lemma_filter_push(init, x, g);
        if !is_empty_model(x.value) {
            lemma_filter_push(non_empty(init), x, g);
        }
        if x.fid == g {
            with_fid(init, g).lemma_filter_push(x, |f: FieldModel| !is_empty_model(f.value));
        }
    }
}

/// Placing a flat field among flat fields gives flat fields.
proof fn lemma_insert_flat(t: Seq<FieldModel>, x: FieldModel)
    requires
        forall|k: int| 0 <= k < t.len() ==> is_flat(#[trigger] t[k].value),
        is_flat(x.value),
    ensures
        forall|k: int| 0 <= k < insert_by_fid(t, x).len() ==> is_flat(#[trigger] insert_by_fid(t, x)[k].value),
    decreases t.len(),
{
    if !(t.len() == 0 || t.last().fid <= x.fid) {
        let init = t.drop_last();
        assert forall|k: int| 0 <= k < init.len() implies is_flat(#[trigger] init[k].value) by {
            assert(init[k] == t[k]);
        }
        lemma_insert_flat(init, x);
        assert(is_flat(t[t.len() - 1].value));
    }
}

/// Sorting flat fields gives flat fields.
proof fn lemma_sort_flat(s: Seq<FieldModel>)
    requires
        forall|k: int| 0 <= k < s.len() ==> is_flat(#[trigger] s[k].value),
    ensures
        forall|k: int| 0 <= k < sort_by_fid(s).len() ==> is_flat(#[trigger] sort_by_fid(s)[k].value),
    decreases s.len(),
{
    if s.len() > 0 {
        let init = s.drop_last();
        assert forall|k: int| 0 <= k < init.len() implies is_flat(#[trigger] init[k].value) by {
            assert(init[k] == s[k]);
        }
        lemma_sort_flat(init);
        assert(is_flat(s[s.len() - 1].value));
        lemma_insert_flat(sort_by_fid(init), s.last());
    }
}

/// Of a record whose fields are all flat, the canonical form keeps, for each
/// identifier, exactly the fields with it that hold something, in the order
/// they came; and it has them in identifier order.
pub proof fn lemma_canonical_flat(fs: Seq<FieldModel>)
    requires
        forall|k: int| 0 <= k < fs.len() ==> is_flat(#[trigger] fs[k].value),
    ensures
        fids_ascending(canonical_record(fs)),
        forall|g: u16| #[trigger] with_fid(canonical_record(fs), g) == non_empty(with_fid(fs, g)),
{
    lemma_record_idem(fs);
    let s = sort_by_fid(fs);
    lemma_sort_flat(fs);
    lemma_list_flat(s);
    assert forall|g: u16| #[trigger] with_fid(canonical_record(fs), g) == non_empty(with_fid(fs, g)) by {
        lemma_with_non_empty(s, g);
        lemma_with_sort(fs, g);
    }
}

} // verus!

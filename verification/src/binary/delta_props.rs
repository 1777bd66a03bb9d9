//! Properties of delta packets: what the wire format gives back, and what
//! applying the operations between two records gives.

use vstd::prelude::*;
use super::delta::{
    OpModel, DeltaErrorModel, op_wire, ops_wire, delta_wire, nested_ops_wire, parse_ops, parse_delta,
    parse_nested_ops, op_byte, lemma_op_roundtrip, DELTA_TAG, without_fid, model_eq, fields_eq,
    value_payload, payload_value, union_fids, has_fid, diff_at, diff_fields, diff_ok_at, diff_ok,
    apply_list, lemma_first_member,
};
use super::varint::{sleb128, lemma_varint_roundtrip};
use super::entry::{entry_wire, lemma_entry_roundtrip, value_fits};
use super::types::{is_flat, model_tag};
use super::nested_encoder::{fsize, vsize, rsize, lemma_fsize_member};
use super::delta::records_eq;
use super::delta::{is_nan_bits, DeltaOperation};
use crate::record::{
    FieldModel, ValueModel, first_with_fid, with_fid, sort_by_fid, insert_by_fid, fids_ascending, lemma_filter_push,
    lemma_filter_append,
};
use crate::canonical::lemma_sort_ascending;

verus! {

/// Operations that the wire format can carry: their count and the length of
/// every payload fit both an `i64` and a `usize`.
pub open spec fn ops_fit(s: Seq<OpModel>) -> bool {
    &&& s.len() <= i64::MAX
    &&& s.len() <= usize::MAX
    &&& forall|i: int| 0 <= i < s.len() ==> #[trigger] s[i].payload.len() <= i64::MAX && s[i].payload.len() <= usize::MAX
}

/// The wire form of operations starts with that of the first.
proof fn lemma_ops_wire_cons(o: OpModel, s: Seq<OpModel>)
    ensures
        ops_wire(seq![o] + s) == op_wire(o) + ops_wire(s),
    decreases s.len(),
{
    let t = seq![o] + s;
    if s.len() == 0 {
        assert(t.drop_last() =~= Seq::<OpModel>::empty());
        assert(t.last() == o);
        assert(ops_wire(Seq::<OpModel>::empty()) =~= Seq::<u8>::empty());
        assert(ops_wire(t) =~= op_wire(o) + ops_wire(s));
    } else {
        assert(t.drop_last() =~= seq![o] + s.drop_last());
        assert(t.last() == s.last());
        lemma_ops_wire_cons(o, s.drop_last());
        assert(ops_wire(t) =~= op_wire(o) + ops_wire(s));
    }
}

/// One step of reading operations: an operation's wire form at `off` reads
/// back as that operation, followed by whatever the rest reads as.
proof fn lemma_parse_one(b: Seq<u8>, off: int, o: OpModel, k: nat, nested: bool)
    requires
        0 <= off,
        off + op_wire(o).len() <= b.len(),
        b.subrange(off, off + op_wire(o).len()) == op_wire(o),
        o.payload.len() <= i64::MAX,
        o.payload.len() <= usize::MAX,
    ensures
        parse_ops(b, off, k + 1, nested) == (match parse_ops(b, off + op_wire(o).len(), k, nested) {
            Ok((rest, e)) => Ok((seq![o] + rest, e)),
            Err(x) => Err::<(Seq<OpModel>, int), DeltaErrorModel>(x),
        }),
{
    let plen = o.payload.len();
    let fw = sleb128(o.target_fid as int);
    let lw = sleb128((plen as i64) as int);
    let w = op_wire(o);
    let tail = b.subrange(off + w.len(), b.len() as int);
    let c = b.subrange(off, b.len() as int);
    assert(c =~= w + tail) by {
        assert forall|j: int| 0 <= j < w.len() implies c[j] == w[j] by {
            assert(b.subrange(off, off + w.len())[j] == w[j]);
        }
    }
    let rest1 = seq![op_byte(o.operation)] + lw + o.payload + tail;
    assert(c =~= fw + rest1);
    lemma_varint_roundtrip(o.target_fid as i64, rest1);
    let n = fw.len() as int;
    assert(b[off + n] == c[n]);
    lemma_op_roundtrip(o.operation);
    let p = off + n + 1;
    let rest2 = o.payload + tail;
    assert(b.subrange(p, b.len() as int) =~= c.subrange(n + 1, c.len() as int));
    assert(c.subrange(n + 1, c.len() as int) =~= lw + rest2);
    lemma_varint_roundtrip(plen as i64, rest2);
    let m = lw.len() as int;
    let start = p + m;
    assert(b.subrange(start, start + plen) =~= c.subrange(n + 1 + m, n + 1 + m + plen));
    assert(c.subrange(n + 1 + m, n + 1 + m + plen) =~= o.payload);
    assert(start + plen == off + w.len());
}

/// Reading operations from their wire form, wherever it stands, gives them
/// back and ends where the wire form ends.
proof fn lemma_parse_ops_wire(pre: Seq<u8>, s: Seq<OpModel>, post: Seq<u8>, nested: bool)
    requires
        ops_fit(s),
    ensures
        parse_ops(pre + ops_wire(s) + post, pre.len() as int, s.len(), nested) == Ok::<
            (Seq<OpModel>, int),
            DeltaErrorModel,
        >((s, (pre.len() + ops_wire(s).len()) as int)),
    decreases s.len(),
{
    let b = pre + ops_wire(s) + post;
    let off = pre.len() as int;
    if s.len() == 0 {
        assert(ops_wire(s) =~= Seq::<u8>::empty());
        assert(s =~= Seq::<OpModel>::empty());
    } else {
        let o = s[0];
        let t = s.drop_first();
        assert(s =~= seq![o] + t);
        lemma_ops_wire_cons(o, t);
        let pre2 = pre + op_wire(o);
        assert(pre2 + ops_wire(t) + post =~= b);
        assert(b.subrange(off, off + op_wire(o).len()) =~= op_wire(o));
        assert(ops_fit(t)) by {
            assert forall|i: int| 0 <= i < t.len() implies #[trigger] t[i].payload.len() <= i64::MAX
                && t[i].payload.len() <= usize::MAX by {
                assert(t[i] == s[i + 1]);
            }
        }
        lemma_parse_ops_wire(pre2, t, post, nested);
        lemma_parse_one(b, off, o, t.len(), nested);
        assert(s.len() == t.len() + 1);
        assert(ops_wire(s) == op_wire(o) + ops_wire(t));
        assert(pre2.len() == off + op_wire(o).len());
    }
}

/// A delta packet reads back as the operations it was written from.
pub proof fn lemma_delta_packet_roundtrip(s: Seq<OpModel>)
    requires
        ops_fit(s),
    ensures
        parse_delta(delta_wire(s)) == Ok::<Seq<OpModel>, DeltaErrorModel>(s),
{
    let cw = sleb128((s.len() as i64) as int);
    let b = delta_wire(s);
    let pre = seq![DELTA_TAG] + cw;
    assert(b =~= pre + ops_wire(s) + Seq::<u8>::empty());
    assert(b.subrange(1, b.len() as int) =~= cw + ops_wire(s));
    lemma_varint_roundtrip(s.len() as i64, ops_wire(s));
    lemma_parse_ops_wire(pre, s, Seq::<u8>::empty(), false);
}

/// The nested operations of a merge read back as the operations they were
/// written from.
pub proof fn lemma_nested_ops_roundtrip(s: Seq<OpModel>)
    requires
        ops_fit(s),
    ensures
        parse_nested_ops(nested_ops_wire(s)) == Ok::<Seq<OpModel>, DeltaErrorModel>(s),
{
    let cw = sleb128((s.len() as i64) as int);
    let b = nested_ops_wire(s);
    assert(b =~= cw + ops_wire(s) + Seq::<u8>::empty());
    lemma_varint_roundtrip(s.len() as i64, ops_wire(s));
    lemma_parse_ops_wire(cw, s, Seq::<u8>::empty(), true);
}

/// The first field with `g` once a field is added at the end: the one before,
/// if any, else the added field when it has `g`.
proof fn lemma_first_push(t: Seq<FieldModel>, x: FieldModel, g: u16)
    ensures
        first_with_fid(t.push(x), g) == (if first_with_fid(t, g) is Some {
            first_with_fid(t, g)
        } else if x.fid == g {
            Some(x)
        } else {
            None
        }),
    decreases t.len(),
{
    if t.len() == 0 {
        assert(t.push(x).drop_first() =~= Seq::<FieldModel>::empty());
    } else {
        assert(t.push(x).drop_first() =~= t.drop_first().push(x));
        lemma_first_push(t.drop_first(), x, g);
    }
}

/// Removing the fields with `f` leaves none with `f` and keeps the first
/// field of every other identifier.
proof fn lemma_first_without(s: Seq<FieldModel>, f: u16, g: u16)
    ensures
        first_with_fid(without_fid(s, f), g) == (if g == f {
            None
        } else {
            first_with_fid(s, g)
        }),
    decreases s.len(),
{
    if s.len() == 0 {
        s.lemma_filter_len(|x: FieldModel| x.fid != f);
    } else {
        let init = s.drop_last();
        let last = s.last();
        assert(s =~= init.push(last));
        init.lemma_filter_push(last, |x: FieldModel| x.fid != f);
        lemma_first_without(init, f, g);
        lemma_first_push(init, last, g);
        if last.fid != f {
            lemma_first_push(without_fid(init, f), last, g);
        }
    }
}

/// The first field with `g` after the fields with `f` are replaced by `x` at
/// the end.
proof fn lemma_first_replace(b: Seq<FieldModel>, f: u16, x: FieldModel, g: u16)
    requires
        x.fid == f,
    ensures
        first_with_fid(without_fid(b, f).push(x), g) == (if g == f {
            Some(x)
        } else {
            first_with_fid(b, g)
        }),
{
    lemma_first_without(b, f, g);
    lemma_first_push(without_fid(b, f), x, g);
}

/// A flat value's payload reads back as the value.
proof fn lemma_payload_value(v: ValueModel)
    requires
        is_flat(v),
        value_fits(v),
    ensures
        payload_value(value_payload(v)) == Ok::<ValueModel, DeltaErrorModel>(v),
{
    lemma_entry_roundtrip(0, v, Seq::<u8>::empty());
    assert(seq![0u8, 0u8] + value_payload(v) =~= entry_wire(0, model_tag(v), v) + Seq::<u8>::empty());
}

/// Every field identifier, in increasing order.
pub open spec fn all_fids() -> Seq<u16> {
    Seq::new(65536, |i: int| i as u16)
}

/// Two field lists agree on identifier `g`: both lack it, or their first
/// fields with it hold nested records that agree, or values that are equal
/// or equal as numbers.
pub open spec fn fid_agrees(x: Seq<FieldModel>, y: Seq<FieldModel>, g: u16) -> bool
    decreases fsize(x) + fsize(y), 0nat, 0nat,
{
    match (first_with_fid(x, g), first_with_fid(y, g)) {
        (None, None) => true,
        (Some(p), Some(q)) => match (p.value, q.value) {
            (ValueModel::Record(px), ValueModel::Record(qx)) => {
                proof {
                    super::delta::lemma_first_member(x, g);
                    super::delta::lemma_first_member(y, g);
                    let i = choose|i: int| 0 <= i < x.len() && x[i] == p;
                    let j = choose|j: int| 0 <= j < y.len() && y[j] == q;
                    lemma_fsize_member(x, i);
                    lemma_fsize_member(y, j);
                }
                fields_agree(px, qx)
            },
            (a, b) => a == b || model_eq(a, b),
        },
        _ => false,
    }
}

/// Two field lists agree on each identifier of `fids`.
pub open spec fn agree_at(x: Seq<FieldModel>, y: Seq<FieldModel>, fids: Seq<u16>) -> bool
    decreases fsize(x) + fsize(y), 0nat, fids.len(),
{
    if fids.len() == 0 {
        true
    } else {
        fid_agrees(x, y, fids[0]) && agree_at(x, y, fids.drop_first())
    }
}

/// Two field lists agree on every identifier.
pub open spec fn fields_agree(x: Seq<FieldModel>, y: Seq<FieldModel>) -> bool
    decreases fsize(x) + fsize(y), 1nat, 0nat,
{
    agree_at(x, y, all_fids())
}

/// Agreement on each identifier gives agreement on any list of them.
proof fn lemma_agree_at_all(x: Seq<FieldModel>, y: Seq<FieldModel>, fids: Seq<u16>)
    requires
        forall|g: u16| #[trigger] fid_agrees(x, y, g),
    ensures
        agree_at(x, y, fids),
    decreases fids.len(),
{
    if fids.len() > 0 {
        assert(fid_agrees(x, y, fids[0]));
        lemma_agree_at_all(x, y, fids.drop_first());
    }
}

/// Field lists equal field by field agree on each identifier.
proof fn lemma_fields_eq_fid(a: Seq<FieldModel>, b: Seq<FieldModel>, g: u16)
    requires
        fields_eq(a, b),
    ensures
        fid_agrees(a, b, g),
    decreases fsize(a), 0nat,
{
    if a.len() > 0 {
        let a1 = a.subrange(1, a.len() as int);
        let b1 = b.subrange(1, b.len() as int);
        assert(a.drop_first() =~= a1);
        assert(b.drop_first() =~= b1);
        assert(fsize(a) == vsize(a[0].value) + 1 + fsize(a1));
        assert(model_eq(a[0].value, b[0].value));
        if a[0].fid == g {
            match (a[0].value, b[0].value) {
                (ValueModel::Record(x), ValueModel::Record(y)) => {
                    assert(fields_eq(x, y));
                    lemma_fields_eq_agree(x, y);
                },
                _ => {},
            }
        } else {
            lemma_fields_eq_fid(a1, b1, g);
        }
    }
}

/// Field lists equal field by field agree.
proof fn lemma_fields_eq_agree(a: Seq<FieldModel>, b: Seq<FieldModel>)
    requires
        fields_eq(a, b),
    ensures
        fields_agree(a, b),
    decreases fsize(a), 1nat,
{
    assert forall|g: u16| #[trigger] fid_agrees(a, b, g) by {
        lemma_fields_eq_fid(a, b, g);
    }
    lemma_agree_at_all(a, b, all_fids());
}

/// A length the wire format's length fields carry on every platform.
pub open spec fn len_fits(n: nat) -> bool {
    n <= i64::MAX && n <= usize::MAX
}

/// Every payload of the operations turning `old` into `new`, for the
/// identifiers of `fids`, has a length the wire format carries, and so do
/// those of the nested operations of every merge.
pub open spec fn diff_fits_at(old: Seq<FieldModel>, new: Seq<FieldModel>, fids: Seq<u16>) -> bool
    decreases fsize(old) + fsize(new), 0nat, fids.len(),
{
    if fids.len() == 0 {
        true
    } else {
        let f = fids[0];
        let rest = diff_fits_at(old, new, fids.drop_first());
        match (first_with_fid(old, f), first_with_fid(new, f)) {
            (None, Some(n)) => len_fits(value_payload(n.value).len()) && rest,
            (Some(o), Some(n)) => if model_eq(o.value, n.value) {
                rest
            } else {
                match (o.value, n.value) {
                    (ValueModel::Record(ofs), ValueModel::Record(nfs)) => {
                        proof {
                            lemma_first_member(old, f);
                            lemma_first_member(new, f);
                            let i = choose|i: int| 0 <= i < old.len() && old[i] == o;
                            let j = choose|j: int| 0 <= j < new.len() && new[j] == n;
                            lemma_fsize_member(old, i);
                            lemma_fsize_member(new, j);
                        }
                        diff_fits(ofs, nfs) && len_fits(nested_ops_wire(diff_fields(ofs, nfs)).len()) && rest
                    },
                    _ => len_fits(value_payload(n.value).len()) && rest,
                }
            },
            _ => rest,
        }
    }
}

/// Every payload of the operations turning `old` into `new`, at every level,
/// has a length the wire format carries.
pub open spec fn diff_fits(old: Seq<FieldModel>, new: Seq<FieldModel>) -> bool
    decreases fsize(old) + fsize(new), 1nat, 0nat,
{
    diff_fits_at(old, new, union_fids(old, new))
}

/// A strictly increasing sequence stays so once filtered, and keeps only its
/// own elements.
proof fn lemma_filter_increasing(s: Seq<u16>, p: spec_fn(u16) -> bool)
    requires
        forall|i: int, j: int| 0 <= i < j < s.len() ==> s[i] < s[j],
    ensures
        forall|i: int, j: int| 0 <= i < j < s.filter(p).len() ==> s.filter(p)[i] < s.filter(p)[j],
        forall|i: int| 0 <= i < s.filter(p).len() ==> exists|k: int| 0 <= k < s.len() && s[k] == #[trigger] s.filter(p)[i],
    decreases s.len(),
{
    if s.len() == 0 {
        s.lemma_filter_len(p);
    } else {
        let init = s.drop_last();
        let last = s.last();
        assert(s =~= init.push(last));
        init.lemma_filter_push(last, p);
        lemma_filter_increasing(init, p);
        let fi = init.filter(p);
        let fs = s.filter(p);
        assert forall|i: int| 0 <= i < fi.len() implies #[trigger] fi[i] < last by {
            let k = choose|k: int| 0 <= k < init.len() && init[k] == fi[i];
            assert(s[k] == init[k]);
        }
        assert forall|i: int, j: int| 0 <= i < j < fs.len() implies fs[i] < fs[j] by {
            if p(last) && j == fs.len() - 1 {
                assert(fs[i] == fi[i]);
            } else {
                assert(fs[i] == fi[i] && fs[j] == fi[j]);
            }
        }
        assert forall|i: int| 0 <= i < fs.len() implies exists|k: int| 0 <= k < s.len() && s[k] == #[trigger] fs[i] by {
            if p(last) && i == fs.len() - 1 {
                assert(s[s.len() - 1] == fs[i]);
            } else {
                assert(fs[i] == fi[i]);
                let k = choose|k: int| 0 <= k < init.len() && init[k] == fi[i];
                assert(s[k] == fs[i]);
            }
        }
    }
}

/// The identifiers of two field lists come in strictly increasing order, at
/// most one for each identifier, and include every identifier of either.
proof fn lemma_union_fids(old: Seq<FieldModel>, new: Seq<FieldModel>)
    ensures
        forall|i: int, j: int| 0 <= i < j < union_fids(old, new).len() ==> union_fids(old, new)[i] < union_fids(old, new)[j],
        union_fids(old, new).len() <= 65536,
        forall|g: u16| (has_fid(old, g) || has_fid(new, g)) ==> #[trigger] union_fids(old, new).contains(g),
{
    let all = Seq::new(65536, |i: int| i as u16);
    let pred = |f: u16| has_fid(old, f) || has_fid(new, f);
    assert(union_fids(old, new) == all.filter(pred));
    lemma_filter_increasing(all, pred);
    all.lemma_filter_len(pred);
    assert forall|g: u16| (has_fid(old, g) || has_fid(new, g)) implies #[trigger] union_fids(old, new).contains(g) by {
        assert(all[g as int] == g);
        all.lemma_filter_contains(pred, g as int);
    }
}

/// The operations for some identifiers number at most the identifiers, and
/// their payloads have lengths the wire format carries.
proof fn lemma_diff_at_fit(old: Seq<FieldModel>, new: Seq<FieldModel>, fids: Seq<u16>)
    requires
        diff_fits_at(old, new, fids),
    ensures
        diff_at(old, new, fids).len() <= fids.len(),
        forall|i: int| 0 <= i < diff_at(old, new, fids).len() ==> len_fits(#[trigger] diff_at(old, new, fids)[i].payload.len()),
    decreases fids.len(),
{
    if fids.len() > 0 {
        let rest = diff_at(old, new, fids.drop_first());
        lemma_diff_at_fit(old, new, fids.drop_first());
        let d = diff_at(old, new, fids);
        assert(d.len() == rest.len() || (d.len() == rest.len() + 1 && len_fits(d[0].payload.len()) && forall|i: int|
            1 <= i < d.len() ==> d[i] == rest[i - 1]));
    }
}

/// The operations between two field lists fit the wire format.
proof fn lemma_diff_ops_fit(old: Seq<FieldModel>, new: Seq<FieldModel>)
    requires
        diff_fits(old, new),
    ensures
        ops_fit(diff_fields(old, new)),
{
    lemma_union_fids(old, new);
    lemma_diff_at_fit(old, new, union_fids(old, new));
}

/// Applying the operations for the identifiers of `fids`, in strictly
/// increasing order, to fields that still hold `old`'s first field for each
/// of them, succeeds; afterwards the fields agree with `new` on each of them
/// and keep the first field of every other identifier.
#[verifier::rlimit(50)]
#[verifier::spinoff_prover]
proof fn lemma_apply_diff_at(old: Seq<FieldModel>, new: Seq<FieldModel>, b: Seq<FieldModel>, fids: Seq<u16>)
    requires
        diff_ok_at(old, new, fids),
        diff_fits_at(old, new, fids),
        forall|i: int, j: int| 0 <= i < j < fids.len() ==> fids[i] < fids[j],
        forall|j: int| 0 <= j < fids.len() ==> first_with_fid(b, #[trigger] fids[j]) == first_with_fid(old, fids[j]),
    ensures
        apply_list(b, diff_at(old, new, fids)).1 == Ok::<(), DeltaErrorModel>(()),
        forall|j: int| 0 <= j < fids.len() ==> fid_agrees(apply_list(b, diff_at(old, new, fids)).0, new, #[trigger] fids[j]),
        forall|g: u16| !fids.contains(g) ==> #[trigger] first_with_fid(apply_list(b, diff_at(old, new, fids)).0, g)
            == first_with_fid(b, g),
    decreases fsize(old) + fsize(new), 0nat, fids.len(),
{
    if fids.len() == 0 {
        return;
    }
    let f = fids[0];
    let tl = fids.drop_first();
    let rest = diff_at(old, new, tl);
    let ops = diff_at(old, new, fids);
    assert(first_with_fid(b, fids[0]) == first_with_fid(old, fids[0]));
    assert forall|j: int| 0 <= j < tl.len() implies f < #[trigger] tl[j] by {
        assert(tl[j] == fids[j + 1]);
    }
    assert forall|i: int, j: int| 0 <= i < j < tl.len() implies tl[i] < tl[j] by {
        assert(tl[i] == fids[i + 1] && tl[j] == fids[j + 1]);
    }
    lemma_first_member(old, f);
    lemma_first_member(new, f);
    // The fields after the first step, if it changes anything.
    let b2: Seq<FieldModel> = match (first_with_fid(old, f), first_with_fid(new, f)) {
        (None, Some(n)) => without_fid(b, f).push(FieldModel { fid: f, value: n.value }),
        (Some(_), None) => without_fid(b, f),
        (Some(o), Some(n)) => if model_eq(o.value, n.value) {
            b
        } else {
            match (o.value, n.value) {
                (ValueModel::Record(ofs), ValueModel::Record(nfs)) => without_fid(b, f).push(
                    FieldModel { fid: f, value: ValueModel::Record(apply_list(ofs, diff_fields(ofs, nfs)).0) },
                ),
                _ => without_fid(b, f).push(FieldModel { fid: f, value: n.value }),
            }
        },
        (None, None) => b,
    };
    match (first_with_fid(old, f), first_with_fid(new, f)) {
        (None, Some(n)) => {
            let op = ops[0];
            assert(ops.drop_first() =~= rest);
            lemma_payload_value(n.value);
            assert(apply_list(b, ops) == apply_list(b2, rest));
            assert forall|g: u16| #[trigger] first_with_fid(b2, g) == (if g == f { Some(FieldModel { fid: f, value: n.value }) } else { first_with_fid(b, g) }) by {
                lemma_first_replace(b, f, FieldModel { fid: f, value: n.value }, g);
            }
        },
        (Some(_), None) => {
            assert(ops.drop_first() =~= rest);
            assert(apply_list(b, ops) == apply_list(b2, rest));
            assert forall|g: u16| #[trigger] first_with_fid(b2, g) == (if g == f { None } else { first_with_fid(b, g) }) by {
                lemma_first_without(b, f, g);
            }
        },
        (Some(o), Some(n)) => {
            if model_eq(o.value, n.value) {
                assert(ops == rest);
                match (o.value, n.value) {
                    (ValueModel::Record(ofs), ValueModel::Record(nfs)) => {
                        assert(fields_eq(ofs, nfs));
                        lemma_fields_eq_agree(ofs, nfs);
                    },
                    _ => {},
                }
            } else {
                assert(ops.drop_first() =~= rest);
                match (o.value, n.value) {
                    (ValueModel::Record(ofs), ValueModel::Record(nfs)) => {
                        let i = choose|i: int| 0 <= i < old.len() && old[i] == o;
                        let j = choose|j: int| 0 <= j < new.len() && new[j] == n;
                        lemma_fsize_member(old, i);
                        lemma_fsize_member(new, j);
                        lemma_apply_diff(ofs, nfs);
                        lemma_diff_ops_fit(ofs, nfs);
                        lemma_nested_ops_roundtrip(diff_fields(ofs, nfs));
                        let x = FieldModel { fid: f, value: ValueModel::Record(apply_list(ofs, diff_fields(ofs, nfs)).0) };
                        assert(apply_list(b, ops) == apply_list(b2, rest));
                        assert forall|g: u16| #[trigger] first_with_fid(b2, g) == (if g == f { Some(x) } else { first_with_fid(b, g) }) by {
                            lemma_first_replace(b, f, x, g);
                        }
                    },
                    _ => {
                        lemma_payload_value(n.value);
                        assert(apply_list(b, ops) == apply_list(b2, rest));
                        assert forall|g: u16| #[trigger] first_with_fid(b2, g) == (if g == f { Some(FieldModel { fid: f, value: n.value }) } else { first_with_fid(b, g) }) by {
                            lemma_first_replace(b, f, FieldModel { fid: f, value: n.value }, g);
                        }
                    },
                }
            }
        },
        (None, None) => {
            assert(ops == rest);
        },
    }
    assert(apply_list(b, ops) == apply_list(b2, rest));
    assert(fid_agrees(b2, new, f));
    assert forall|j: int| 0 <= j < tl.len() implies first_with_fid(b2, #[trigger] tl[j]) == first_with_fid(old, tl[j]) by {
        assert(tl[j] == fids[j + 1]);
    }
    lemma_apply_diff_at(old, new, b2, tl);
    let r = apply_list(b2, rest).0;
    assert(!tl.contains(f));
    assert(first_with_fid(r, f) == first_with_fid(b2, f));
    assert(fid_agrees(r, new, f));
    assert forall|j: int| 0 <= j < fids.len() implies fid_agrees(r, new, #[trigger] fids[j]) by {
        if j > 0 {
            assert(fids[j] == tl[j - 1]);
        }
    }
    assert forall|g: u16| !fids.contains(g) implies #[trigger] first_with_fid(r, g) == first_with_fid(b, g) by {
        assert(g != f);
        if tl.contains(g) {
            let k = choose|k: int| 0 <= k < tl.len() && tl[k] == g;
            assert(fids[k + 1] == g);
        }
    }
}

/// Applying to `old` the operations that turn it into `new` succeeds and
/// gives fields that agree with `new` on every identifier: both lack it, or
/// their first fields with it hold equal values, values equal as numbers,
/// or nested records that agree in turn. Holds whenever the operations can
/// be written: their values are flat and every payload fits the wire format.
pub proof fn lemma_apply_diff(old: Seq<FieldModel>, new: Seq<FieldModel>)
    requires
        diff_ok(old, new),
        diff_fits(old, new),
    ensures
        apply_list(old, diff_fields(old, new)).1 == Ok::<(), DeltaErrorModel>(()),
        fields_agree(apply_list(old, diff_fields(old, new)).0, new),
    decreases fsize(old) + fsize(new), 1nat, 0nat,
{
    let u = union_fids(old, new);
    lemma_union_fids(old, new);
    lemma_apply_diff_at(old, new, old, u);
    let r = apply_list(old, diff_fields(old, new)).0;
    assert forall|g: u16| #[trigger] fid_agrees(r, new, g) by {
        if u.contains(g) {
            let k = choose|k: int| 0 <= k < u.len() && u[k] == g;
            assert(fid_agrees(r, new, u[k]));
        } else {
            lemma_first_member(old, g);
            lemma_first_member(new, g);
        }
    }
    lemma_agree_at_all(r, new, all_fids());
}

/// No identifier occurs twice among the fields.
pub open spec fn fids_unique(s: Seq<FieldModel>) -> bool {
    forall|g: u16| #[trigger] with_fid(s, g).len() <= 1
}

/// A value that equals itself as a number: flat, and not a NaN.
pub open spec fn plain_value(v: ValueModel) -> bool {
    is_flat(v) && !(v matches ValueModel::Float(x) && is_nan_bits(x))
}

/// Every field holds a plain value.
pub open spec fn plain_fields(s: Seq<FieldModel>) -> bool {
    forall|i: int| 0 <= i < s.len() ==> plain_value(#[trigger] s[i].value)
}

/// The first field with `g` is the first of the fields with `g`.
proof fn lemma_first_filter(s: Seq<FieldModel>, g: u16)
    ensures
        first_with_fid(s, g) == (if with_fid(s, g).len() > 0 {
            Some(with_fid(s, g)[0])
        } else {
            None
        }),
    decreases s.len(),
{
    if s.len() == 0 {
        s.lemma_filter_len(|f: FieldModel| f.fid == g);
    } else {
        let init = s.drop_last();
        assert(s =~= init.push(s.last()));
        lemma_first_filter(init, g);
        lemma_first_push(init, s.last(), g);
        lemma_filter_push(init, s.last(), g);
    }
}

/// Placing a field by identifier leaves the fields with each identifier as
/// they are with the field added at the end.
proof fn lemma_with_insert(t: Seq<FieldModel>, x: FieldModel, g: u16)
    ensures
        with_fid(insert_by_fid(t, x), g) == with_fid(t.push(x), g),
    decreases t.len(),
{
    if !(t.len() == 0 || t.last().fid <= x.fid) {
        let init = t.drop_last();
        let last = t.last();
        assert(t =~= init.push(last));
        lemma_with_insert(init, x, g);
        lemma_filter_push(insert_by_fid(init, x), last, g);
        lemma_filter_push(init, x, g);
        lemma_filter_push(init, last, g);
        lemma_filter_push(t, x, g);
        lemma_filter_push(init.push(x), last, g);
    }
}

/// Sorting leaves the fields with each identifier as they are.
pub(crate) proof fn lemma_with_sort(s: Seq<FieldModel>, g: u16)
    ensures
        with_fid(sort_by_fid(s), g) == with_fid(s, g),
    decreases s.len(),
{
    if s.len() > 0 {
        let init = s.drop_last();
        assert(s =~= init.push(s.last()));
        lemma_with_sort(init, g);
        lemma_with_insert(sort_by_fid(init), s.last(), g);
        lemma_filter_push(sort_by_fid(init), s.last(), g);
        lemma_filter_push(init, s.last(), g);
    }
}

/// Removing the fields with `f` leaves none with `f` and those with any
/// other identifier.
proof fn lemma_with_without(s: Seq<FieldModel>, f: u16, g: u16)
    ensures
        with_fid(without_fid(s, f), g) == (if g == f {
            Seq::<FieldModel>::empty()
        } else {
            with_fid(s, g)
        }),
    decreases s.len(),
{
    if s.len() == 0 {
        s.lemma_filter_len(|x: FieldModel| x.fid != f);
        without_fid(s, f).lemma_filter_len(|x: FieldModel| x.fid == g);
        s.lemma_filter_len(|x: FieldModel| x.fid == g);
    } else {
        let init = s.drop_last();
        let last = s.last();
        assert(s =~= init.push(last));
        lemma_with_without(init, f, g);
        init.lemma_filter_push(last, |x: FieldModel| x.fid != f);
        lemma_filter_push(init, last, g);
        if last.fid != f {
            lemma_filter_push(without_fid(init, f), last, g);
        }
    }
}

/// Applying operations to fields without a repeated identifier gives fields
/// without one.
proof fn lemma_apply_unique(b: Seq<FieldModel>, ops: Seq<OpModel>)
    requires
        fids_unique(b),
    ensures
        fids_unique(apply_list(b, ops).0),
    decreases ops.len(),
{
    if ops.len() > 0 {
        let f = ops[0].target_fid;
        let w = without_fid(b, f);
        assert forall|g: u16| #[trigger] with_fid(w, g).len() <= 1 by {
            lemma_with_without(b, f, g);
        }
        lemma_apply_unique(w, ops.drop_first());
        assert forall|x: FieldModel| x.fid == f implies fids_unique(apply_list(#[trigger] w.push(x), ops.drop_first()).0) by {
            assert forall|g: u16| #[trigger] with_fid(w.push(x), g).len() <= 1 by {
                lemma_filter_push(w, x, g);
                lemma_with_without(b, f, g);
            }
            lemma_apply_unique(w.push(x), ops.drop_first());
        }
    }
}

/// The first fields with `g` both lack or hold values equal as numbers.
pub open spec fn first_agree(a: Seq<FieldModel>, b: Seq<FieldModel>, g: u16) -> bool {
    match (first_with_fid(a, g), first_with_fid(b, g)) {
        (None, None) => true,
        (Some(p), Some(q)) => model_eq(p.value, q.value),
        _ => false,
    }
}

/// The fields with `g` after a first field.
proof fn lemma_with_cons(a: Seq<FieldModel>, g: u16)
    requires
        a.len() > 0,
    ensures
        with_fid(a, g) == (if a[0].fid == g {
            seq![a[0]] + with_fid(a.subrange(1, a.len() as int), g)
        } else {
            with_fid(a.subrange(1, a.len() as int), g)
        }),
{
    let a1 = a.subrange(1, a.len() as int);
    assert(a =~= seq![a[0]] + a1);
    lemma_filter_append(seq![a[0]], a1, g);
    assert(seq![a[0]] =~= Seq::<FieldModel>::empty().push(a[0]));
    lemma_filter_push(Seq::<FieldModel>::empty(), a[0], g);
    Seq::<FieldModel>::empty().lemma_filter_len(|f: FieldModel| f.fid == g);
    assert(with_fid(Seq::<FieldModel>::empty(), g) =~= Seq::<FieldModel>::empty());
    assert(Seq::<FieldModel>::empty().push(a[0]) =~= seq![a[0]]);
}

/// Two ordered field lists without a repeated identifier, whose first fields
/// agree on every identifier, are equal field by field.
proof fn lemma_sorted_eq(a: Seq<FieldModel>, b: Seq<FieldModel>)
    requires
        fids_ascending(a),
        fids_ascending(b),
        fids_unique(a),
        fids_unique(b),
        forall|g: u16| #[trigger] first_agree(a, b, g),
    ensures
        fields_eq(a, b),
    decreases a.len(),
{
    if a.len() == 0 {
        if b.len() > 0 {
            lemma_first_member(a, b[0].fid);
            lemma_first_member(b, b[0].fid);
            assert(first_agree(a, b, b[0].fid));
        }
    } else {
        let h = a[0].fid;
        lemma_first_member(a, h);
        lemma_first_member(b, h);
        assert(first_agree(a, b, h));
        let j = choose|j: int| 0 <= j < b.len() && b[j].fid == h;
        let b0 = b[0].fid;
        lemma_first_member(a, b0);
        lemma_first_member(b, b0);
        assert(first_agree(a, b, b0));
        let i = choose|i: int| 0 <= i < a.len() && a[i].fid == b0;
        assert(b0 <= b[j].fid);
        assert(h <= a[i].fid);
        assert(h == b0);
        let a1 = a.subrange(1, a.len() as int);
        let b1 = b.subrange(1, b.len() as int);
        assert(a.drop_first() =~= a1);
        assert(b.drop_first() =~= b1);
        assert forall|g: u16| #[trigger] with_fid(a1, g).len() <= 1 by {
            lemma_with_cons(a, g);
            assert(with_fid(a, g).len() <= 1);
        }
        assert forall|g: u16| #[trigger] with_fid(b1, g).len() <= 1 by {
            lemma_with_cons(b, g);
            assert(with_fid(b, g).len() <= 1);
        }
        assert forall|g: u16| #[trigger] first_agree(a1, b1, g) by {
            if g == h {
                lemma_with_cons(a, g);
                lemma_with_cons(b, g);
                assert(with_fid(a, g).len() <= 1);
                assert(with_fid(b, g).len() <= 1);
                lemma_first_filter(a1, g);
                lemma_first_filter(b1, g);
                assert(first_with_fid(a1, g) is None);
                assert(first_with_fid(b1, g) is None);
            } else {
                assert(first_agree(a, b, g));
                assert(first_with_fid(a, g) == first_with_fid(a1, g));
                assert(first_with_fid(b, g) == first_with_fid(b1, g));
            }
        }
        assert forall|x: int, y: int| 0 <= x < y < a1.len() implies a1[x].fid <= a1[y].fid by {
            assert(a1[x] == a[x + 1] && a1[y] == a[y + 1]);
        }
        assert forall|x: int, y: int| 0 <= x < y < b1.len() implies b1[x].fid <= b1[y].fid by {
            assert(b1[x] == b[x + 1] && b1[y] == b[y + 1]);
        }
        lemma_sorted_eq(a1, b1);
    }
}

/// A plain value equals itself as a number.
proof fn lemma_model_eq_refl(v: ValueModel)
    requires
        plain_value(v),
    ensures
        model_eq(v, v),
{
}

/// Agreement on a list of identifiers gives agreement on each of them.
proof fn lemma_agree_at_member(x: Seq<FieldModel>, y: Seq<FieldModel>, fids: Seq<u16>, k: int)
    requires
        agree_at(x, y, fids),
        0 <= k < fids.len(),
    ensures
        fid_agrees(x, y, fids[k]),
    decreases fids.len(),
{
    if k > 0 {
        lemma_agree_at_member(x, y, fids.drop_first(), k - 1);
    }
}

/// Applying to `old` the operations that turn it into `new` succeeds, and
/// the result sorted by identifier equals `new` sorted by identifier, field
/// by field (floats compared as numbers), when neither record repeats an
/// identifier and every value of `new` is flat and not a NaN. Holds whenever
/// the operations can be written: their values are flat and every payload
/// fits the wire format.
pub proof fn lemma_apply_diff_sorted(old: Seq<FieldModel>, new: Seq<FieldModel>)
    requires
        diff_ok(old, new),
        diff_fits(old, new),
        fids_unique(old),
        fids_unique(new),
        plain_fields(new),
    ensures
        apply_list(old, diff_fields(old, new)).1 == Ok::<(), DeltaErrorModel>(()),
        fields_eq(sort_by_fid(apply_list(old, diff_fields(old, new)).0), sort_by_fid(new)),
{
    lemma_apply_diff(old, new);
    let r = apply_list(old, diff_fields(old, new)).0;
    lemma_apply_unique(old, diff_fields(old, new));
    lemma_sort_ascending(r);
    lemma_sort_ascending(new);
    let a = sort_by_fid(r);
    let b = sort_by_fid(new);
    assert forall|g: u16| #[trigger] with_fid(a, g).len() <= 1 by {
        lemma_with_sort(r, g);
    }
    assert forall|g: u16| #[trigger] with_fid(b, g).len() <= 1 by {
        lemma_with_sort(new, g);
    }
    assert forall|g: u16| #[trigger] first_agree(a, b, g) by {
        lemma_with_sort(r, g);
        lemma_with_sort(new, g);
        lemma_first_filter(a, g);
        lemma_first_filter(r, g);
        lemma_first_filter(b, g);
        lemma_first_filter(new, g);
        assert(all_fids()[g as int] == g);
        lemma_agree_at_member(r, new, all_fids(), g as int);
        lemma_first_member(new, g);
        if let Some(q) = first_with_fid(new, g) {
            let j = choose|j: int| 0 <= j < new.len() && new[j] == q;
            assert(plain_value(new[j].value));
            lemma_model_eq_refl(q.value);
        }
    }
    lemma_sorted_eq(a, b);
}

/// One operation applied to any fields, whatever they hold. Setting a field
/// to a value that can be written succeeds whether or not the field exists,
/// and afterwards the first field with that identifier holds the value;
/// deleting succeeds and leaves no field with the identifier; updating
/// succeeds, as a set does, exactly when the field exists, and otherwise
/// fails with an unknown-target error and changes nothing. The first field of
/// every other identifier stays as it was.
pub proof fn lemma_apply_one(base: Seq<FieldModel>, f: u16, operation: DeltaOperation, v: ValueModel)
    requires
        is_flat(v),
        value_fits(v),
    ensures
        ({
            let payload = if operation == DeltaOperation::DeleteField { Seq::<u8>::empty() } else { value_payload(v) };
            let (after, r) = apply_list(base, seq![OpModel { target_fid: f, operation, payload }]);
            &&& operation == DeltaOperation::SetField || operation == DeltaOperation::DeleteField || (
                operation == DeltaOperation::UpdateField && has_fid(base, f)) ==> {
                &&& r == Ok::<(), DeltaErrorModel>(())
                &&& forall|g: u16| #[trigger] first_with_fid(after, g) == if g != f {
                    first_with_fid(base, g)
                } else if operation == DeltaOperation::DeleteField {
                    None
                } else {
                    Some(FieldModel { fid: f, value: v })
                }
            }
            &&& operation == DeltaOperation::UpdateField && !has_fid(base, f) ==> r == Err::<(), DeltaErrorModel>(
                DeltaErrorModel::InvalidTargetFid { fid: f },
            ) && after == base
        }),
{
    let payload = if operation == DeltaOperation::DeleteField { Seq::<u8>::empty() } else { value_payload(v) };
    let ops = seq![OpModel { target_fid: f, operation, payload }];
    assert(ops.drop_first() =~= Seq::<OpModel>::empty());
    lemma_payload_value(v);
    lemma_first_member(base, f);
    let x = FieldModel { fid: f, value: v };
    assert forall|g: u16| #[trigger] first_with_fid(without_fid(base, f).push(x), g) == (if g == f {
        Some(x)
    } else {
        first_with_fid(base, g)
    }) by {
        lemma_first_replace(base, f, x, g);
    }
    assert forall|g: u16| #[trigger] first_with_fid(without_fid(base, f), g) == (if g == f {
        None
    } else {
        first_with_fid(base, g)
    }) by {
        lemma_first_without(base, f, g);
    }
    let empty = Seq::<OpModel>::empty();
    if operation == DeltaOperation::SetField {
        assert(apply_list(base, ops) == apply_list(without_fid(base, f).push(x), empty));
    } else if operation == DeltaOperation::DeleteField {
        assert(apply_list(base, ops) == apply_list(without_fid(base, f), empty));
    } else if operation == DeltaOperation::UpdateField {
        if has_fid(base, f) {
            assert(apply_list(base, ops) == apply_list(without_fid(base, f).push(x), empty));
        } else {
            assert(apply_list(base, ops) == (base, Err::<(), DeltaErrorModel>(DeltaErrorModel::InvalidTargetFid { fid: f })));
        }
    }
}

/// A value that holds no float, at any depth.
pub open spec fn no_float(v: ValueModel) -> bool
    decreases v, 1int,
{
    match v {
        ValueModel::Float(_) => false,
        ValueModel::Record(fs) => fields_no_float(fs),
        ValueModel::RecordArray(rs) => records_no_float(rs),
        _ => true,
    }
}

/// Fields that hold no float, at any depth.
pub open spec fn fields_no_float(fs: Seq<FieldModel>) -> bool
    decreases fs, 0int,
{
    fs.len() == 0 || (no_float(fs[0].value) && fields_no_float(fs.subrange(1, fs.len() as int)))
}

/// Records that hold no float, at any depth.
pub open spec fn records_no_float(rs: Seq<Seq<FieldModel>>) -> bool
    decreases rs, 0int,
{
    rs.len() == 0 || (fields_no_float(rs[0]) && records_no_float(rs.subrange(1, rs.len() as int)))
}

/// Values that the diff takes as unchanged: where one of them holds no
/// float at any depth, exactly the identical ones (the same strings in the
/// same order for a string array, the same fields in the same order for a
/// nested record, the same records for a nested array).
pub proof fn lemma_model_eq_exact(a: ValueModel, b: ValueModel)
    requires
        no_float(b),
    ensures
        model_eq(a, b) <==> a == b,
    decreases vsize(b), 1nat,
{
    match (a, b) {
        (ValueModel::Record(x), ValueModel::Record(y)) => {
            lemma_fields_exact(x, y);
        },
        (ValueModel::RecordArray(x), ValueModel::RecordArray(y)) => {
            lemma_records_exact(x, y);
        },
        _ => {},
    }
}

/// Field lists equal field by field, where one holds no float, are identical.
proof fn lemma_fields_exact(x: Seq<FieldModel>, y: Seq<FieldModel>)
    requires
        fields_no_float(y),
    ensures
        fields_eq(x, y) <==> x == y,
    decreases fsize(y), 0nat,
{
    if y.len() == 0 {
        if x.len() == 0 {
            assert(x =~= y);
        }
    } else if x.len() > 0 {
        let x1 = x.subrange(1, x.len() as int);
        let y1 = y.subrange(1, y.len() as int);
        lemma_model_eq_exact(x[0].value, y[0].value);
        lemma_fields_exact(x1, y1);
        if x[0] == y[0] && x1 == y1 {
            assert(x =~= y) by {
                assert forall|k: int| 0 <= k < x.len() implies x[k] == y[k] by {
                    if k > 0 {
                        assert(x[k] == x1[k - 1] && y[k] == y1[k - 1]);
                    }
                }
            }
        }
        if x == y {
            assert(x1 =~= y1);
        }
    }
}

/// Record lists equal record by record, where one holds no float, are
/// identical.
proof fn lemma_records_exact(x: Seq<Seq<FieldModel>>, y: Seq<Seq<FieldModel>>)
    requires
        records_no_float(y),
    ensures
        records_eq(x, y) <==> x == y,
    decreases rsize(y), 0nat,
{
    if y.len() == 0 {
        if x.len() == 0 {
            assert(x =~= y);
        }
    } else if x.len() > 0 {
        let x1 = x.subrange(1, x.len() as int);
        let y1 = y.subrange(1, y.len() as int);
        lemma_fields_exact(x[0], y[0]);
        lemma_records_exact(x1, y1);
        if x[0] == y[0] && x1 == y1 {
            assert(x =~= y) by {
                assert forall|k: int| 0 <= k < x.len() implies x[k] == y[k] by {
                    if k > 0 {
                        assert(x[k] == x1[k - 1] && y[k] == y1[k - 1]);
                    }
                }
            }
        }
        if x == y {
            assert(x1 =~= y1);
        }
    }
}

/// Applying to `old` the operations that turn it into `new` leaves, for
/// each identifier whose first field in `new` holds no float at any depth
/// and is not a nested record (which a merge rebuilds), that very field
/// first; for one whose first field holds a float, a first field holding the
/// same float, or a zero of either sign where `new` holds a zero; and no
/// field for an identifier that `new` lacks. Holds whenever the operations
/// can be written.
pub proof fn lemma_apply_diff_exact(old: Seq<FieldModel>, new: Seq<FieldModel>)
    requires
        diff_ok(old, new),
        diff_fits(old, new),
    ensures
        forall|g: u16| {
            let q = #[trigger] first_with_fid(new, g);
            let p = first_with_fid(apply_list(old, diff_fields(old, new)).0, g);
            &&& q is None ==> p is None
            &&& (q matches Some(n) && !(n.value is Record) && no_float(n.value))
                ==> p == q
            &&& (q is Some && q->Some_0.value is Float) ==> p is Some && p->Some_0.value is Float && ({
                let x = p->Some_0.value->Float_0;
                let y = q->Some_0.value->Float_0;
                x == y || (x & 0x7FFF_FFFF_FFFF_FFFFu64 == 0 && y & 0x7FFF_FFFF_FFFF_FFFFu64 == 0)
            })
        },
{
    lemma_apply_diff(old, new);
    let r = apply_list(old, diff_fields(old, new)).0;
    assert forall|g: u16| {
        let q = #[trigger] first_with_fid(new, g);
        let p = first_with_fid(r, g);
        &&& q is None ==> p is None
        &&& (q matches Some(n) && !(n.value is Record) && no_float(n.value))
            ==> p == q
        &&& (q is Some && q->Some_0.value is Float) ==> p is Some && p->Some_0.value is Float && ({
            let x = p->Some_0.value->Float_0;
            let y = q->Some_0.value->Float_0;
            x == y || (x & 0x7FFF_FFFF_FFFF_FFFFu64 == 0 && y & 0x7FFF_FFFF_FFFF_FFFFu64 == 0)
        })
    } by {
        assert(all_fids()[g as int] == g);
        lemma_agree_at_member(r, new, all_fids(), g as int);
        lemma_first_member(new, g);
        lemma_first_member(r, g);
        if let (Some(pp), Some(qq)) = (first_with_fid(r, g), first_with_fid(new, g)) {
            if no_float(qq.value) {
                lemma_model_eq_exact(pp.value, qq.value);
            }
        }
    }
}

/// A merge applies its nested operations to the nested record it targets:
/// when they apply there, the merge succeeds and the first field with the
/// identifier then holds the record they give, every other identifier keeping
/// its first field; when they fail, the merge fails with their error and
/// changes nothing. A merge on a missing field fails with an unknown-target
/// error, and one on a field that is not a nested record with a conflict,
/// both changing nothing.
pub proof fn lemma_apply_merge(base: Seq<FieldModel>, f: u16, nested: Seq<OpModel>)
    requires
        ops_fit(nested),
    ensures
        ({
            let (after, r) = apply_list(
                base,
                seq![OpModel { target_fid: f, operation: DeltaOperation::MergeRecord, payload: nested_ops_wire(nested) }],
            );
            match first_with_fid(base, f) {
                None => r == Err::<(), DeltaErrorModel>(DeltaErrorModel::InvalidTargetFid { fid: f }) && after == base,
                Some(x) => match x.value {
                    ValueModel::Record(fs) => match apply_list(fs, nested).1 {
                        Ok(()) => r == Ok::<(), DeltaErrorModel>(()) && forall|g: u16| #[trigger] first_with_fid(after, g)
                            == if g == f {
                            Some(FieldModel { fid: f, value: ValueModel::Record(apply_list(fs, nested).0) })
                        } else {
                            first_with_fid(base, g)
                        },
                        Err(e) => r == Err::<(), DeltaErrorModel>(e) && after == base,
                    },
                    _ => r == Err::<(), DeltaErrorModel>(
                        DeltaErrorModel::MergeConflict { fid: f, reason: "Target field is not a nested record"@ },
                    ) && after == base,
                },
            }
        }),
{
    let ops = seq![OpModel { target_fid: f, operation: DeltaOperation::MergeRecord, payload: nested_ops_wire(nested) }];
    assert(ops.drop_first() =~= Seq::<OpModel>::empty());
    lemma_nested_ops_roundtrip(nested);
    if let Some(x) = first_with_fid(base, f) {
        if let ValueModel::Record(fs) = x.value {
            let y = FieldModel { fid: f, value: ValueModel::Record(apply_list(fs, nested).0) };
            assert forall|g: u16| #[trigger] first_with_fid(without_fid(base, f).push(y), g) == (if g == f {
                Some(y)
            } else {
                first_with_fid(base, g)
            }) by {
                lemma_first_replace(base, f, y, g);
            }
            if apply_list(fs, nested).1 is Ok {
                assert(apply_list(base, ops) == apply_list(without_fid(base, f).push(y), Seq::<OpModel>::empty()));
            }
        }
    }
}

/// The first fields with identifier `g` differ: one list has it and the
/// other not, or the values are not equal as numbers.
pub open spec fn fields_differ(old: Seq<FieldModel>, new: Seq<FieldModel>, g: u16) -> bool {
    match (first_with_fid(old, g), first_with_fid(new, g)) {
        (None, None) => false,
        (Some(o), Some(n)) => !model_eq(o.value, n.value),
        _ => true,
    }
}

/// The operations for strictly increasing identifiers target some of them,
/// in strictly increasing order, exactly those where the fields differ.
proof fn lemma_diff_at_targets(old: Seq<FieldModel>, new: Seq<FieldModel>, fids: Seq<u16>)
    requires
        forall|i: int, j: int| 0 <= i < j < fids.len() ==> fids[i] < fids[j],
    ensures
        forall|i: int| 0 <= i < diff_at(old, new, fids).len() ==> fids.contains(#[trigger] diff_at(old, new, fids)[i].target_fid),
        forall|i: int, j: int| 0 <= i < j < diff_at(old, new, fids).len() ==> diff_at(old, new, fids)[i].target_fid
            < diff_at(old, new, fids)[j].target_fid,
        forall|k: int| 0 <= k < fids.len() ==> ((exists|i: int| 0 <= i < diff_at(old, new, fids).len() && diff_at(old, new, fids)[i].target_fid
            == #[trigger] fids[k]) <==> fields_differ(old, new, fids[k])),
    decreases fids.len(),
{
    if fids.len() > 0 {
        let f = fids[0];
        let tl = fids.drop_first();
        assert forall|i: int, j: int| 0 <= i < j < tl.len() implies tl[i] < tl[j] by {
            assert(tl[i] == fids[i + 1] && tl[j] == fids[j + 1]);
        }
        lemma_diff_at_targets(old, new, tl);
        let rest = diff_at(old, new, tl);
        let d = diff_at(old, new, fids);
        assert forall|i: int| 0 <= i < rest.len() implies f < #[trigger] rest[i].target_fid by {
            let k = choose|k: int| 0 <= k < tl.len() && tl[k] == rest[i].target_fid;
            assert(tl[k] == fids[k + 1]);
        }
        if fields_differ(old, new, f) {
            assert(d.len() == rest.len() + 1 && d[0].target_fid == f && forall|i: int| 1 <= i < d.len() ==> d[i] == rest[i - 1]);
        } else {
            assert(d == rest);
        }
        assert forall|i: int| 0 <= i < d.len() implies fids.contains(#[trigger] d[i].target_fid) by {
            if d.len() == rest.len() + 1 && i > 0 || d.len() == rest.len() {
                let ii = if d.len() == rest.len() { i } else { i - 1 };
                let k = choose|k: int| 0 <= k < tl.len() && tl[k] == rest[ii].target_fid;
                assert(fids[k + 1] == tl[k]);
            } else {
                assert(fids[0] == f);
            }
        }
        assert forall|k: int| 0 <= k < fids.len() implies ((exists|i: int| 0 <= i < d.len() && d[i].target_fid == #[trigger] fids[k])
            <==> fields_differ(old, new, fids[k])) by {
            if k == 0 {
                if exists|i: int| 0 <= i < d.len() && d[i].target_fid == fids[k] {
                    let i = choose|i: int| 0 <= i < d.len() && d[i].target_fid == fids[k];
                    if d.len() == rest.len() {
                        assert(f < rest[i].target_fid);
                    } else if i > 0 {
                        assert(f < rest[i - 1].target_fid);
                    }
                }
            } else {
                assert(tl[k - 1] == fids[k]);
                assert(f < fids[k]);
                if exists|i: int| 0 <= i < d.len() && d[i].target_fid == fids[k] {
                    let i = choose|i: int| 0 <= i < d.len() && d[i].target_fid == fids[k];
                    if d.len() == rest.len() {
                        assert(rest[i].target_fid == tl[k - 1]);
                    } else {
                        assert(i > 0);
                        assert(rest[i - 1].target_fid == tl[k - 1]);
                    }
                }
                if exists|i: int| 0 <= i < rest.len() && rest[i].target_fid == tl[k - 1] {
                    let i = choose|i: int| 0 <= i < rest.len() && rest[i].target_fid == tl[k - 1];
                    if d.len() == rest.len() {
                        assert(d[i] == rest[i]);
                    } else {
                        assert(d[i + 1] == rest[i]);
                    }
                }
            }
        }
        assert forall|i: int, j: int| 0 <= i < j < d.len() implies d[i].target_fid < d[j].target_fid by {
            if d.len() == rest.len() + 1 {
                if i > 0 {
                    assert(d[i] == rest[i - 1] && d[j] == rest[j - 1]);
                } else {
                    assert(d[j] == rest[j - 1]);
                }
            }
        }
    }
}

/// The operations that turn `old` into `new` target each identifier at most
/// once, in increasing order, and target exactly the identifiers where the
/// first fields differ: one record has the identifier and the other not, or
/// their values are not equal as numbers. So a record that holds no NaN and
/// no nested value needs no operation to become itself.
pub proof fn lemma_diff_targets(old: Seq<FieldModel>, new: Seq<FieldModel>)
    ensures
        forall|i: int, j: int| 0 <= i < j < diff_fields(old, new).len() ==> diff_fields(old, new)[i].target_fid
            < diff_fields(old, new)[j].target_fid,
        forall|g: u16| (exists|i: int| 0 <= i < diff_fields(old, new).len() && #[trigger] diff_fields(old, new)[i].target_fid == g)
            <==> #[trigger] fields_differ(old, new, g),
        plain_fields(old) && old == new ==> diff_fields(old, new).len() == 0,
{
    let u = union_fids(old, new);
    let d = diff_fields(old, new);
    lemma_union_fids(old, new);
    lemma_diff_at_targets(old, new, u);
    assert forall|g: u16| (exists|i: int| 0 <= i < d.len() && #[trigger] d[i].target_fid == g) <==> #[trigger] fields_differ(old, new, g) by {
        lemma_first_member(old, g);
        lemma_first_member(new, g);
        if u.contains(g) {
            let k = choose|k: int| 0 <= k < u.len() && u[k] == g;
            assert(u[k] == g);
        } else {
            if exists|i: int| 0 <= i < d.len() && d[i].target_fid == g {
                let i = choose|i: int| 0 <= i < d.len() && d[i].target_fid == g;
                assert(u.contains(d[i].target_fid));
            }
        }
    }
    if plain_fields(old) && old == new && d.len() > 0 {
        let g = d[0].target_fid;
        assert(fields_differ(old, new, g));
        lemma_first_member(old, g);
        let o = first_with_fid(old, g)->Some_0;
        let j = choose|j: int| 0 <= j < old.len() && old[j] == o;
        assert(plain_value(old[j].value));
        lemma_model_eq_refl(o.value);
    }
}

} // verus!

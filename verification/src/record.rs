//! LNMP records: ordered lists of fields, each a field identifier and a value.
//!
//! Floating-point values are held as their IEEE-754 bit patterns, which is
//! exactly what the binary format carries.

use vstd::prelude::*;

verus! {

/// Field identifier of a record field.
pub type FieldId = u16;

/// A field value.
#[derive(Debug, PartialEq)]
pub enum LnmpValue {
    /// Signed integer.
    Int(i64),
    /// Double-precision float, as its IEEE-754 bit pattern.
    Float(u64),
    /// Boolean.
    Bool(bool),
    /// String.
    String(String),
    /// Array of strings.
    StringArray(Vec<String>),
    /// Nested record.
    NestedRecord(Box<LnmpRecord>),
    /// Array of nested records.
    NestedArray(Vec<LnmpRecord>),
}

/// A field: identifier and value.
#[derive(Debug, PartialEq)]
pub struct LnmpField {
    /// Field identifier.
    pub fid: FieldId,
    /// Field value.
    pub value: LnmpValue,
}

/// A record: fields in insertion order.
#[derive(Debug, PartialEq)]
pub struct LnmpRecord {
    /// The fields, in insertion order.
    pub fields: Vec<LnmpField>,
}

/// Mathematical model of a value: strings by their characters.
pub enum ValueModel {
    Int(i64),
    Float(u64),
    Bool(bool),
    Str(Seq<char>),
    StrArray(Seq<Seq<char>>),
    Record(Seq<FieldModel>),
    RecordArray(Seq<Seq<FieldModel>>),
}

/// Mathematical model of a field.
pub struct FieldModel {
    pub fid: u16,
    pub value: ValueModel,
}

/// Characters of each string of a sequence.
pub open spec fn strings_model(s: Seq<String>) -> Seq<Seq<char>> {
    s.map_values(|x: String| x@)
}

/// Model of a value.
pub open spec fn value_model(v: LnmpValue) -> ValueModel
    decreases v, 1int,
{
    match v {
        LnmpValue::Int(i) => ValueModel::Int(i),
        LnmpValue::Float(f) => ValueModel::Float(f),
        LnmpValue::Bool(b) => ValueModel::Bool(b),
        LnmpValue::String(s) => ValueModel::Str(s@),
        LnmpValue::StringArray(a) => ValueModel::StrArray(strings_model(a@)),
        LnmpValue::NestedRecord(r) => ValueModel::Record(fields_model(r.fields@)),
        LnmpValue::NestedArray(rs) => ValueModel::RecordArray(records_model(rs@)),
    }
}

/// Model of a sequence of fields.
pub open spec fn fields_model(s: Seq<LnmpField>) -> Seq<FieldModel>
    decreases s, 0int,
{
    if s.len() == 0 {
        Seq::empty()
    } else {
        fields_model(s.subrange(0, s.len() - 1)).push(
            FieldModel { fid: s[s.len() - 1].fid, value: value_model(s[s.len() - 1].value) },
        )
    }
}

/// Model of a sequence of records.
pub open spec fn records_model(s: Seq<LnmpRecord>) -> Seq<Seq<FieldModel>>
    decreases s, 0int,
{
    if s.len() == 0 {
        Seq::empty()
    } else {
        records_model(s.subrange(0, s.len() - 1)).push(fields_model(s[s.len() - 1].fields@))
    }
}

impl View for LnmpValue {
    type V = ValueModel;

    open spec fn view(&self) -> ValueModel {
        value_model(*self)
    }
}

impl View for LnmpField {
    type V = FieldModel;

    open spec fn view(&self) -> FieldModel {
        FieldModel { fid: self.fid, value: value_model(self.value) }
    }
}

impl View for LnmpRecord {
    type V = Seq<FieldModel>;

    open spec fn view(&self) -> Seq<FieldModel> {
        fields_model(self.fields@)
    }
}

/// The model of a field sequence has one entry per field, each the field's model.
pub proof fn lemma_fields_model(s: Seq<LnmpField>)
    ensures
        fields_model(s).len() == s.len(),
        forall|i: int| 0 <= i < s.len() ==> #[trigger] fields_model(s)[i] == s[i]@,
    decreases s.len(),
{
    if s.len() > 0 {
        lemma_fields_model(s.subrange(0, s.len() - 1));
    }
}

/// The model of a record sequence has one entry per record, each the record's model.
pub proof fn lemma_records_model(s: Seq<LnmpRecord>)
    ensures
        records_model(s).len() == s.len(),
        forall|i: int| 0 <= i < s.len() ==> #[trigger] records_model(s)[i] == s[i]@,
    decreases s.len(),
{
    if s.len() > 0 {
        lemma_records_model(s.subrange(0, s.len() - 1));
    }
}

/// Whether the fields of a model are in ascending identifier order.
pub open spec fn fids_ascending(s: Seq<FieldModel>) -> bool {
    forall|i: int, j: int| 0 <= i < j < s.len() ==> s[i].fid <= s[j].fid
}

/// The fields of `s` that carry identifier `fid`, in order.
pub open spec fn with_fid(s: Seq<FieldModel>, fid: u16) -> Seq<FieldModel> {
    s.filter(|f: FieldModel| f.fid == fid)
}

/// `t` is `s` ordered by identifier, fields with equal identifiers keeping their
/// relative order (a stable sort).
pub open spec fn is_stable_sort(s: Seq<FieldModel>, t: Seq<FieldModel>) -> bool {
    &&& fids_ascending(t)
    &&& forall|fid: u16| #[trigger] with_fid(t, fid) == with_fid(s, fid)
}

/// `t` with `x` placed after every field whose identifier is not greater than its own.
pub open spec fn insert_by_fid(t: Seq<FieldModel>, x: FieldModel) -> Seq<FieldModel>
    decreases t.len(),
{
    if t.len() == 0 || t.last().fid <= x.fid {
        t.push(x)
    } else {
        insert_by_fid(t.drop_last(), x).push(t.last())
    }
}

/// The fields of `s` ordered by identifier, equal identifiers in the order they come.
pub open spec fn sort_by_fid(s: Seq<FieldModel>) -> Seq<FieldModel>
    decreases s.len(),
{
    if s.len() == 0 {
        s
    } else {
        insert_by_fid(sort_by_fid(s.drop_last()), s.last())
    }
}

/// Placing a field adds one to the length.
pub proof fn lemma_insert_len(t: Seq<FieldModel>, x: FieldModel)
    ensures
        insert_by_fid(t, x).len() == t.len() + 1,
    decreases t.len(),
{
    if t.len() > 0 && t.last().fid > x.fid {
        lemma_insert_len(t.drop_last(), x);
    }
}

/// Sorting keeps the length.
pub proof fn lemma_sort_len(s: Seq<FieldModel>)
    ensures
        sort_by_fid(s).len() == s.len(),
    decreases s.len(),
{
    if s.len() > 0 {
        lemma_sort_len(s.drop_last());
        lemma_insert_len(sort_by_fid(s.drop_last()), s.last());
    }
}

/// The first field of `s` with identifier `fid`, if any.
pub open spec fn first_with_fid(s: Seq<FieldModel>, fid: u16) -> Option<FieldModel>
    decreases s.len(),
{
    if s.len() == 0 {
        None
    } else if s[0].fid == fid {
        Some(s[0])
    } else {
        first_with_fid(s.drop_first(), fid)
    }
}

/// Copies a string.
pub fn copy_string(s: &String) -> (r: String)
    ensures
        r@ == s@,
{
    s.clone()
}

/// Copies a vector of strings.
pub fn copy_strings(v: &Vec<String>) -> (r: Vec<String>)
    ensures
        strings_model(r@) == strings_model(v@),
{
    let mut r: Vec<String> = Vec::new();
    let mut i: usize = 0;
    while i < v.len()
        invariant
            i <= v@.len(),
            r@.len() == i,
            forall|j: int| 0 <= j < i ==> (#[trigger] r@[j])@ == v@[j]@,
        decreases v@.len() - i,
    {
        r.push(copy_string(&v[i]));
        i += 1;
    }
    assert(strings_model(r@) =~= strings_model(v@));
    r
}

impl LnmpValue {
    /// A copy of this value with the same model.
    pub fn copy(&self) -> (r: LnmpValue)
        ensures
            r@ == self@,
        decreases self, 1int,
    {
        match self {
            LnmpValue::Int(i) => LnmpValue::Int(*i),
            LnmpValue::Float(f) => LnmpValue::Float(*f),
            LnmpValue::Bool(b) => LnmpValue::Bool(*b),
            LnmpValue::String(s) => LnmpValue::String(copy_string(s)),
            LnmpValue::StringArray(a) => LnmpValue::StringArray(copy_strings(a)),
            LnmpValue::NestedRecord(r) => {
                let c = r.copy();
                LnmpValue::NestedRecord(Box::new(c))
            },
            LnmpValue::NestedArray(rs) => LnmpValue::NestedArray(copy_records(rs)),
        }
    }
}

impl LnmpField {
    /// A copy of this field with the same model.
    pub fn copy(&self) -> (r: LnmpField)
        ensures
            r@ == self@,
        decreases self, 2int,
    {
        LnmpField { fid: self.fid, value: self.value.copy() }
    }
}

impl Clone for LnmpValue {
    fn clone(&self) -> (r: Self)
        ensures
            r@ == self@,
    {
        self.copy()
    }
}

impl Clone for LnmpField {
    fn clone(&self) -> (r: Self)
        ensures
            r@ == self@,
    {
        self.copy()
    }
}

impl Clone for LnmpRecord {
    fn clone(&self) -> (r: Self)
        ensures
            r@ == self@,
    {
        self.copy()
    }
}

/// Copies a vector of records.
pub fn copy_records(v: &Vec<LnmpRecord>) -> (r: Vec<LnmpRecord>)
    ensures
        records_model(r@) == records_model(v@),
    decreases v, 0int,
{
    let mut r: Vec<LnmpRecord> = Vec::new();
    let mut i: usize = 0;
    while i < v.len()
        invariant
            i <= v@.len(),
            r@.len() == i,
            forall|j: int| 0 <= j < i ==> (#[trigger] r@[j])@ == v@[j]@,
        decreases v@.len() - i,
    {
        r.push(v[i].copy());
        i += 1;
    }
    proof {
        lemma_records_model(r@);
        lemma_records_model(v@);
    }
    assert(records_model(r@) =~= records_model(v@));
    r
}

impl LnmpRecord {
    /// Creates an empty record.
    pub fn new() -> (r: LnmpRecord)
        ensures
            r@ == Seq::<FieldModel>::empty(),
    {
        LnmpRecord { fields: Vec::new() }
    }

    /// Creates a record that holds `fields` in the given order.
    pub fn from_sorted_fields(fields: Vec<LnmpField>) -> (r: LnmpRecord)
        ensures
            r@ == fields_model(fields@),
    {
        LnmpRecord { fields }
    }

    /// A copy of this record with the same model.
    pub fn copy(&self) -> (r: LnmpRecord)
        ensures
            r@ == self@,
        decreases self, 3int,
    {
        let mut out: Vec<LnmpField> = Vec::new();
        let mut i: usize = 0;
        while i < self.fields.len()
            invariant
                i <= self.fields@.len(),
                out@.len() == i,
                forall|j: int| 0 <= j < i ==> (#[trigger] out@[j])@ == self.fields@[j]@,
            decreases self.fields@.len() - i,
        {
            out.push(self.fields[i].copy());
            i += 1;
        }
        proof {
            lemma_fields_model(out@);
            lemma_fields_model(self.fields@);
        }
        assert(fields_model(out@) =~= fields_model(self.fields@));
        LnmpRecord { fields: out }
    }

    /// Appends a field.
    pub fn add_field(&mut self, field: LnmpField)
        ensures
            final(self)@ == old(self)@.push(field@),
    {
        let ghost f = field@;
        self.fields.push(field);
        proof {
            assert(self.fields@.subrange(0, self.fields@.len() - 1) =~= old(self).fields@);
        }
    }

    /// The fields, in insertion order.
    pub fn fields(&self) -> (r: &Vec<LnmpField>)
        ensures
            fields_model(r@) == self@,
    {
        &self.fields
    }

    /// Number of fields.
    pub fn len(&self) -> (n: usize)
        ensures
            n == self@.len(),
    {
        proof {
            lemma_fields_model(self.fields@);
        }
        self.fields.len()
    }

    /// The first field with identifier `fid`, if any.
    pub fn get_field(&self, fid: FieldId) -> (r: Option<&LnmpField>)
        ensures
            match r {
                Some(f) => first_with_fid(self@, fid) == Some(f@),
                None => first_with_fid(self@, fid) is None,
            },
    {
        proof {
            lemma_fields_model(self.fields@);
        }
        assert(self@.subrange(0, self@.len() as int) =~= self@);
        let mut i: usize = 0;
        while i < self.fields.len()
            invariant
                i <= self.fields@.len(),
                fields_model(self.fields@).len() == self.fields@.len(),
                forall|j: int| 0 <= j < self.fields@.len() ==> fields_model(self.fields@)[j] == (#[trigger] self.fields@[j])@,
                first_with_fid(self@, fid) == first_with_fid(self@.subrange(i as int, self@.len() as int), fid),
            decreases self.fields@.len() - i,
        {
            proof {
                let m = self@.subrange(i as int, self@.len() as int);
                assert(m.drop_first() =~= self@.subrange(i + 1, self@.len() as int));
                assert(m[0] == self.fields@[i as int]@);
            }
            if self.fields[i].fid == fid {
                return Some(&self.fields[i]);
            }
            i += 1;
        }
        None
    }

    /// Removes every field with identifier `fid`, keeping the others in order.
    pub fn remove_field(&mut self, fid: FieldId)
        ensures
            final(self)@ == old(self)@.filter(|f: FieldModel| f.fid != fid),
    {
        proof {
            lemma_fields_model(self.fields@);
        }
        let ghost orig = self@;
        let mut kept: Vec<LnmpField> = Vec::new();
        let n = self.fields.len();
        proof {
            assert(orig.subrange(0, 0).filter(|f: FieldModel| f.fid != fid) =~= Seq::empty());
        }
        let mut i: usize = 0;
        while i < n
            invariant
                i <= n,
                self.fields@.len() == n,
                fields_model(self.fields@) == orig,
                orig.len() == n,
                fields_model(kept@) == orig.subrange(0, i as int).filter(|f: FieldModel| f.fid != fid),
            decreases n - i,
        {
            proof {
                lemma_fields_model(self.fields@);
                lemma_fields_model(kept@);
            }
            let fld = self.fields[i].copy();
            proof {
                let pre = orig.subrange(0, i as int);
                assert(orig.subrange(0, i + 1) =~= pre.push(orig[i as int]));
                pre.lemma_filter_push(orig[i as int], |f: FieldModel| f.fid != fid);
            }
            if fld.fid != fid {
                let ghost before = kept@;
                kept.push(fld);
                proof {
                    assert(kept@.subrange(0, kept@.len() - 1) =~= before);
                }
            }
            i += 1;
        }
        proof {
            assert(orig.subrange(0, n as int) =~= orig);
        }
        self.fields = kept;
    }

    /// The fields ordered by identifier; fields with equal identifiers keep their
    /// relative order.
    pub fn sorted_fields(&self) -> (r: Vec<LnmpField>)
        ensures
            fields_model(r@) == sort_by_fid(self@),
            is_stable_sort(self@, fields_model(r@)),
            r@.len() == self@.len(),
    {
        let mut out: Vec<LnmpField> = Vec::new();
        proof {
            lemma_fields_model(self.fields@);
        }
        assert(self@.subrange(0, 0) =~= Seq::<FieldModel>::empty());
        assert(fields_model(out@) =~= Seq::<FieldModel>::empty());
        assert(sort_by_fid(self@.subrange(0, 0)) =~= Seq::<FieldModel>::empty());
        let mut i: usize = 0;
        while i < self.fields.len()
            invariant
                i <= self.fields@.len(),
                fields_model(self.fields@) == self@,
                self@.len() == self.fields@.len(),
                is_stable_sort(self@.subrange(0, i as int), fields_model(out@)),
                fields_model(out@) == sort_by_fid(self@.subrange(0, i as int)),
                out@.len() == i,
            decreases self.fields@.len() - i,
        {
            let f = self.fields[i].copy();
            proof {
                lemma_fields_model(self.fields@);
                assert(self@.subrange(0, i + 1) =~= self@.subrange(0, i as int).push(f@));
                assert(self@.subrange(0, i + 1).drop_last() =~= self@.subrange(0, i as int));
            }
            insert_sorted(&mut out, f, Ghost(self@.subrange(0, i as int)));
            i += 1;
        }
        proof {
            assert(self@.subrange(0, self@.len() as int) =~= self@);
        }
        out
    }
}

pub(crate) proof fn lemma_filter_push(s: Seq<FieldModel>, x: FieldModel, fid: u16)
    ensures
        with_fid(s.push(x), fid) == if x.fid == fid {
            with_fid(s, fid).push(x)
        } else {
            with_fid(s, fid)
        },
{
    s.lemma_filter_push(x, |f: FieldModel| f.fid == fid);
}

pub(crate) proof fn lemma_filter_append(a: Seq<FieldModel>, b: Seq<FieldModel>, fid: u16)
    ensures
        with_fid(a + b, fid) == with_fid(a, fid) + with_fid(b, fid),
{
    Seq::filter_distributes_over_add(a, b, |f: FieldModel| f.fid == fid);
}

/// Placing `x` after every field whose identifier is not greater than its own keeps
/// a stable sort stable.
proof fn lemma_insert_stable(src: Seq<FieldModel>, m: Seq<FieldModel>, pos: int, x: FieldModel)
    requires
        is_stable_sort(src, m),
        0 <= pos <= m.len(),
        forall|j: int| 0 <= j < pos ==> m[j].fid <= x.fid,
        forall|j: int| pos <= j < m.len() ==> m[j].fid > x.fid,
    ensures
        is_stable_sort(src.push(x), m.subrange(0, pos).push(x) + m.subrange(pos, m.len() as int)),
{
    let prefix = m.subrange(0, pos);
    let suffix = m.subrange(pos, m.len() as int);
    let n = prefix.push(x) + suffix;
    assert(m =~= prefix + suffix);
    assert forall|fid: u16| #[trigger] with_fid(n, fid) == with_fid(src.push(x), fid) by {
        lemma_filter_append(prefix.push(x), suffix, fid);
        lemma_filter_append(prefix, suffix, fid);
        lemma_filter_push(prefix, x, fid);
        lemma_filter_push(src, x, fid);
        assert(with_fid(m, fid) == with_fid(src, fid));
        if x.fid == fid {
            assert forall|k: int| 0 <= k < suffix.len() implies suffix[k].fid != fid by {
                assert(suffix[k] == m[pos + k]);
            }
            lemma_filter_none(suffix, fid);
        }
    }
    assert forall|a: int, b: int| 0 <= a < b < n.len() implies n[a].fid <= n[b].fid by {
        if a < pos {
            assert(n[a] == m[a]);
        } else if a > pos {
            assert(n[a] == m[a - 1]);
        }
        if b < pos {
            assert(n[b] == m[b]);
        } else if b > pos {
            assert(n[b] == m[b - 1]);
        }
    }
}

/// Where the scan from the end stops, inserting there is `insert_by_fid`.
proof fn lemma_insert_by_fid(m: Seq<FieldModel>, pos: int, x: FieldModel)
    requires
        0 <= pos <= m.len(),
        pos == 0 || m[pos - 1].fid <= x.fid,
        forall|j: int| pos <= j < m.len() ==> m[j].fid > x.fid,
    ensures
        insert_by_fid(m, x) == m.subrange(0, pos).push(x) + m.subrange(pos, m.len() as int),
    decreases m.len() - pos,
{
    if m.len() == pos {
        assert(m.subrange(0, pos).push(x) + m.subrange(pos, m.len() as int) =~= m.push(x));
    } else {
        let init = m.drop_last();
        lemma_insert_by_fid(init, pos, x);
        assert(m.subrange(0, pos).push(x) + m.subrange(pos, m.len() as int) =~= (init.subrange(
            0,
            pos,
        ).push(x) + init.subrange(pos, init.len() as int)).push(m.last()));
    }
}

/// Inserts `f` after every field whose identifier is not greater than its own.
fn insert_sorted(out: &mut Vec<LnmpField>, f: LnmpField, Ghost(src): Ghost<Seq<FieldModel>>)
    requires
        is_stable_sort(src, fields_model(old(out)@)),
    ensures
        is_stable_sort(src.push(f@), fields_model(final(out)@)),
        fields_model(final(out)@) == insert_by_fid(fields_model(old(out)@), f@),
        final(out)@.len() == old(out)@.len() + 1,
{
    proof {
        lemma_fields_model(out@);
    }
    let ghost m = fields_model(out@);
    let mut pos: usize = out.len();
    while pos > 0 && out[pos - 1].fid > f.fid
        invariant
            pos <= out@.len(),
            m == fields_model(out@),
            m.len() == out@.len(),
            forall|j: int| 0 <= j < m.len() ==> m[j] == (#[trigger] out@[j])@,
            forall|j: int| pos <= j < m.len() ==> m[j].fid > f.fid,
        decreases pos,
    {
        pos -= 1;
    }
    proof {
        assert forall|j: int| 0 <= j < pos implies m[j].fid <= f.fid by {
            assert(m[pos - 1] == out@[pos - 1]@);
        }
        lemma_insert_stable(src, m, pos as int, f@);
    }
    let ghost fm = f@;
    let ghost before = out@;
    out.insert(pos, f);
    proof {
        lemma_fields_model(out@);
        lemma_fields_model(before);
        assert(fields_model(out@) =~= m.subrange(0, pos as int).push(fm) + m.subrange(pos as int, m.len() as int));
        lemma_insert_by_fid(m, pos as int, fm);
    }
}

proof fn lemma_filter_none(s: Seq<FieldModel>, fid: u16)
    requires
        forall|k: int| 0 <= k < s.len() ==> s[k].fid != fid,
    ensures
        with_fid(s, fid) == Seq::<FieldModel>::empty(),
    decreases s.len(),
{
    if s.len() > 0 {
        let p = s.subrange(0, s.len() - 1);
        assert(s =~= p.push(s[s.len() - 1]));
        lemma_filter_push(p, s[s.len() - 1], fid);
        lemma_filter_none(p, fid);
    }
}

} // verus!

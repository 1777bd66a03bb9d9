//! A complete record in binary form: version byte, flags byte, entry count
//! (varint) and the entries one after another.

use vstd::prelude::*;
use super::entry::{BinaryEntry, parse_entry, entry_wire, value_fits, tail, eof_error, lemma_entry_roundtrip};
use super::error::{BinaryError, BinaryErrorModel};
use super::types::{TypeTag, model_tag, is_flat};
use super::varint::{self, sleb128, varint_parse, wrap_i64, lemma_varint_roundtrip};
use super::wire::append_bytes;
use crate::numfmt::{signed_decimal, push_signed_decimal, string_of};
use crate::record::{LnmpField, LnmpRecord, FieldModel, ValueModel, fields_model, lemma_fields_model, is_stable_sort};

verus! {

/// Version byte of the v0.4 binary format.
pub const VERSION_0_4: u8 = 0x04;

/// Model of an entry.
pub struct EntryModel {
    pub fid: u16,
    pub tag: TypeTag,
    pub value: ValueModel,
}

impl View for BinaryEntry {
    type V = EntryModel;

    open spec fn view(&self) -> EntryModel {
        EntryModel { fid: self.fid, tag: self.tag, value: self.value@ }
    }
}

/// Models of a sequence of entries.
pub open spec fn entries_model(s: Seq<BinaryEntry>) -> Seq<EntryModel> {
    s.map_values(|e: BinaryEntry| e@)
}

/// Wire forms of a sequence of entries, one after another.
pub open spec fn entries_wire(s: Seq<EntryModel>) -> Seq<u8>
    decreases s.len(),
{
    if s.len() == 0 {
        Seq::empty()
    } else {
        entries_wire(s.drop_last()) + entry_wire(s.last().fid, s.last().tag, s.last().value)
    }
}

/// Wire form of a frame.
pub open spec fn frame_wire(version: u8, flags: u8, s: Seq<EntryModel>) -> Seq<u8> {
    seq![version, flags] + sleb128(s.len() as int) + entries_wire(s)
}

/// Every entry holds a flat value whose lengths fit in a varint.
pub open spec fn entries_encodable(s: Seq<EntryModel>) -> bool {
    forall|i: int| 0 <= i < s.len() ==> is_flat(#[trigger] s[i].value) && value_fits(s[i].value)
}

/// Reads `k` entries one after another, starting at `off`.
pub open spec fn parse_entries(b: Seq<u8>, off: nat, k: int) -> Result<
    (Seq<EntryModel>, nat),
    BinaryErrorModel,
>
    decreases k,
{
    if k <= 0 {
        Ok((Seq::empty(), off))
    } else {
        match parse_entries(b, off, k - 1) {
            Err(e) => Err(e),
            Ok((es, o)) => match parse_entry(tail(b, o)) {
                Err(e) => Err(e),
                Ok((fid, tag, v, n)) => Ok(
                    (es.push(EntryModel { fid, tag, value: v }), o + n),
                ),
            },
        }
    }
}

/// Reads a frame: version, flags, entries and the number of bytes taken.
pub open spec fn parse_frame(b: Seq<u8>) -> Result<(u8, u8, Seq<EntryModel>, nat), BinaryErrorModel> {
    if b.len() < 1 {
        Err(eof_error(1, b.len()))
    } else if b[0] != VERSION_0_4 {
        Err(BinaryErrorModel::UnsupportedVersion { found: b[0], supported: seq![VERSION_0_4] })
    } else if b.len() < 2 {
        Err(eof_error(2, b.len()))
    } else {
        match varint_parse(tail(b, 2)) {
            None => Err(BinaryErrorModel::InvalidVarInt { reason: "Invalid entry count VarInt"@ }),
            Some((c, n)) => if c < 0 {
                Err(
                    BinaryErrorModel::InvalidValue {
                        field_id: 0,
                        type_tag: 0,
                        reason: "Negative entry count: "@ + signed_decimal(c),
                    },
                )
            } else {
                match parse_entries(b, 2 + n, c) {
                    Err(e) => Err(e),
                    Ok((es, o)) => Ok((b[0], b[1], es, o)),
                }
            },
        }
    }
}

/// Field models of a sequence of entry models.
pub open spec fn entries_fields(s: Seq<EntryModel>) -> Seq<FieldModel> {
    s.map_values(|e: EntryModel| FieldModel { fid: e.fid, value: e.value })
}

/// Entry models of a sequence of field models, each tagged with its value's type.
pub open spec fn fields_entries(s: Seq<FieldModel>) -> Seq<EntryModel> {
    s.map_values(|f: FieldModel| EntryModel { fid: f.fid, tag: model_tag(f.value), value: f.value })
}

/// A complete record in binary form.
#[derive(Debug, Clone, PartialEq)]
pub struct BinaryFrame {
    /// Version byte (0x04).
    pub version: u8,
    /// Flags byte (0x00, reserved).
    pub flags: u8,
    /// The entries, in wire order.
    pub entries: Vec<BinaryEntry>,
}

proof fn lemma_entries_err_extends(b: Seq<u8>, off: nat, i: int, k: int)
    requires
        0 <= i <= k,
        parse_entries(b, off, i) is Err,
    ensures
        parse_entries(b, off, k) == parse_entries(b, off, i),
    decreases k - i,
{
    if i < k {
        lemma_entries_err_extends(b, off, i, k - 1);
    }
}

proof fn lemma_entries_len(b: Seq<u8>, off: nat, k: int)
    requires
        off <= b.len(),
    ensures
        parse_entries(b, off, k) matches Ok((_, o)) ==> off <= o <= b.len(),
    decreases k,
{
    if k > 0 {
        lemma_entries_len(b, off, k - 1);
        if let Ok((_, o)) = parse_entries(b, off, k - 1) {
            super::entry::lemma_entry_len(tail(b, o));
        }
    }
}

/// A frame never claims more bytes than it was read from.
pub proof fn lemma_frame_len(b: Seq<u8>)
    ensures
        parse_frame(b) matches Ok((_, _, _, n)) ==> n <= b.len(),
{
    if b.len() >= 2 {
        super::varint::lemma_varint_len(tail(b, 2), 0);
        if let Some((c, n)) = varint_parse(tail(b, 2)) {
            lemma_entries_len(b, 2 + n, c);
        }
    }
}

/// Reading the wire form of encodable entries, followed by any bytes, gives back the
/// entries and the length of their wire form.
proof fn lemma_entries_roundtrip(pre: Seq<u8>, s: Seq<EntryModel>, rest: Seq<u8>)
    requires
        entries_encodable(s),
        forall|i: int| 0 <= i < s.len() ==> (#[trigger] s[i]).tag == model_tag(s[i].value),
    ensures
        parse_entries(pre + entries_wire(s) + rest, pre.len(), s.len() as int) == Ok::<
            (Seq<EntryModel>, nat),
            BinaryErrorModel,
        >((s, pre.len() + entries_wire(s).len())),
    decreases s.len(),
{
    if s.len() > 0 {
        let init = s.drop_last();
        let x = s.last();
        let w = entry_wire(x.fid, x.tag, x.value);
        let b = pre + entries_wire(s) + rest;
        assert(b =~= pre + entries_wire(init) + (w + rest));
        lemma_entries_roundtrip(pre, init, w + rest);
        let o = pre.len() + entries_wire(init).len();
        assert(tail(b, o) =~= w + rest);
        assert(is_flat(s[s.len() - 1].value) && s[s.len() - 1].tag == model_tag(x.value));
        lemma_entry_roundtrip(x.fid, x.value, rest);
        assert(init.push(x) =~= s);
    } else {
        assert(s =~= Seq::<EntryModel>::empty());
    }
}

/// Reading the wire form of a v0.4 frame of encodable entries, followed by any
/// bytes, gives back its flags and entries and the length of its wire form.
pub proof fn lemma_frame_roundtrip(flags: u8, s: Seq<EntryModel>, rest: Seq<u8>)
    requires
        entries_encodable(s),
        forall|i: int| 0 <= i < s.len() ==> (#[trigger] s[i]).tag == model_tag(s[i].value),
        s.len() <= i64::MAX,
    ensures
        parse_frame(frame_wire(VERSION_0_4, flags, s) + rest) == Ok::<
            (u8, u8, Seq<EntryModel>, nat),
            BinaryErrorModel,
        >((VERSION_0_4, flags, s, frame_wire(VERSION_0_4, flags, s).len())),
{
    let b = frame_wire(VERSION_0_4, flags, s) + rest;
    let c = s.len() as i64;
    assert(tail(b, 2) =~= sleb128(c as int) + (entries_wire(s) + rest));
    lemma_varint_roundtrip(c, entries_wire(s) + rest);
    let pre = seq![VERSION_0_4, flags] + sleb128(c as int);
    assert(b =~= pre + entries_wire(s) + rest);
    lemma_entries_roundtrip(pre, s, rest);
}

impl BinaryFrame {
    /// Frame of version 0x04 with flags 0x00 holding `entries`.
    pub fn new(entries: Vec<BinaryEntry>) -> (f: BinaryFrame)
        ensures
            f.version() == VERSION_0_4,
            f.flags() == 0,
            f.entries() == entries,
    {
        BinaryFrame { version: VERSION_0_4, flags: 0, entries }
    }

    /// Version byte.
    pub open spec fn version(&self) -> u8 {
        self.version
    }

    /// Flags byte.
    pub open spec fn flags(&self) -> u8 {
        self.flags
    }

    /// The entries.
    pub open spec fn entries(&self) -> Vec<BinaryEntry> {
        self.entries
    }

    /// Version byte.
    pub fn get_version(&self) -> (v: u8)
        ensures
            v == self.version(),
    {
        self.version
    }

    /// Flags byte.
    pub fn get_flags(&self) -> (v: u8)
        ensures
            v == self.flags(),
    {
        self.flags
    }

    /// The entries.
    pub fn get_entries(&self) -> (e: &Vec<BinaryEntry>)
        ensures
            *e == self.entries(),
    {
        &self.entries
    }

    /// Wire form: version, flags, entry count as a varint, then each entry.
    pub fn encode(&self) -> (bytes: Vec<u8>)
        requires
            entries_encodable(entries_model(self.entries@)),
            self.entries@.len() <= i64::MAX,
        ensures
            bytes@ == frame_wire(self.version, self.flags, entries_model(self.entries@)),
    {
        let ghost m = entries_model(self.entries@);
        let mut bytes: Vec<u8> = Vec::new();
        bytes.push(self.version);
        bytes.push(self.flags);
        let count = varint::encode(self.entries.len() as i64);
        append_bytes(&mut bytes, count.as_slice());
        let ghost head = bytes@;
        let mut i: usize = 0;
        while i < self.entries.len()
            invariant
                i <= self.entries@.len(),
                m == entries_model(self.entries@),
                entries_encodable(m),
                bytes@ == head + entries_wire(m.subrange(0, i as int)),
            decreases self.entries@.len() - i,
        {
            proof {
                assert(m[i as int] == self.entries@[i as int]@);
                assert(is_flat(m[i as int].value) && value_fits(m[i as int].value));
            }
            let enc = self.entries[i].encode();
            append_bytes(&mut bytes, enc.as_slice());
            proof {
                let t = m.subrange(0, i + 1);
                assert(t.drop_last() =~= m.subrange(0, i as int));
                assert(t.last() == self.entries@[i as int]@);
            }
            i += 1;
        }
        assert(m.subrange(0, self.entries@.len() as int) =~= m);
        assert(bytes@ =~= frame_wire(self.version, self.flags, m));
        bytes
    }

    /// Reads a frame from the start of `bytes`, returning it and the number of
    /// bytes it takes.
    pub fn decode_with_len(bytes: &[u8]) -> (res: Result<(BinaryFrame, usize), BinaryError>)
        ensures
            match parse_frame(bytes@) {
                Ok((v, f, es, n)) => res matches Ok((fr, m)) && fr.version == v && fr.flags == f
                    && entries_model(fr.entries@) == es && m == n,
                Err(err) => res matches Err(e) && e@ == err,
            },
    {
        if bytes.len() < 1 {
            return Err(BinaryError::UnexpectedEof { expected: 1, found: bytes.len() });
        }
        let version = bytes[0];
        if version != VERSION_0_4 {
            let mut supported: Vec<u8> = Vec::new();
            supported.push(VERSION_0_4);
            assert(supported@ =~= seq![VERSION_0_4]);
            return Err(BinaryError::UnsupportedVersion { found: version, supported });
        }
        if bytes.len() < 2 {
            return Err(BinaryError::UnexpectedEof { expected: 2, found: bytes.len() });
        }
        let flags = bytes[1];
        let rest = vstd::slice::slice_subrange(bytes, 2, bytes.len());
        let (count, consumed) = match varint::decode(rest) {
            Ok(p) => p,
            Err(_) => {
                return Err(
                    BinaryError::InvalidVarInt { reason: string_of("Invalid entry count VarInt") },
                );
            },
        };
        proof {
            assert(i64::MIN <= wrap_i64(varint_parse(rest@).unwrap().0) <= i64::MAX);
        }
        if count < 0 {
            let mut reason = string_of("Negative entry count: ");
            push_signed_decimal(&mut reason, count);
            return Err(BinaryError::InvalidValue { field_id: 0, type_tag: 0, reason });
        }
        match read_entries(bytes, 2 + consumed, count) {
            Ok((entries, end)) => Ok((BinaryFrame { version, flags, entries }, end)),
            Err(e) => Err(e),
        }
    }

    /// Reads a frame from the start of `bytes`; bytes after it are not looked at.
    pub fn decode(bytes: &[u8]) -> (res: Result<BinaryFrame, BinaryError>)
        ensures
            match parse_frame(bytes@) {
                Ok((v, f, es, n)) => res matches Ok(fr) && fr.version == v && fr.flags == f
                    && entries_model(fr.entries@) == es,
                Err(err) => res matches Err(e) && e@ == err,
            },
    {
        match BinaryFrame::decode_with_len(bytes) {
            Ok((f, _)) => Ok(f),
            Err(e) => Err(e),
        }
    }

    /// The record this frame holds, fields in entry order.
    pub fn to_record(&self) -> (r: LnmpRecord)
        ensures
            r@ == entries_fields(entries_model(self.entries@)),
    {
        let mut fields: Vec<LnmpField> = Vec::new();
        let mut i: usize = 0;
        while i < self.entries.len()
            invariant
                i <= self.entries@.len(),
                fields@.len() == i,
                forall|j: int| 0 <= j < i ==> (#[trigger] fields@[j])@ == (FieldModel {
                    fid: self.entries@[j].fid,
                    value: self.entries@[j].value@,
                }),
            decreases self.entries@.len() - i,
        {
            fields.push(self.entries[i].to_field());
            i += 1;
        }
        proof {
            lemma_fields_model(fields@);
        }
        assert(fields_model(fields@) =~= entries_fields(entries_model(self.entries@)));
        LnmpRecord::from_sorted_fields(fields)
    }

    /// Frame holding the record's fields ordered by identifier (stably).
    pub fn from_record(record: &LnmpRecord) -> (r: Result<BinaryFrame, BinaryError>)
        ensures
            r matches Ok(f) && f.version == VERSION_0_4 && f.flags == 0 && f.entries@.len()
                == record@.len() && is_stable_sort(
                record@,
                entries_fields(entries_model(f.entries@)),
            ) && forall|i: int| 0 <= i < f.entries@.len() ==> (#[trigger] f.entries@[i]).tag
                == model_tag(f.entries@[i].value@),
    {
        let sorted = record.sorted_fields();
        proof {
            lemma_fields_model(sorted@);
        }
        let mut entries: Vec<BinaryEntry> = Vec::new();
        let mut i: usize = 0;
        while i < sorted.len()
            invariant
                i <= sorted@.len(),
                entries@.len() == i,
                fields_model(sorted@).len() == sorted@.len(),
                forall|j: int| 0 <= j < sorted@.len() ==> fields_model(sorted@)[j] == (#[trigger] sorted@[j])@,
                forall|j: int| 0 <= j < i ==> (#[trigger] entries@[j]).fid == sorted@[j].fid
                    && entries@[j].value@ == sorted@[j].value@ && entries@[j].tag == model_tag(
                    entries@[j].value@),
            decreases sorted@.len() - i,
        {
            let e = match BinaryEntry::from_field(&sorted[i]) {
                Ok(e) => e,
                Err(e) => {
                    return Err(e);
                },
            };
            entries.push(e);
            i += 1;
        }
        assert(entries_fields(entries_model(entries@)) =~= fields_model(sorted@));
        Ok(BinaryFrame::new(entries))
    }
}

/// Reads `count` entries starting at `off`, as `parse_entries` describes.
fn read_entries(bytes: &[u8], off: usize, count: i64) -> (r: Result<
    (Vec<BinaryEntry>, usize),
    BinaryError,
>)
    requires
        off <= bytes@.len(),
        count >= 0,
    ensures
        match parse_entries(bytes@, off as nat, count as int) {
            Ok((es, o)) => r matches Ok((v, m)) && entries_model(v@) == es && m == o,
            Err(e) => r matches Err(x) && x@ == e,
        },
{
    let mut offset: usize = off;
    let mut entries: Vec<BinaryEntry> = Vec::new();
    assert(entries_model(entries@) =~= Seq::<EntryModel>::empty());
    let mut i: i64 = 0;
    while i < count
        invariant
            0 <= i <= count,
            off <= offset <= bytes@.len(),
            parse_entries(bytes@, off as nat, i as int) == Ok::<
                (Seq<EntryModel>, nat),
                BinaryErrorModel,
            >((entries_model(entries@), offset as nat)),
        decreases count - i,
    {
        let rest = vstd::slice::slice_subrange(bytes, offset, bytes.len());
        match BinaryEntry::decode(rest) {
            Ok((e, n)) => {
                proof {
                    lemma_entry_len(rest@);
                }
                let ghost before = entries@;
                entries.push(e);
                proof {
                    assert(entries_model(entries@) =~= entries_model(before).push(e@));
                }
                offset = offset + n;
            },
            Err(e) => {
                proof {
                    assert(parse_entries(bytes@, off as nat, i + 1) == Err::<
                        (Seq<EntryModel>, nat),
                        BinaryErrorModel,
                    >(e@));
                    lemma_entries_err_extends(bytes@, off as nat, i + 1, count as int);
                }
                return Err(e);
            },
        }
        i += 1;
    }
    Ok((entries, offset))
}

/// An entry never claims more bytes than it was read from.
proof fn lemma_entry_len(b: Seq<u8>)
    ensures
        parse_entry(b) matches Ok((_, _, _, n)) ==> n <= b.len(),
{
    super::entry::lemma_entry_len(b);
}

} // verus!

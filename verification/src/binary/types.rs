//! Type tags and binary values.

use vstd::prelude::*;
use super::error::BinaryError;
use super::wire::{le32, le64};
use crate::record::{LnmpRecord, LnmpValue, ValueModel, copy_records, copy_strings, copy_string};

verus! {

/// Type tag of a binary value.
#[derive(Debug, Clone, Copy, PartialEq, Eq, Structural)]
pub enum TypeTag {
    /// Integer (varint).
    Int,
    /// Float (8 bytes, little-endian IEEE-754).
    Float,
    /// Boolean (one byte, 0x00 or 0x01).
    Bool,
    /// String (length varint and UTF-8 bytes).
    String,
    /// Array of strings (count varint, then each string).
    StringArray,
    /// Nested record.
    NestedRecord,
    /// Array of nested records.
    NestedArray,
    /// Embedding vector.
    Embedding,
    /// Hybrid numeric array.
    HybridNumericArray,
    /// Quantized embedding.
    QuantizedEmbedding,
    /// Integer array.
    IntArray,
    /// Float array.
    FloatArray,
    /// Boolean array.
    BoolArray,
    /// Reserved.
    Reserved0E,
    /// Reserved.
    Reserved0F,
}

/// Wire byte of a type tag.
pub open spec fn tag_byte(t: TypeTag) -> u8 {
    match t {
        TypeTag::Int => 0x01,
        TypeTag::Float => 0x02,
        TypeTag::Bool => 0x03,
        TypeTag::String => 0x04,
        TypeTag::StringArray => 0x05,
        TypeTag::NestedRecord => 0x06,
        TypeTag::NestedArray => 0x07,
        TypeTag::Embedding => 0x08,
        TypeTag::HybridNumericArray => 0x09,
        TypeTag::QuantizedEmbedding => 0x0A,
        TypeTag::IntArray => 0x0B,
        TypeTag::FloatArray => 0x0C,
        TypeTag::BoolArray => 0x0D,
        TypeTag::Reserved0E => 0x0E,
        TypeTag::Reserved0F => 0x0F,
    }
}

/// Name of a type tag, as written in messages.
pub open spec fn type_tag_name(t: TypeTag) -> Seq<char> {
    match t {
        TypeTag::Int => "Int"@,
        TypeTag::Float => "Float"@,
        TypeTag::Bool => "Bool"@,
        TypeTag::String => "String"@,
        TypeTag::StringArray => "StringArray"@,
        TypeTag::NestedRecord => "NestedRecord"@,
        TypeTag::NestedArray => "NestedArray"@,
        TypeTag::Embedding => "Embedding"@,
        TypeTag::HybridNumericArray => "HybridNumericArray"@,
        TypeTag::QuantizedEmbedding => "QuantizedEmbedding"@,
        TypeTag::IntArray => "IntArray"@,
        TypeTag::FloatArray => "FloatArray"@,
        TypeTag::BoolArray => "BoolArray"@,
        TypeTag::Reserved0E => "Reserved0E"@,
        TypeTag::Reserved0F => "Reserved0F"@,
    }
}

impl TypeTag {
    /// The type tag with wire byte `byte`; bytes outside 0x01..=0x0F are refused.
    pub fn from_u8(byte: u8) -> (r: Result<TypeTag, BinaryError>)
        ensures
            0x01 <= byte <= 0x0F ==> (r matches Ok(t) && tag_byte(t) == byte),
            !(0x01 <= byte <= 0x0F) ==> (r matches Err(BinaryError::InvalidTypeTag { tag }) && tag
                == byte),
    {
        match byte {
            0x01 => Ok(TypeTag::Int),
            0x02 => Ok(TypeTag::Float),
            0x03 => Ok(TypeTag::Bool),
            0x04 => Ok(TypeTag::String),
            0x05 => Ok(TypeTag::StringArray),
            0x06 => Ok(TypeTag::NestedRecord),
            0x07 => Ok(TypeTag::NestedArray),
            0x08 => Ok(TypeTag::Embedding),
            0x09 => Ok(TypeTag::HybridNumericArray),
            0x0A => Ok(TypeTag::QuantizedEmbedding),
            0x0B => Ok(TypeTag::IntArray),
            0x0C => Ok(TypeTag::FloatArray),
            0x0D => Ok(TypeTag::BoolArray),
            0x0E => Ok(TypeTag::Reserved0E),
            0x0F => Ok(TypeTag::Reserved0F),
            _ => Err(BinaryError::InvalidTypeTag { tag: byte }),
        }
    }

    /// Name of the type tag.
    pub fn name(self) -> (s: &'static str)
        ensures
            s@ == type_tag_name(self),
    {
        match self {
            TypeTag::Int => "Int",
            TypeTag::Float => "Float",
            TypeTag::Bool => "Bool",
            TypeTag::String => "String",
            TypeTag::StringArray => "StringArray",
            TypeTag::NestedRecord => "NestedRecord",
            TypeTag::NestedArray => "NestedArray",
            TypeTag::Embedding => "Embedding",
            TypeTag::HybridNumericArray => "HybridNumericArray",
            TypeTag::QuantizedEmbedding => "QuantizedEmbedding",
            TypeTag::IntArray => "IntArray",
            TypeTag::FloatArray => "FloatArray",
            TypeTag::BoolArray => "BoolArray",
            TypeTag::Reserved0E => "Reserved0E",
            TypeTag::Reserved0F => "Reserved0F",
        }
    }

    /// Wire byte of this tag.
    pub fn to_u8(self) -> (b: u8)
        ensures
            b == tag_byte(self),
    {
        match self {
            TypeTag::Int => 0x01,
            TypeTag::Float => 0x02,
            TypeTag::Bool => 0x03,
            TypeTag::String => 0x04,
            TypeTag::StringArray => 0x05,
            TypeTag::NestedRecord => 0x06,
            TypeTag::NestedArray => 0x07,
            TypeTag::Embedding => 0x08,
            TypeTag::HybridNumericArray => 0x09,
            TypeTag::QuantizedEmbedding => 0x0A,
            TypeTag::IntArray => 0x0B,
            TypeTag::FloatArray => 0x0C,
            TypeTag::BoolArray => 0x0D,
            TypeTag::Reserved0E => 0x0E,
            TypeTag::Reserved0F => 0x0F,
        }
    }

    /// Whether this tag belongs to v0.5 or later (anything past the five v0.4 types).
    pub fn is_v0_5_type(&self) -> (r: bool)
        ensures
            r == (tag_byte(*self) >= 0x06),
    {
        match self {
            TypeTag::Int | TypeTag::Float | TypeTag::Bool | TypeTag::String
            | TypeTag::StringArray => false,
            _ => true,
        }
    }

    /// Whether this tag is reserved (0x0E or 0x0F).
    pub fn is_reserved(&self) -> (r: bool)
        ensures
            r == (tag_byte(*self) >= 0x0E),
    {
        match self {
            TypeTag::Reserved0E | TypeTag::Reserved0F => true,
            _ => false,
        }
    }
}

/// Decoding the wire byte of a tag gives the tag back, and distinct tags have
/// distinct bytes.
pub proof fn lemma_type_tag_roundtrip(t: TypeTag, u: TypeTag)
    ensures
        0x01 <= tag_byte(t) <= 0x0F,
        tag_byte(t) == tag_byte(u) ==> t == u,
{
}

/// Element type of a hybrid numeric array.
#[derive(Debug, Clone, Copy, PartialEq, Eq, Structural)]
pub enum NumericDType {
    /// 32-bit signed integer.
    I32,
    /// 64-bit signed integer.
    I64,
    /// 32-bit float.
    F32,
    /// 64-bit float.
    F64,
}

/// Flag bits of an element type.
pub open spec fn dtype_bits(d: NumericDType) -> u8 {
    match d {
        NumericDType::I32 => 0,
        NumericDType::I64 => 1,
        NumericDType::F32 => 2,
        NumericDType::F64 => 3,
    }
}

impl NumericDType {
    /// Size of one element in bytes.
    pub fn byte_size(&self) -> (n: usize)
        ensures
            n == (if dtype_bits(*self) % 2 == 0 { 4usize } else { 8usize }),
    {
        match self {
            NumericDType::I32 | NumericDType::F32 => 4,
            NumericDType::I64 | NumericDType::F64 => 8,
        }
    }

    /// Element type given by bits 0-1 of a flags byte.
    pub fn from_flags(flags: u8) -> (d: NumericDType)
        ensures
            dtype_bits(d) == flags % 4,
    {
        let low: u8 = flags & 0x03;
        assert(low == flags % 4) by (bit_vector)
            requires
                low == flags & 0x03,
        ;
        match low {
            0 => NumericDType::I32,
            1 => NumericDType::I64,
            2 => NumericDType::F32,
            _ => NumericDType::F64,
        }
    }

    /// Flag bits of this element type.
    pub fn to_flags(&self) -> (b: u8)
        ensures
            b == dtype_bits(*self),
    {
        match self {
            NumericDType::I32 => 0,
            NumericDType::I64 => 1,
            NumericDType::F32 => 2,
            NumericDType::F64 => 3,
        }
    }
}

/// Hybrid numeric array: dense or sparse elements of one numeric type.
#[derive(Debug, Clone, PartialEq)]
pub struct HybridArray {
    /// Element type.
    pub dtype: NumericDType,
    /// Whether the array is sparse.
    pub sparse: bool,
    /// Total dimension.
    pub dim: usize,
    /// Raw little-endian element data.
    pub data: Vec<u8>,
}

/// Little-endian bytes of a sequence of 32-bit integers, one after another.
pub open spec fn le32_concat(s: Seq<i32>) -> Seq<u8>
    decreases s.len(),
{
    if s.len() == 0 {
        Seq::empty()
    } else {
        le32_concat(s.drop_last()) + le32(s.last() as u32)
    }
}

/// Little-endian bytes of a sequence of 64-bit integers, one after another.
pub open spec fn le64_concat(s: Seq<i64>) -> Seq<u8>
    decreases s.len(),
{
    if s.len() == 0 {
        Seq::empty()
    } else {
        le64_concat(s.drop_last()) + le64(s.last() as u64)
    }
}

/// Little-endian bytes of 32-bit words, one after another.
pub open spec fn words32(s: Seq<u32>) -> Seq<u8>
    decreases s.len(),
{
    if s.len() == 0 {
        Seq::empty()
    } else {
        words32(s.drop_last()) + le32(s.last())
    }
}

/// Little-endian bytes of 64-bit words, one after another.
pub open spec fn words64(s: Seq<u64>) -> Seq<u8>
    decreases s.len(),
{
    if s.len() == 0 {
        Seq::empty()
    } else {
        words64(s.drop_last()) + le64(s.last())
    }
}

impl HybridArray {
    /// Dense array of 32-bit integers.
    pub fn from_i32_dense(values: &[i32]) -> (r: HybridArray)
        ensures
            r.dtype == NumericDType::I32,
            !r.sparse,
            r.dim == values@.len(),
            r.data@ == le32_concat(values@),
    {
        let mut data: Vec<u8> = Vec::new();
        let mut i: usize = 0;
        while i < values.len()
            invariant
                i <= values@.len(),
                data@ == le32_concat(values@.subrange(0, i as int)),
            decreases values@.len() - i,
        {
            proof {
                assert(values@.subrange(0, i + 1).drop_last() =~= values@.subrange(0, i as int));
            }
            super::wire::push_le32(&mut data, values[i] as u32);
            i += 1;
        }
        assert(values@.subrange(0, values@.len() as int) =~= values@);
        HybridArray { dtype: NumericDType::I32, sparse: false, dim: values.len(), data }
    }

    /// Dense array of 64-bit integers.
    pub fn from_i64_dense(values: &[i64]) -> (r: HybridArray)
        ensures
            r.dtype == NumericDType::I64,
            !r.sparse,
            r.dim == values@.len(),
            r.data@ == le64_concat(values@),
    {
        let mut data: Vec<u8> = Vec::new();
        let mut i: usize = 0;
        while i < values.len()
            invariant
                i <= values@.len(),
                data@ == le64_concat(values@.subrange(0, i as int)),
            decreases values@.len() - i,
        {
            proof {
                assert(values@.subrange(0, i + 1).drop_last() =~= values@.subrange(0, i as int));
            }
            super::wire::push_le64(&mut data, values[i] as u64);
            i += 1;
        }
        assert(values@.subrange(0, values@.len() as int) =~= values@);
        HybridArray { dtype: NumericDType::I64, sparse: false, dim: values.len(), data }
    }

    /// Dense array of 32-bit floats, each given by its IEEE-754 bit pattern.
    pub fn from_f32_dense(values: &[u32]) -> (r: HybridArray)
        ensures
            r.dtype == NumericDType::F32,
            !r.sparse,
            r.dim == values@.len(),
            r.data@ == words32(values@),
    {
        let mut data: Vec<u8> = Vec::new();
        let mut i: usize = 0;
        while i < values.len()
            invariant
                i <= values@.len(),
                data@ == words32(values@.subrange(0, i as int)),
            decreases values@.len() - i,
        {
            proof {
                assert(values@.subrange(0, i + 1).drop_last() =~= values@.subrange(0, i as int));
            }
            super::wire::push_le32(&mut data, values[i]);
            i += 1;
        }
        assert(values@.subrange(0, values@.len() as int) =~= values@);
        HybridArray { dtype: NumericDType::F32, sparse: false, dim: values.len(), data }
    }

    /// Dense array of 64-bit floats, each given by its IEEE-754 bit pattern.
    pub fn from_f64_dense(values: &[u64]) -> (r: HybridArray)
        ensures
            r.dtype == NumericDType::F64,
            !r.sparse,
            r.dim == values@.len(),
            r.data@ == words64(values@),
    {
        let mut data: Vec<u8> = Vec::new();
        let mut i: usize = 0;
        while i < values.len()
            invariant
                i <= values@.len(),
                data@ == words64(values@.subrange(0, i as int)),
            decreases values@.len() - i,
        {
            proof {
                assert(values@.subrange(0, i + 1).drop_last() =~= values@.subrange(0, i as int));
            }
            super::wire::push_le64(&mut data, values[i]);
            i += 1;
        }
        assert(values@.subrange(0, values@.len() as int) =~= values@);
        HybridArray { dtype: NumericDType::F64, sparse: false, dim: values.len(), data }
    }

    /// The elements of a dense 32-bit float array as bit patterns, read from
    /// each whole group of four data bytes (a shorter tail is ignored);
    /// `None` for another element type or a sparse array.
    pub fn as_f32_vec(&self) -> (r: Option<Vec<u32>>)
        ensures
            match r {
                None => self.dtype != NumericDType::F32 || self.sparse,
                Some(v) => self.dtype == NumericDType::F32 && !self.sparse && v@.len() == self.data@.len() / 4
                    && forall|i: int| 0 <= i < v@.len() ==> le32(#[trigger] v@[i]) == self.data@.subrange(4 * i, 4 * i + 4),
            },
    {
        if self.dtype != NumericDType::F32 || self.sparse {
            return None;
        }
        let n = self.data.len() / 4;
        let mut out: Vec<u32> = Vec::new();
        let mut i: usize = 0;
        while i < n
            invariant
                n == self.data@.len() / 4,
                i <= n,
                out@.len() == i,
                forall|j: int| 0 <= j < i ==> le32(#[trigger] out@[j]) == self.data@.subrange(4 * j, 4 * j + 4),
            decreases n - i,
        {
            let len = self.data.len();
            assert(4 * i + 4 <= len) by (nonlinear_arith)
                requires
                    i < n,
                    n == len / 4,
            ;
            let x = super::wire::read_le32(self.data.as_slice(), 4 * i);
            out.push(x);
            i += 1;
        }
        Some(out)
    }

    /// The elements of a dense 64-bit float array as bit patterns, read from
    /// each whole group of eight data bytes (a shorter tail is ignored);
    /// `None` for another element type or a sparse array.
    pub fn as_f64_vec(&self) -> (r: Option<Vec<u64>>)
        ensures
            match r {
                None => self.dtype != NumericDType::F64 || self.sparse,
                Some(v) => self.dtype == NumericDType::F64 && !self.sparse && v@.len() == self.data@.len() / 8
                    && forall|i: int| 0 <= i < v@.len() ==> le64(#[trigger] v@[i]) == self.data@.subrange(8 * i, 8 * i + 8),
            },
    {
        if self.dtype != NumericDType::F64 || self.sparse {
            return None;
        }
        let n = self.data.len() / 8;
        let mut out: Vec<u64> = Vec::new();
        let mut i: usize = 0;
        while i < n
            invariant
                n == self.data@.len() / 8,
                i <= n,
                out@.len() == i,
                forall|j: int| 0 <= j < i ==> le64(#[trigger] out@[j]) == self.data@.subrange(8 * j, 8 * j + 8),
            decreases n - i,
        {
            let len = self.data.len();
            assert(8 * i + 8 <= len) by (nonlinear_arith)
                requires
                    i < n,
                    n == len / 8,
            ;
            let x = super::wire::read_le64(self.data.as_slice(), 8 * i);
            out.push(x);
            i += 1;
        }
        Some(out)
    }

    /// Flags byte: element type in bits 0-1, sparse flag in bit 2.
    pub fn flags(&self) -> (b: u8)
        ensures
            b == dtype_bits(self.dtype) + (if self.sparse { 4u8 } else { 0u8 }),
    {
        let f = self.dtype.to_flags();
        if self.sparse {
            f + 4
        } else {
            f
        }
    }
}

/// A value in binary form.
#[derive(Debug, Clone, PartialEq)]
pub enum BinaryValue {
    /// Integer.
    Int(i64),
    /// Float, as its IEEE-754 bit pattern.
    Float(u64),
    /// Boolean.
    Bool(bool),
    /// String.
    String(String),
    /// Array of strings.
    StringArray(Vec<String>),
    /// Nested record.
    NestedRecord(Box<LnmpRecord>),
    /// Array of nested records.
    NestedArray(Vec<LnmpRecord>),
}

/// Model of a binary value: that of the record value it stands for.
pub open spec fn binary_value_model(v: BinaryValue) -> ValueModel {
    match v {
        BinaryValue::Int(i) => ValueModel::Int(i),
        BinaryValue::Float(f) => ValueModel::Float(f),
        BinaryValue::Bool(b) => ValueModel::Bool(b),
        BinaryValue::String(s) => ValueModel::Str(s@),
        BinaryValue::StringArray(a) => ValueModel::StrArray(crate::record::strings_model(a@)),
        BinaryValue::NestedRecord(r) => ValueModel::Record(r@),
        BinaryValue::NestedArray(rs) => ValueModel::RecordArray(crate::record::records_model(rs@)),
    }
}

impl View for BinaryValue {
    type V = ValueModel;

    open spec fn view(&self) -> ValueModel {
        binary_value_model(*self)
    }
}

/// Type tag of a value model.
pub open spec fn model_tag(v: ValueModel) -> TypeTag {
    match v {
        ValueModel::Int(_) => TypeTag::Int,
        ValueModel::Float(_) => TypeTag::Float,
        ValueModel::Bool(_) => TypeTag::Bool,
        ValueModel::Str(_) => TypeTag::String,
        ValueModel::StrArray(_) => TypeTag::StringArray,
        ValueModel::Record(_) => TypeTag::NestedRecord,
        ValueModel::RecordArray(_) => TypeTag::NestedArray,
    }
}

/// Whether a value model is one of the five v0.4 kinds (no nesting).
pub open spec fn is_flat(v: ValueModel) -> bool {
    !(v is Record || v is RecordArray)
}

impl BinaryValue {
    /// Binary form of a record value.
    pub fn from_lnmp_value(value: &LnmpValue) -> (r: Result<BinaryValue, BinaryError>)
        ensures
            r matches Ok(b) && b@ == value@,
    {
        match value {
            LnmpValue::Int(i) => Ok(BinaryValue::Int(*i)),
            LnmpValue::Float(f) => Ok(BinaryValue::Float(*f)),
            LnmpValue::Bool(b) => Ok(BinaryValue::Bool(*b)),
            LnmpValue::String(s) => Ok(BinaryValue::String(copy_string(s))),
            LnmpValue::StringArray(a) => Ok(BinaryValue::StringArray(copy_strings(a))),
            LnmpValue::NestedRecord(rec) => {
                let c = rec.copy();
                Ok(BinaryValue::NestedRecord(Box::new(c)))
            },
            LnmpValue::NestedArray(rs) => Ok(BinaryValue::NestedArray(copy_records(rs))),
        }
    }

    /// Binary form of a record value for the v0.4 format, which has no nested
    /// structures.
    pub fn from_lnmp_value_v0_4(value: &LnmpValue) -> (r: Result<BinaryValue, BinaryError>)
        ensures
            is_flat(value@) ==> (r matches Ok(b) && b@ == value@),
            value@ is Record ==> (r matches Err(BinaryError::InvalidValue { field_id, type_tag, reason })
                && field_id == 0 && type_tag == 0x06
                && reason@ == "Nested records not supported in v0.4 binary format"@),
            value@ is RecordArray ==> (r matches Err(BinaryError::InvalidValue { field_id, type_tag, reason })
                && field_id == 0 && type_tag == 0x07
                && reason@ == "Nested arrays not supported in v0.4 binary format"@),
    {
        match value {
            LnmpValue::NestedRecord(_) => Err(
                BinaryError::InvalidValue {
                    field_id: 0,
                    type_tag: 0x06,
                    reason: String::from_str("Nested records not supported in v0.4 binary format"),
                },
            ),
            LnmpValue::NestedArray(_) => Err(
                BinaryError::InvalidValue {
                    field_id: 0,
                    type_tag: 0x07,
                    reason: String::from_str("Nested arrays not supported in v0.4 binary format"),
                },
            ),
            _ => BinaryValue::from_lnmp_value(value),
        }
    }

    /// The record value this binary value stands for.
    pub fn to_lnmp_value(&self) -> (r: LnmpValue)
        ensures
            r@ == self@,
    {
        match self {
            BinaryValue::Int(i) => LnmpValue::Int(*i),
            BinaryValue::Float(f) => LnmpValue::Float(*f),
            BinaryValue::Bool(b) => LnmpValue::Bool(*b),
            BinaryValue::String(s) => LnmpValue::String(copy_string(s)),
            BinaryValue::StringArray(a) => LnmpValue::StringArray(copy_strings(a)),
            BinaryValue::NestedRecord(rec) => {
                let c = rec.copy();
                LnmpValue::NestedRecord(Box::new(c))
            },
            BinaryValue::NestedArray(rs) => LnmpValue::NestedArray(copy_records(rs)),
        }
    }

    /// Type tag of this value.
    pub fn type_tag(&self) -> (t: TypeTag)
        ensures
            t == model_tag(self@),
    {
        match self {
            BinaryValue::Int(_) => TypeTag::Int,
            BinaryValue::Float(_) => TypeTag::Float,
            BinaryValue::Bool(_) => TypeTag::Bool,
            BinaryValue::String(_) => TypeTag::String,
            BinaryValue::StringArray(_) => TypeTag::StringArray,
            BinaryValue::NestedRecord(_) => TypeTag::NestedRecord,
            BinaryValue::NestedArray(_) => TypeTag::NestedArray,
        }
    }
}

} // verus!

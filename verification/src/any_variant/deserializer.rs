//! The type-directed decoder: reading a value of the variant format as the
//! generic model asks for it.

use crate::any_variant::serializer::{any_dictionary, any_maybe, unit_ty, verdict};
use crate::datum::{Data, Datum};
use crate::error::{Error, Failure};
use crate::variant::{children, text_of, type_of, FromVariant, Value, Variant};
use crate::variant_ty::{subtype, BasicTy, Ty, VariantTy};
use vstd::prelude::*;

verus! {

/// The value inside every box around `v`: a boxed value is read as what it
/// holds.
pub open spec fn unboxed(v: Value) -> Value
    decreases v,
{
    match v {
        Value::Boxed(inner) => unboxed(*inner),
        _ => v,
    }
}

/// Whether a value can be read as `wanted`: its type is a subtype, or it is a
/// box around such a value, or it is an empty array where the unit is wanted.
pub open spec fn of_type(v: Value, wanted: Ty) -> Result<(), Failure>
    decreases v,
{
    if subtype(type_of(v), wanted) {
        Ok(())
    } else {
        match v {
            Value::Boxed(inner) => of_type(*inner, wanted),
            Value::Array(_, items) => if wanted == unit_ty() && items.len() == 0 {
                Ok(())
            } else {
                Err(Failure::Mismatch { actual: type_of(v), expected: wanted })
            },
            _ => Err(Failure::Mismatch { actual: type_of(v), expected: wanted }),
        }
    }
}

/// What a value of one fixed type holds, through any box around it.
pub open spec fn get_as<T: FromVariant>(v: Value) -> Result<T, Failure>
    decreases v,
{
    match T::extract(v) {
        Some(x) => Ok(x),
        None => match v {
            Value::Boxed(inner) => get_as::<T>(*inner),
            _ => Err(Failure::Mismatch { actual: type_of(v), expected: T::static_type() }),
        },
    }
}

/// The number that a boolean or an integer of any width holds.
pub open spec fn read_num(v: Value, wanted: Ty) -> Result<int, Failure> {
    match unboxed(v) {
        Value::Boolean(b) => Ok(
            if b {
                1int
            } else {
                0int
            },
        ),
        Value::Byte(n) => Ok(n as int),
        Value::Uint16(n) => Ok(n as int),
        Value::Uint32(n) => Ok(n as int),
        Value::Uint64(n) => Ok(n as int),
        Value::Int16(n) => Ok(n as int),
        Value::Int32(n) => Ok(n as int),
        Value::Int64(n) => Ok(n as int),
        other => Err(Failure::Mismatch { actual: type_of(other), expected: wanted }),
    }
}

/// The number that a value holds, where it lies between `lo` and `hi`.
pub open spec fn read_int(v: Value, wanted: Ty, lo: int, hi: int) -> Result<int, Failure> {
    match read_num(v, wanted) {
        Err(e) => Err(e),
        Ok(n) => if lo <= n <= hi {
            Ok(n)
        } else {
            Err(Failure::OutOfRange)
        },
    }
}

pub open spec fn read_bool(v: Value) -> Result<bool, Failure> {
    match unboxed(v) {
        Value::Boolean(b) => Ok(b),
        other => Err(
            Failure::Mismatch { actual: type_of(other), expected: Ty::Basic(BasicTy::Boolean) },
        ),
    }
}

/// The bits of the double that a value holds.
pub open spec fn read_f64(v: Value) -> Result<u64, Failure> {
    match unboxed(v) {
        Value::Double(bits) => Ok(bits),
        other => Err(
            Failure::Mismatch { actual: type_of(other), expected: Ty::Basic(BasicTy::Double) },
        ),
    }
}

/// The text of a string, an object path or a signature.
pub open spec fn read_str(v: Value) -> Result<Seq<char>, Failure> {
    match text_of(unboxed(v)) {
        Some(s) => Ok(s),
        None => Err(Failure::StrMismatch(type_of(unboxed(v)))),
    }
}

/// The first character of a text.
pub open spec fn read_char(v: Value) -> Result<char, Failure> {
    match read_str(v) {
        Err(e) => Err(e),
        Ok(s) => if s.len() > 0 {
            Ok(s[0])
        } else {
            Err(Failure::ExpectedChar(s))
        },
    }
}

/// The byte that a value holds.
pub open spec fn byte_of(v: Value) -> u8 {
    match v {
        Value::Byte(b) => b,
        _ => 0,
    }
}

/// The bytes that a list of values holds.
pub open spec fn bytes_of(items: Seq<Value>) -> Seq<u8> {
    Seq::new(items.len(), |i: int| byte_of(items[i]))
}

/// The bytes of a byte string.
pub open spec fn read_bytes(v: Value) -> Result<Seq<u8>, Failure> {
    match unboxed(v) {
        Value::Array(Ty::Basic(BasicTy::Byte), items) => Ok(bytes_of(items)),
        other => Err(
            Failure::Mismatch {
                actual: type_of(other),
                expected: crate::any_variant::serializer::byte_string(),
            },
        ),
    }
}

/// The child of an optional value, if it is present.
pub open spec fn read_option(v: Value) -> Result<Option<Value>, Failure> {
    match unboxed(v) {
        Value::Just(inner) => Ok(Some(*inner)),
        Value::Nothing(_) => Ok(None),
        other => Err(Failure::Mismatch { actual: type_of(other), expected: any_maybe() }),
    }
}

/// The unit: the empty tuple, or an empty array.
pub open spec fn read_unit(v: Value) -> Result<(), Failure> {
    match unboxed(v) {
        Value::Tuple(items) => if items.len() == 0 {
            Ok(())
        } else {
            Err(Failure::Mismatch { actual: type_of(unboxed(v)), expected: unit_ty() })
        },
        Value::Array(_, items) => if items.len() == 0 {
            Ok(())
        } else {
            Err(Failure::Mismatch { actual: type_of(unboxed(v)), expected: unit_ty() })
        },
        other => Err(Failure::Mismatch { actual: type_of(other), expected: unit_ty() }),
    }
}

/// The members of an array or a tuple, of whatever arity.
pub open spec fn read_seq(v: Value) -> Result<Seq<Value>, Failure> {
    match unboxed(v) {
        Value::Array(_, items) => Ok(items),
        Value::Tuple(items) => Ok(items),
        other => Err(Failure::UnsupportedType(type_of(other))),
    }
}

/// The members of a tuple of exactly `len` members.
pub open spec fn read_tuple(v: Value, len: nat) -> Result<Seq<Value>, Failure> {
    match unboxed(v) {
        Value::Tuple(items) => if items.len() == len {
            Ok(items)
        } else {
            Err(Failure::LengthMismatch { actual: items.len(), expected: len })
        },
        other => Err(Failure::Mismatch { actual: type_of(other), expected: Ty::AnyTuple }),
    }
}

/// The entries of a dictionary, in source order.
pub open spec fn read_map(v: Value) -> Result<Seq<Value>, Failure> {
    match unboxed(v) {
        Value::Array(Ty::DictEntry(_, _), items) => Ok(items),
        other => Err(Failure::Mismatch { actual: type_of(other), expected: any_dictionary() }),
    }
}

/// Mathematical model of a [`Visit`].
pub enum Visited {
    Bool(bool),
    U8(u8),
    I16(i16),
    U16(u16),
    I32(i32),
    U32(u32),
    I64(i64),
    U64(u64),
    F64(u64),
    Str(Seq<char>),
    Bytes(Seq<u8>),
    Absent,
    Present(Value),
    Unit,
    Sequence(Seq<Value>),
    Mapping(Seq<Value>),
}

/// A named aggregate: the entries of a dictionary where the value is one, else
/// the members of a tuple of `fields` members.
pub open spec fn read_struct(v: Value, fields: nat) -> Result<Visited, Failure> {
    match read_map(v) {
        Ok(entries) => Ok(Visited::Mapping(entries)),
        Err(_) => match read_tuple(v, fields) {
            Ok(items) => Ok(Visited::Sequence(items)),
            Err(e) => Err(e),
        },
    }
}

/// An identifier: an integer or a string.
pub open spec fn read_identifier(v: Value) -> Result<Visited, Failure> {
    match unboxed(v) {
        Value::Byte(n) => Ok(Visited::U8(n)),
        Value::Int16(n) => Ok(Visited::I16(n)),
        Value::Uint16(n) => Ok(Visited::U16(n)),
        Value::Int32(n) => Ok(Visited::I32(n)),
        Value::Uint32(n) => Ok(Visited::U32(n)),
        Value::Int64(n) => Ok(Visited::I64(n)),
        Value::Uint64(n) => Ok(Visited::U64(n)),
        Value::Str(s) => Ok(Visited::Str(s)),
        other => Err(Failure::UnsupportedType(type_of(other))),
    }
}

/// What a value presents of itself where nothing in particular is asked of
/// it; a boxed value presents what its payload does.
pub open spec fn visit(v: Value) -> Result<Visited, Failure>
    decreases v,
{
    match v {
        Value::Boolean(b) => Ok(Visited::Bool(b)),
        Value::Byte(n) => Ok(Visited::U8(n)),
        Value::Int16(n) => Ok(Visited::I16(n)),
        Value::Uint16(n) => Ok(Visited::U16(n)),
        Value::Int32(n) => Ok(Visited::I32(n)),
        Value::Uint32(n) => Ok(Visited::U32(n)),
        Value::Int64(n) => Ok(Visited::I64(n)),
        Value::Uint64(n) => Ok(Visited::U64(n)),
        Value::Handle(_) => Err(Failure::UnsupportedType(Ty::Basic(BasicTy::Handle))),
        Value::Double(bits) => Ok(Visited::F64(bits)),
        Value::Str(s) => Ok(Visited::Str(s)),
        Value::ObjectPath(s) => Ok(Visited::Str(s)),
        Value::Signature(s) => Ok(Visited::Str(s)),
        Value::Boxed(inner) => visit(*inner),
        Value::Nothing(_) => Ok(Visited::Absent),
        Value::Just(inner) => Ok(Visited::Present(*inner)),
        Value::Array(t, items) => match t {
            Ty::Basic(BasicTy::Byte) => Ok(Visited::Bytes(bytes_of(items))),
            Ty::DictEntry(_, _) => Ok(Visited::Mapping(items)),
            _ => Ok(Visited::Sequence(items)),
        },
        Value::Tuple(items) => if items.len() > 0 {
            Ok(Visited::Sequence(items))
        } else {
            Ok(Visited::Unit)
        },
        Value::DictEntry(_, _) => Err(Failure::Mismatch { actual: type_of(v), expected: Ty::AnyTuple }),
    }
}

/// Mathematical model of a [`Deserializer`].
pub struct Source {
    pub value: Value,
    pub human: bool,
}

/// The decoder of one value, with the human-readable flag of the surrounding
/// transport.
pub struct Deserializer<'a> {
    pub variant: &'a Variant,
    pub humanize: bool,
}

impl<'a> View for Deserializer<'a> {
    type V = Source;

    open spec fn view(&self) -> Source {
        Source { value: self.variant@, human: self.humanize }
    }
}

/// What a value presents of itself: a scalar, or the decoders of what it holds.
pub enum Visit<'a> {
    Bool(bool),
    U8(u8),
    I16(i16),
    U16(u16),
    I32(i32),
    U32(u32),
    I64(i64),
    U64(u64),
    /// A double, by the bits of its IEEE 754 form.
    F64(u64),
    Str(&'a str),
    Bytes(Vec<u8>),
    Absent,
    Present(Deserializer<'a>),
    Unit,
    Sequence(ContainerDeserializer<'a>),
    Mapping(ContainerDeserializer<'a>),
}

impl<'a> View for Visit<'a> {
    type V = Visited;

    open spec fn view(&self) -> Visited {
        match self {
            Visit::Bool(b) => Visited::Bool(*b),
            Visit::U8(n) => Visited::U8(*n),
            Visit::I16(n) => Visited::I16(*n),
            Visit::U16(n) => Visited::U16(*n),
            Visit::I32(n) => Visited::I32(*n),
            Visit::U32(n) => Visited::U32(*n),
            Visit::I64(n) => Visited::I64(*n),
            Visit::U64(n) => Visited::U64(*n),
            Visit::F64(bits) => Visited::F64(*bits),
            Visit::Str(s) => Visited::Str(s@),
            Visit::Bytes(b) => Visited::Bytes(b@),
            Visit::Absent => Visited::Absent,
            Visit::Present(d) => Visited::Present(d@.value),
            Visit::Unit => Visited::Unit,
            Visit::Sequence(c) => Visited::Sequence(c@),
            Visit::Mapping(c) => Visited::Mapping(c@),
        }
    }
}

/// The value inside every box around `v`.
fn strip<'a>(v: &'a Variant) -> (r: &'a Variant)
    ensures
        r@ == unboxed(v@),
    decreases v,
{
    match v {
        Variant::Boxed(inner) => strip(inner),
        _ => v,
    }
}

/// The bytes of the members of a byte string.
fn collect_bytes(items: &Vec<Variant>) -> (r: Vec<u8>)
    ensures
        r@ == bytes_of(crate::variant::values(items@)),
{
    let mut out: Vec<u8> = Vec::new();
    let mut i: usize = 0;
    while i < items.len()
        invariant
            i <= items.len(),
            out.len() == i,
            forall|j: int| 0 <= j < i ==> out[j] == byte_of(#[trigger] items[j]@),
        decreases items.len() - i,
    {
        let b = match &items[i] {
            Variant::Byte(b) => *b,
            _ => 0,
        };
        out.push(b);
        i += 1;
    }
    assert(out@ =~= bytes_of(crate::variant::values(items@)));
    out
}

impl<'a> Deserializer<'a> {
    /// The decoder of `variant`, in human-readable mode.
    pub fn new(variant: &'a Variant) -> (r: Self)
        ensures
            r@ == (Source { value: variant@, human: true }),
    {
        Self { variant, humanize: true }
    }

    /// The same decoder for a transport that is not human-readable.
    pub fn inhuman(self) -> (r: Self)
        ensures
            r@ == (Source { value: self@.value, human: false }),
    {
        Self { variant: self.variant, humanize: false }
    }

    /// The decoder of `variant` with the same flag.
    pub fn change_variant(&self, variant: &'a Variant) -> (r: Self)
        ensures
            r@ == (Source { value: variant@, human: self@.human }),
    {
        Self { variant, humanize: self.humanize }
    }

    pub fn is_human_readable(&self) -> (b: bool)
        ensures
            b == self@.human,
    {
        self.humanize
    }

    /// Whether the value can be read as `wanted`.
    pub fn is_of_type(&self, wanted: &VariantTy) -> (r: Result<(), Error>)
        ensures
            verdict(r) == of_type(self@.value, wanted@),
    {
        check_of_type(self.variant, wanted)
    }

    /// The number that a boolean or an integer of any width holds; `wanted`
    /// is named in the failure where the value is neither.
    pub fn try_get_num(&self, wanted: &VariantTy) -> (r: Result<i128, Error>)
        ensures
            match read_num(self@.value, wanted@) {
                Ok(n) => r == Ok::<i128, Error>(n as i128) && i64::MIN <= n <= u64::MAX,
                Err(e) => r matches Err(x) && x@ == e,
            },
    {
        match strip(self.variant) {
            Variant::Boolean(b) => Ok(
                if *b {
                    1
                } else {
                    0
                },
            ),
            Variant::Byte(n) => Ok(*n as i128),
            Variant::Uint16(n) => Ok(*n as i128),
            Variant::Uint32(n) => Ok(*n as i128),
            Variant::Uint64(n) => Ok(*n as i128),
            Variant::Int16(n) => Ok(*n as i128),
            Variant::Int32(n) => Ok(*n as i128),
            Variant::Int64(n) => Ok(*n as i128),
            other => Err(Error::Mismatch { actual: other.type_(), expected: wanted.clone() }),
        }
    }

    /// The number that the value holds, where it lies between `lo` and `hi`.
    fn try_get_int(&self, wanted: VariantTy, lo: i128, hi: i128) -> (r: Result<i128, Error>)
        ensures
            match read_int(self@.value, wanted@, lo as int, hi as int) {
                Ok(n) => r == Ok::<i128, Error>(n as i128) && lo <= n <= hi,
                Err(e) => r matches Err(x) && x@ == e,
            },
    {
        match self.try_get_num(&wanted) {
            Err(e) => Err(e),
            Ok(n) => if lo <= n && n <= hi {
                Ok(n)
            } else {
                Err(Error::OutOfRange)
            },
        }
    }

    /// What the value holds as a `T`, through any box around it.
    pub fn try_get<T: FromVariant>(&self) -> (r: Result<T, Error>)
        ensures
            match get_as::<T>(self@.value) {
                Ok(x) => r == Ok::<T, Error>(x),
                Err(e) => r matches Err(y) && y@ == e,
            },
    {
        get_through::<T>(self.variant)
    }

    /// The type of the value inside every box.
    pub fn type_(&self) -> (r: VariantTy)
        ensures
            r@ == type_of(unboxed(self@.value)),
    {
        strip(self.variant).type_()
    }

    /// The text of a string, an object path or a signature.
    pub fn str(&self) -> (r: Result<&'a str, Error>)
        ensures
            match read_str(self@.value) {
                Ok(s) => r matches Ok(x) && x@ == s,
                Err(e) => r matches Err(x) && x@ == e,
            },
    {
        let inner = strip(self.variant);
        match inner.str() {
            Some(s) => Ok(s),
            None => Err(Error::StrMismatch(inner.type_())),
        }
    }

    /// The decoder of the children of the value inside every box.
    pub fn container(self) -> (r: ContainerDeserializer<'a>)
        ensures
            r@ == children(unboxed(self@.value)),
            r.de@.human == self@.human,
    {
        let de = self.change_variant(strip(self.variant));
        ContainerDeserializer::new(de)
    }

    /// What the value presents of itself where nothing in particular is asked
    /// of it.
    pub fn deserialize_any(self) -> (r: Result<Visit<'a>, Error>)
        ensures
            match visit(self@.value) {
                Ok(x) => r matches Ok(y) && y@ == x,
                Err(e) => r matches Err(x) && x@ == e,
            },
    {
        visit_value(self.variant, self.humanize)
    }

    pub fn deserialize_bool(&self) -> (r: Result<bool, Error>)
        ensures
            match read_bool(self@.value) {
                Ok(b) => r == Ok::<bool, Error>(b),
                Err(e) => r matches Err(x) && x@ == e,
            },
    {
        match strip(self.variant) {
            Variant::Boolean(b) => Ok(*b),
            other => Err(
                Error::Mismatch {
                    actual: other.type_(),
                    expected: VariantTy::Basic(BasicTy::Boolean),
                },
            ),
        }
    }

    /// Reads a signed byte from a boolean or an integer of any width that
    /// holds one.
    pub fn deserialize_i8(&self) -> (r: Result<i8, Error>)
        ensures
            match read_int(self@.value, Ty::Basic(BasicTy::Int16), i8::MIN as int, i8::MAX as int) {
                Ok(n) => r == Ok::<i8, Error>(n as i8),
                Err(e) => r matches Err(x) && x@ == e,
            },
    {
        match self.try_get_int(VariantTy::Basic(BasicTy::Int16), -128, 127) {
            Ok(n) => Ok(n as i8),
            Err(e) => Err(e),
        }
    }

    pub fn deserialize_i16(&self) -> (r: Result<i16, Error>)
        ensures
            match read_int(
                self@.value,
                Ty::Basic(BasicTy::Int16),
                i16::MIN as int,
                i16::MAX as int,
            ) {
                Ok(n) => r == Ok::<i16, Error>(n as i16),
                Err(e) => r matches Err(x) && x@ == e,
            },
    {
        match self.try_get_int(VariantTy::Basic(BasicTy::Int16), -32768, 32767) {
            Ok(n) => Ok(n as i16),
            Err(e) => Err(e),
        }
    }

    pub fn deserialize_i32(&self) -> (r: Result<i32, Error>)
        ensures
            match read_int(
                self@.value,
                Ty::Basic(BasicTy::Int32),
                i32::MIN as int,
                i32::MAX as int,
            ) {
                Ok(n) => r == Ok::<i32, Error>(n as i32),
                Err(e) => r matches Err(x) && x@ == e,
            },
    {
        match self.try_get_int(VariantTy::Basic(BasicTy::Int32), -2147483648, 2147483647) {
            Ok(n) => Ok(n as i32),
            Err(e) => Err(e),
        }
    }

    pub fn deserialize_i64(&self) -> (r: Result<i64, Error>)
        ensures
            match read_int(
                self@.value,
                Ty::Basic(BasicTy::Int64),
                i64::MIN as int,
                i64::MAX as int,
            ) {
                Ok(n) => r == Ok::<i64, Error>(n as i64),
                Err(e) => r matches Err(x) && x@ == e,
            },
    {
        match self.try_get_int(
            VariantTy::Basic(BasicTy::Int64),
            -9223372036854775808,
            9223372036854775807,
        ) {
            Ok(n) => Ok(n as i64),
            Err(e) => Err(e),
        }
    }

    pub fn deserialize_u8(&self) -> (r: Result<u8, Error>)
        ensures
            match read_int(self@.value, Ty::Basic(BasicTy::Byte), 0, u8::MAX as int) {
                Ok(n) => r == Ok::<u8, Error>(n as u8),
                Err(e) => r matches Err(x) && x@ == e,
            },
    {
        match self.try_get_int(VariantTy::Basic(BasicTy::Byte), 0, 255) {
            Ok(n) => Ok(n as u8),
            Err(e) => Err(e),
        }
    }

    pub fn deserialize_u16(&self) -> (r: Result<u16, Error>)
        ensures
            match read_int(self@.value, Ty::Basic(BasicTy::Uint16), 0, u16::MAX as int) {
                Ok(n) => r == Ok::<u16, Error>(n as u16),
                Err(e) => r matches Err(x) && x@ == e,
            },
    {
        match self.try_get_int(VariantTy::Basic(BasicTy::Uint16), 0, 65535) {
            Ok(n) => Ok(n as u16),
            Err(e) => Err(e),
        }
    }

    pub fn deserialize_u32(&self) -> (r: Result<u32, Error>)
        ensures
            match read_int(self@.value, Ty::Basic(BasicTy::Uint32), 0, u32::MAX as int) {
                Ok(n) => r == Ok::<u32, Error>(n as u32),
                Err(e) => r matches Err(x) && x@ == e,
            },
    {
        match self.try_get_int(VariantTy::Basic(BasicTy::Uint32), 0, 4294967295) {
            Ok(n) => Ok(n as u32),
            Err(e) => Err(e),
        }
    }

    pub fn deserialize_u64(&self) -> (r: Result<u64, Error>)
        ensures
            match read_int(self@.value, Ty::Basic(BasicTy::Uint64), 0, u64::MAX as int) {
                Ok(n) => r == Ok::<u64, Error>(n as u64),
                Err(e) => r matches Err(x) && x@ == e,
            },
    {
        match self.try_get_int(VariantTy::Basic(BasicTy::Uint64), 0, 18446744073709551615) {
            Ok(n) => Ok(n as u64),
            Err(e) => Err(e),
        }
    }

    /// Reads the bits of a double.
    pub fn deserialize_f64(&self) -> (r: Result<u64, Error>)
        ensures
            match read_f64(self@.value) {
                Ok(bits) => r == Ok::<u64, Error>(bits),
                Err(e) => r matches Err(x) && x@ == e,
            },
    {
        match strip(self.variant) {
            Variant::Double(bits) => Ok(*bits),
            other => Err(
                Error::Mismatch {
                    actual: other.type_(),
                    expected: VariantTy::Basic(BasicTy::Double),
                },
            ),
        }
    }

    /// Reads the first character of a text.
    pub fn deserialize_char(&self) -> (r: Result<char, Error>)
        ensures
            match read_char(self@.value) {
                Ok(c) => r == Ok::<char, Error>(c),
                Err(e) => r matches Err(x) && x@ == e,
            },
    {
        match self.str() {
            Err(e) => Err(e),
            Ok(s) => {
                if s.unicode_len() > 0 {
                    Ok(s.get_char(0))
                } else {
                    Err(Error::ExpectedChar(String::from_str(s)))
                }
            },
        }
    }

    pub fn deserialize_str(&self) -> (r: Result<&'a str, Error>)
        ensures
            match read_str(self@.value) {
                Ok(s) => r matches Ok(x) && x@ == s,
                Err(e) => r matches Err(x) && x@ == e,
            },
    {
        self.str()
    }

    pub fn deserialize_string(&self) -> (r: Result<String, Error>)
        ensures
            match read_str(self@.value) {
                Ok(s) => r matches Ok(x) && x@ == s,
                Err(e) => r matches Err(x) && x@ == e,
            },
    {
        match self.str() {
            Ok(s) => Ok(String::from_str(s)),
            Err(e) => Err(e),
        }
    }

    /// Reads the bytes of a byte string.
    pub fn deserialize_bytes(&self) -> (r: Result<Vec<u8>, Error>)
        ensures
            match read_bytes(self@.value) {
                Ok(b) => r matches Ok(x) && x@ == b,
                Err(e) => r matches Err(x) && x@ == e,
            },
    {
        let inner = strip(self.variant);
        proof {
            crate::variant::lemma_variant_members(*inner);
        }
        match inner {
            Variant::Array(VariantTy::Basic(BasicTy::Byte), items) => Ok(collect_bytes(items)),
            other => Err(
                Error::Mismatch { actual: other.type_(), expected: VariantTy::byte_string() },
            ),
        }
    }

    /// Reads the bytes of a byte string.
    pub fn deserialize_byte_buf(&self) -> (r: Result<Vec<u8>, Error>)
        ensures
            match read_bytes(self@.value) {
                Ok(b) => r matches Ok(x) && x@ == b,
                Err(e) => r matches Err(x) && x@ == e,
            },
    {
        self.deserialize_bytes()
    }

    /// Reads an optional value: the decoder of its child where it is present.
    pub fn deserialize_option(&self) -> (r: Result<Option<Deserializer<'a>>, Error>)
        ensures
            match read_option(self@.value) {
                Ok(Some(c)) => r matches Ok(Some(d)) && d@ == (Source {
                    value: c,
                    human: self@.human,
                }),
                Ok(None) => r matches Ok(None),
                Err(e) => r matches Err(x) && x@ == e,
            },
    {
        match strip(self.variant) {
            Variant::Just(child) => Ok(Some(self.change_variant(child))),
            Variant::Nothing(_) => Ok(None),
            other => Err(Error::Mismatch { actual: other.type_(), expected: VariantTy::maybe() }),
        }
    }

    /// Reads the unit: the empty tuple, or an empty array.
    pub fn deserialize_unit(&self) -> (r: Result<(), Error>)
        ensures
            verdict(r) == read_unit(self@.value),
    {
        let inner = strip(self.variant);
        let empty = match inner {
            Variant::Tuple(items) => items.len() == 0,
            Variant::Array(_, items) => items.len() == 0,
            _ => false,
        };
        if empty {
            Ok(())
        } else {
            Err(Error::Mismatch { actual: inner.type_(), expected: VariantTy::unit() })
        }
    }

    pub fn deserialize_unit_struct(&self, name: &str) -> (r: Result<(), Error>)
        ensures
            verdict(r) == read_unit(self@.value),
    {
        self.deserialize_unit()
    }

    /// A named wrapper is read as what it wraps.
    pub fn deserialize_newtype_struct(self, name: &str) -> (r: Self)
        ensures
            r@ == self@,
    {
        self
    }

    /// Reads an array or a tuple of whatever arity.
    pub fn deserialize_seq(self) -> (r: Result<ContainerDeserializer<'a>, Error>)
        ensures
            match read_seq(self@.value) {
                Ok(items) => r matches Ok(c) && c@ == items && c.de@.human == self@.human,
                Err(e) => r matches Err(x) && x@ == e,
            },
    {
        let inner = strip(self.variant);
        match inner {
            Variant::Array(_, _) => Ok(self.container()),
            Variant::Tuple(_) => Ok(self.container()),
            other => Err(Error::UnsupportedType(other.type_())),
        }
    }

    /// Reads a tuple of exactly `len` members.
    pub fn deserialize_tuple(self, len: usize) -> (r: Result<ContainerDeserializer<'a>, Error>)
        ensures
            match read_tuple(self@.value, len as nat) {
                Ok(items) => r matches Ok(c) && c@ == items && c.de@.human == self@.human,
                Err(e) => r matches Err(x) && x@ == e,
            },
    {
        let inner = strip(self.variant);
        match inner {
            Variant::Tuple(items) => {
                if items.len() != len {
                    Err(Error::LengthMismatch { actual: items.len(), expected: len })
                } else {
                    Ok(self.container())
                }
            },
            other => Err(Error::Mismatch { actual: other.type_(), expected: VariantTy::AnyTuple }),
        }
    }

    /// Reads a named tuple of exactly `len` members.
    pub fn deserialize_tuple_struct(self, name: &str, len: usize) -> (r: Result<
        ContainerDeserializer<'a>,
        Error,
    >)
        ensures
            match read_tuple(self@.value, len as nat) {
                Ok(items) => r matches Ok(c) && c@ == items && c.de@.human == self@.human,
                Err(e) => r matches Err(x) && x@ == e,
            },
    {
        self.deserialize_tuple(len)
    }

    /// Reads the entries of a dictionary, in source order.
    pub fn deserialize_map(self) -> (r: Result<ContainerDeserializer<'a>, Error>)
        ensures
            match read_map(self@.value) {
                Ok(items) => r matches Ok(c) && c@ == items && c.de@.human == self@.human,
                Err(e) => r matches Err(x) && x@ == e,
            },
    {
        let inner = strip(self.variant);
        match inner {
            Variant::Array(VariantTy::DictEntry(_, _), _) => Ok(self.container()),
            other => Err(
                Error::Mismatch { actual: other.type_(), expected: VariantTy::dictionary() },
            ),
        }
    }

    /// Reads a named aggregate of `fields` fields: as a map where the value
    /// is a dictionary, else as a tuple of that arity.
    pub fn deserialize_struct(self, name: &str, fields: usize) -> (r: Result<Visit<'a>, Error>)
        ensures
            match read_struct(self@.value, fields as nat) {
                Ok(x) => r matches Ok(y) && y@ == x,
                Err(e) => r matches Err(x) && x@ == e,
            },
    {
        let inner = strip(self.variant);
        match inner {
            Variant::Array(VariantTy::DictEntry(_, _), _) => Ok(Visit::Mapping(self.container())),
            _ => match self.deserialize_tuple(fields) {
                Ok(c) => Ok(Visit::Sequence(c)),
                Err(e) => Err(e),
            },
        }
    }

    /// Reads an identifier: an integer or a string.
    pub fn deserialize_identifier(&self) -> (r: Result<Visit<'a>, Error>)
        ensures
            match read_identifier(self@.value) {
                Ok(x) => r matches Ok(y) && y@ == x,
                Err(e) => r matches Err(x) && x@ == e,
            },
    {
        match strip(self.variant) {
            Variant::Byte(n) => Ok(Visit::U8(*n)),
            Variant::Int16(n) => Ok(Visit::I16(*n)),
            Variant::Uint16(n) => Ok(Visit::U16(*n)),
            Variant::Int32(n) => Ok(Visit::I32(*n)),
            Variant::Uint32(n) => Ok(Visit::U32(*n)),
            Variant::Int64(n) => Ok(Visit::I64(*n)),
            Variant::Uint64(n) => Ok(Visit::U64(*n)),
            Variant::Str(s) => Ok(Visit::Str(s.as_str())),
            other => Err(Error::UnsupportedType(other.type_())),
        }
    }
}

/// What `v` presents of itself, to a decoder with the given flag.
fn visit_value<'a>(v: &'a Variant, humanize: bool) -> (r: Result<Visit<'a>, Error>)
    ensures
        match visit(v@) {
            Ok(x) => r matches Ok(y) && y@ == x,
            Err(e) => r matches Err(x) && x@ == e,
        },
    decreases v,
{
    proof {
        crate::variant::lemma_variant_members(*v);
    }
    let de = Deserializer { variant: v, humanize };
    match v {
        Variant::Boolean(b) => Ok(Visit::Bool(*b)),
        Variant::Byte(n) => Ok(Visit::U8(*n)),
        Variant::Int16(n) => Ok(Visit::I16(*n)),
        Variant::Uint16(n) => Ok(Visit::U16(*n)),
        Variant::Int32(n) => Ok(Visit::I32(*n)),
        Variant::Uint32(n) => Ok(Visit::U32(*n)),
        Variant::Int64(n) => Ok(Visit::I64(*n)),
        Variant::Uint64(n) => Ok(Visit::U64(*n)),
        Variant::Handle(_) => Err(Error::UnsupportedType(VariantTy::Basic(BasicTy::Handle))),
        Variant::Double(bits) => Ok(Visit::F64(*bits)),
        Variant::Str(s) => Ok(Visit::Str(s.as_str())),
        Variant::ObjectPath(s) => Ok(Visit::Str(s.as_str())),
        Variant::Signature(s) => Ok(Visit::Str(s.as_str())),
        Variant::Boxed(inner) => visit_value(inner, humanize),
        Variant::Nothing(_) => Ok(Visit::Absent),
        Variant::Just(child) => Ok(Visit::Present(de.change_variant(child))),
        Variant::Array(t, items) => match t {
            VariantTy::Basic(BasicTy::Byte) => Ok(Visit::Bytes(collect_bytes(items))),
            VariantTy::DictEntry(_, _) => Ok(Visit::Mapping(de.container())),
            _ => Ok(Visit::Sequence(de.container())),
        },
        Variant::Tuple(items) => if items.len() > 0 {
            Ok(Visit::Sequence(de.container()))
        } else {
            Ok(Visit::Unit)
        },
        Variant::DictEntry(_, _) => Err(
            Error::Mismatch { actual: v.type_(), expected: VariantTy::AnyTuple },
        ),
    }
}

/// What `v` holds as a `T`, through any box around it.
fn get_through<T: FromVariant>(v: &Variant) -> (r: Result<T, Error>)
    ensures
        match get_as::<T>(v@) {
            Ok(x) => r == Ok::<T, Error>(x),
            Err(e) => r matches Err(y) && y@ == e,
        },
    decreases v,
{
    match T::from_variant(v) {
        Some(x) => Ok(x),
        None => match v {
            Variant::Boxed(inner) => get_through::<T>(inner),
            _ => Err(Error::Mismatch { actual: v.type_(), expected: T::static_variant_type() }),
        },
    }
}

/// Whether `v` can be read as `wanted`.
fn check_of_type(v: &Variant, wanted: &VariantTy) -> (r: Result<(), Error>)
    ensures
        verdict(r) == of_type(v@, wanted@),
    decreases v,
{
    let ty = v.type_();
    if ty.is_subtype_of(wanted) {
        return Ok(());
    }
    match v {
        Variant::Boxed(inner) => check_of_type(inner, wanted),
        Variant::Array(_, items) => {
            if items.len() == 0 && wanted.equals(&VariantTy::unit()) {
                Ok(())
            } else {
                Err(Error::Mismatch { actual: ty, expected: wanted.clone() })
            }
        },
        _ => Err(Error::Mismatch { actual: ty, expected: wanted.clone() }),
    }
}

/// The decoder of the children of a container, one after the other.
pub struct ContainerDeserializer<'a> {
    pub de: Deserializer<'a>,
    pub index: usize,
}

impl<'a> View for ContainerDeserializer<'a> {
    type V = Seq<Value>;

    /// The children that are still to come.
    open spec fn view(&self) -> Seq<Value> {
        if self.index <= children(self.de@.value).len() {
            children(self.de@.value).skip(self.index as int)
        } else {
            Seq::empty()
        }
    }
}

/// The key and the value of a dictionary entry.
pub open spec fn entry_parts(entry: Value) -> Result<(Value, Value), Failure> {
    match entry {
        Value::DictEntry(k, v) => Ok((*k, *v)),
        other => Err(Failure::UnsupportedType(type_of(other))),
    }
}

impl<'a> ContainerDeserializer<'a> {
    /// The decoder of the children of the value of `de`, from the first.
    pub fn new(de: Deserializer<'a>) -> (r: Self)
        ensures
            r@ == children(de@.value),
            r.de == de,
    {
        let r = Self { de, index: 0 };
        assert(r@ =~= children(de@.value));
        r
    }

    /// The decoder of the next child, and steps past it; `None` after the
    /// last.
    pub fn next_element(&mut self) -> (r: Option<Deserializer<'a>>)
        ensures
            final(self).de == old(self).de,
            old(self)@.len() > 0 ==> (r matches Some(d) && d@ == (Source {
                value: old(self)@[0],
                human: old(self).de@.human,
            }) && final(self)@ == old(self)@.drop_first()),
            old(self)@.len() == 0 ==> (r is None && final(self)@ == old(self)@),
    {
        match self.de.variant.child(self.index) {
            None => {
                None
            },
            Some(child) => {
                let d = self.de.change_variant(child);
                self.index = self.index + 1;
                assert(self@ =~= old(self)@.drop_first());
                Some(d)
            },
        }
    }

    /// The number of children that are still to come.
    pub fn size_hint(&self) -> (r: Option<usize>)
        ensures
            r == Some(self@.len() as usize),
    {
        let n = self.de.variant.n_children();
        if self.index <= n {
            Some(n - self.index)
        } else {
            Some(0)
        }
    }

    /// The decoders of the key and of the value of the next entry, and steps
    /// past it; `None` after the last. Fails where the next child is no
    /// dictionary entry.
    pub fn next_entry(&mut self) -> (r: Result<Option<(Deserializer<'a>, Deserializer<'a>)>, Error>)
        ensures
            final(self).de == old(self).de,
            old(self)@.len() == 0 ==> (r matches Ok(None) && final(self)@ == old(self)@),
            old(self)@.len() > 0 ==> (final(self)@ == old(self)@.drop_first()) && (match entry_parts(
                old(self)@[0],
            ) {
                Ok((k, v)) => r matches Ok(Some((dk, dv))) && dk@ == (Source {
                    value: k,
                    human: old(self).de@.human,
                }) && dv@ == (Source { value: v, human: old(self).de@.human }),
                Err(e) => r matches Err(x) && x@ == e,
            }),
    {
        match self.de.variant.child(self.index) {
            None => Ok(None),
            Some(entry) => {
                self.index = self.index + 1;
                assert(self@ =~= old(self)@.drop_first());
                match entry {
                    Variant::DictEntry(k, v) => Ok(
                        Some((self.de.change_variant(k), self.de.change_variant(v))),
                    ),
                    other => Err(Error::UnsupportedType(other.type_())),
                }
            },
        }
    }

    /// The decoder of the key of the next entry, which stays the next; `None`
    /// after the last.
    pub fn next_key(&self) -> (r: Result<Option<Deserializer<'a>>, Error>)
        ensures
            self@.len() == 0 ==> r matches Ok(None),
            self@.len() > 0 ==> (match entry_parts(self@[0]) {
                Ok((k, v)) => r matches Ok(Some(dk)) && dk@ == (Source {
                    value: k,
                    human: self.de@.human,
                }),
                Err(e) => r matches Err(x) && x@ == e,
            }),
    {
        match self.de.variant.child(self.index) {
            None => Ok(None),
            Some(entry) => match entry {
                Variant::DictEntry(k, v) => Ok(Some(self.de.change_variant(k))),
                other => Err(Error::UnsupportedType(other.type_())),
            },
        }
    }

    /// The decoder of the value of the next entry, and steps past the entry.
    pub fn next_value(&mut self) -> (r: Result<Deserializer<'a>, Error>)
        requires
            old(self)@.len() > 0,
        ensures
            final(self).de == old(self).de,
            final(self)@ == old(self)@.drop_first(),
            match entry_parts(old(self)@[0]) {
                Ok((k, v)) => r matches Ok(dv) && dv@ == (Source {
                    value: v,
                    human: old(self).de@.human,
                }),
                Err(e) => r matches Err(x) && x@ == e,
            },
    {
        match self.next_entry() {
            Ok(Some((_, dv))) => Ok(dv),
            Ok(None) => Err(Error::WrongShape),
            Err(e) => Err(e),
        }
    }
}

/// The value of the generic model that a value presents where nothing in
/// particular is asked of it or of anything that it holds: every box is read
/// through, every array but a byte string or a dictionary and every tuple
/// but the empty one is a sequence, and the entries of a dictionary come in
/// source order.
pub open spec fn decode_any(v: Value) -> Result<Data, Failure>
    decreases v, 0nat,
{
    match v {
        Value::Boolean(b) => Ok(Data::Bool(b)),
        Value::Byte(n) => Ok(Data::U8(n)),
        Value::Int16(n) => Ok(Data::I16(n)),
        Value::Uint16(n) => Ok(Data::U16(n)),
        Value::Int32(n) => Ok(Data::I32(n)),
        Value::Uint32(n) => Ok(Data::U32(n)),
        Value::Int64(n) => Ok(Data::I64(n)),
        Value::Uint64(n) => Ok(Data::U64(n)),
        Value::Handle(_) => Err(Failure::UnsupportedType(Ty::Basic(BasicTy::Handle))),
        Value::Double(bits) => Ok(Data::F64(bits)),
        Value::Str(s) => Ok(Data::Str(s)),
        Value::ObjectPath(s) => Ok(Data::Str(s)),
        Value::Signature(s) => Ok(Data::Str(s)),
        Value::Boxed(inner) => decode_any(*inner),
        Value::Nothing(_) => Ok(Data::Absent),
        Value::Just(inner) => match decode_any(*inner) {
            Ok(d) => Ok(Data::Present(Box::new(d))),
            Err(e) => Err(e),
        },
        Value::Array(t, items) => match t {
            Ty::Basic(BasicTy::Byte) => Ok(Data::Bytes(bytes_of(items))),
            Ty::DictEntry(_, _) => match decode_entries(items, items.len()) {
                Ok(pairs) => Ok(Data::Mapping(pairs)),
                Err(e) => Err(e),
            },
            _ => match decode_all(items, items.len()) {
                Ok(members) => Ok(Data::Sequence(members)),
                Err(e) => Err(e),
            },
        },
        Value::Tuple(items) => if items.len() > 0 {
            match decode_all(items, items.len()) {
                Ok(members) => Ok(Data::Sequence(members)),
                Err(e) => Err(e),
            }
        } else {
            Ok(Data::Unit)
        },
        Value::DictEntry(_, _) => Err(
            Failure::Mismatch { actual: type_of(v), expected: Ty::AnyTuple },
        ),
    }
}

/// What the first `n` of `items` present, in order.
pub open spec fn decode_all(items: Seq<Value>, n: nat) -> Result<Seq<Data>, Failure>
    decreases items, n,
{
    if n == 0 || n > items.len() {
        Ok(Seq::empty())
    } else {
        match decode_all(items, (n - 1) as nat) {
            Err(e) => Err(e),
            Ok(members) => match decode_any(items[n - 1]) {
                Err(e) => Err(e),
                Ok(d) => Ok(members.push(d)),
            },
        }
    }
}

/// What the first `n` entries of a dictionary present, in source order: each
/// key, then its value.
pub open spec fn decode_entries(items: Seq<Value>, n: nat) -> Result<Seq<(Data, Data)>, Failure>
    decreases items, n,
{
    if n == 0 || n > items.len() {
        Ok(Seq::empty())
    } else {
        match decode_entries(items, (n - 1) as nat) {
            Err(e) => Err(e),
            Ok(pairs) => match items[n - 1] {
                Value::DictEntry(k, val) => match decode_any(*k) {
                    Err(e) => Err(e),
                    Ok(a) => match decode_any(*val) {
                        Err(e) => Err(e),
                        Ok(b) => Ok(pairs.push((a, b))),
                    },
                },
                other => Err(Failure::UnsupportedType(type_of(other))),
            },
        }
    }
}

/// A failure among the first members is the failure of the whole list.
pub proof fn lemma_decode_all_fails(items: Seq<Value>, n: nat, k: nat)
    requires
        decode_all(items, n) is Err,
        n <= k <= items.len(),
    ensures
        decode_all(items, k) == decode_all(items, n),
    decreases k - n,
{
    if n < k {
        lemma_decode_all_fails(items, n, (k - 1) as nat);
    }
}

/// A failure among the first entries is the failure of the whole dictionary.
pub proof fn lemma_decode_entries_fails(items: Seq<Value>, n: nat, k: nat)
    requires
        decode_entries(items, n) is Err,
        n <= k <= items.len(),
    ensures
        decode_entries(items, k) == decode_entries(items, n),
    decreases k - n,
{
    if n < k {
        lemma_decode_entries_fails(items, n, (k - 1) as nat);
    }
}

/// Reading a whole value follows what it presents of itself: a scalar is
/// read as it is presented, an optional value as what its child is read as,
/// and a container as what its members are read as, in order.
pub proof fn lemma_decode_follows_visit(v: Value)
    ensures
        match visit(v) {
            Err(e) => decode_any(v) == Err::<Data, Failure>(e),
            Ok(Visited::Bool(b)) => decode_any(v) == Ok::<Data, Failure>(Data::Bool(b)),
            Ok(Visited::U8(n)) => decode_any(v) == Ok::<Data, Failure>(Data::U8(n)),
            Ok(Visited::I16(n)) => decode_any(v) == Ok::<Data, Failure>(Data::I16(n)),
            Ok(Visited::U16(n)) => decode_any(v) == Ok::<Data, Failure>(Data::U16(n)),
            Ok(Visited::I32(n)) => decode_any(v) == Ok::<Data, Failure>(Data::I32(n)),
            Ok(Visited::U32(n)) => decode_any(v) == Ok::<Data, Failure>(Data::U32(n)),
            Ok(Visited::I64(n)) => decode_any(v) == Ok::<Data, Failure>(Data::I64(n)),
            Ok(Visited::U64(n)) => decode_any(v) == Ok::<Data, Failure>(Data::U64(n)),
            Ok(Visited::F64(bits)) => decode_any(v) == Ok::<Data, Failure>(Data::F64(bits)),
            Ok(Visited::Str(s)) => decode_any(v) == Ok::<Data, Failure>(Data::Str(s)),
            Ok(Visited::Bytes(b)) => decode_any(v) == Ok::<Data, Failure>(Data::Bytes(b)),
            Ok(Visited::Absent) => decode_any(v) == Ok::<Data, Failure>(Data::Absent),
            Ok(Visited::Unit) => decode_any(v) == Ok::<Data, Failure>(Data::Unit),
            Ok(Visited::Present(child)) => decode_any(v) == (match decode_any(child) {
                Ok(d) => Ok(Data::Present(Box::new(d))),
                Err(e) => Err(e),
            }),
            Ok(Visited::Sequence(items)) => decode_any(v) == (match decode_all(
                items,
                items.len(),
            ) {
                Ok(members) => Ok(Data::Sequence(members)),
                Err(e) => Err(e),
            }),
            Ok(Visited::Mapping(items)) => decode_any(v) == (match decode_entries(
                items,
                items.len(),
            ) {
                Ok(pairs) => Ok(Data::Mapping(pairs)),
                Err(e) => Err(e),
            }),
        },
    decreases v,
{
    match v {
        Value::Boxed(inner) => lemma_decode_follows_visit(*inner),
        _ => {},
    }
}

/// A boxed value is read as what it holds.
pub proof fn lemma_decode_reads_through(v: Value)
    ensures
        decode_any(v) == decode_any(unboxed(v)),
    decreases v,
{
    match v {
        Value::Boxed(inner) => lemma_decode_reads_through(*inner),
        _ => {},
    }
}

/// The model of the result of a reading.
pub open spec fn reading(r: Result<Datum, Error>) -> Result<Data, Failure> {
    match r {
        Ok(d) => Ok(d@),
        Err(e) => Err(e@),
    }
}

impl<'a> Deserializer<'a> {
    /// Reads the whole value as the generic model sees it where nothing in
    /// particular is asked of it.
    pub fn decode(&self) -> (r: Result<Datum, Error>)
        ensures
            reading(r) == decode_any(self@.value),
    {
        decode_value(self.variant)
    }
}

/// Whether `items` are the members of the array or tuple `parent`.
spec fn holds(parent: Variant, items: Vec<Variant>) -> bool {
    match parent {
        Variant::Array(_, v) => v == items,
        Variant::Tuple(v) => v == items,
        _ => false,
    }
}

/// Reads the whole of `v`.
fn decode_value(v: &Variant) -> (r: Result<Datum, Error>)
    ensures
        reading(r) == decode_any(v@),
    decreases v, 1nat,
{
    proof {
        crate::variant::lemma_variant_members(*v);
    }
    match v {
        Variant::Boolean(b) => Ok(Datum::Bool(*b)),
        Variant::Byte(n) => Ok(Datum::U8(*n)),
        Variant::Int16(n) => Ok(Datum::I16(*n)),
        Variant::Uint16(n) => Ok(Datum::U16(*n)),
        Variant::Int32(n) => Ok(Datum::I32(*n)),
        Variant::Uint32(n) => Ok(Datum::U32(*n)),
        Variant::Int64(n) => Ok(Datum::I64(*n)),
        Variant::Uint64(n) => Ok(Datum::U64(*n)),
        Variant::Handle(_) => Err(Error::UnsupportedType(VariantTy::Basic(BasicTy::Handle))),
        Variant::Double(bits) => Ok(Datum::F64(*bits)),
        Variant::Str(s) => Ok(Datum::Str(s.clone())),
        Variant::ObjectPath(s) => Ok(Datum::Str(s.clone())),
        Variant::Signature(s) => Ok(Datum::Str(s.clone())),
        Variant::Boxed(inner) => decode_value(inner),
        Variant::Nothing(_) => Ok(Datum::Absent),
        Variant::Just(inner) => match decode_value(inner) {
            Ok(d) => Ok(Datum::Present(Box::new(d))),
            Err(e) => Err(e),
        },
        Variant::Array(t, items) => match t {
            VariantTy::Basic(BasicTy::Byte) => Ok(Datum::Bytes(collect_bytes(items))),
            VariantTy::DictEntry(_, _) => match decode_pairs(items, Ghost(*v)) {
                Ok(pairs) => {
                    let d = Datum::Mapping(pairs);
                    proof {
                        crate::datum::lemma_datum_members(d);
                    }
                    Ok(d)
                },
                Err(e) => Err(e),
            },
            _ => match decode_members(items, Ghost(*v)) {
                Ok(members) => {
                    let d = Datum::Sequence(members);
                    proof {
                        crate::datum::lemma_datum_members(d);
                    }
                    Ok(d)
                },
                Err(e) => Err(e),
            },
        },
        Variant::Tuple(items) => if items.len() > 0 {
            match decode_members(items, Ghost(*v)) {
                Ok(members) => {
                    let d = Datum::Sequence(members);
                    proof {
                        crate::datum::lemma_datum_members(d);
                    }
                    Ok(d)
                },
                Err(e) => Err(e),
            }
        } else {
            Ok(Datum::Unit)
        },
        Variant::DictEntry(_, _) => Err(
            Error::Mismatch { actual: v.type_(), expected: VariantTy::AnyTuple },
        ),
    }
}

/// Reads the whole of each of `items`, in order.
#[verifier::loop_isolation(false)]
fn decode_members(items: &Vec<Variant>, Ghost(parent): Ghost<Variant>) -> (r: Result<
    Vec<Datum>,
    Error,
>)
    requires
        holds(parent, *items),
    ensures
        match decode_all(crate::variant::values(items@), items.len() as nat) {
            Ok(members) => r matches Ok(x) && crate::datum::data_of(x@) == members,
            Err(e) => r matches Err(x) && x@ == e,
        },
    decreases parent, 0nat,
{
    let ghost all = crate::variant::values(items@);
    let mut out: Vec<Datum> = Vec::new();
    let mut i: usize = 0;
    assert(crate::datum::data_of(out@) =~= Seq::<Data>::empty());
    while i < items.len()
        invariant
            i <= items.len(),
            decode_all(all, i as nat) == Ok::<Seq<Data>, Failure>(crate::datum::data_of(out@)),
        decreases items.len() - i,
    {
        match decode_value(&items[i]) {
            Err(e) => {
                proof {
                    lemma_decode_all_fails(all, (i + 1) as nat, all.len());
                }
                return Err(e);
            },
            Ok(d) => {
                assert(crate::datum::data_of(out@.push(d)) =~= crate::datum::data_of(out@).push(
                    d@,
                ));
                out.push(d);
            },
        }
        i += 1;
    }
    Ok(out)
}

/// Reads the whole of each entry of `items`, in source order.
#[verifier::loop_isolation(false)]
fn decode_pairs(items: &Vec<Variant>, Ghost(parent): Ghost<Variant>) -> (r: Result<
    Vec<(Datum, Datum)>,
    Error,
>)
    requires
        holds(parent, *items),
    ensures
        match decode_entries(crate::variant::values(items@), items.len() as nat) {
            Ok(pairs) => r matches Ok(x) && crate::datum::pairs_of(x@) == pairs,
            Err(e) => r matches Err(x) && x@ == e,
        },
    decreases parent, 0nat,
{
    let ghost all = crate::variant::values(items@);
    let mut out: Vec<(Datum, Datum)> = Vec::new();
    let mut i: usize = 0;
    assert(crate::datum::pairs_of(out@) =~= Seq::<(Data, Data)>::empty());
    while i < items.len()
        invariant
            i <= items.len(),
            decode_entries(all, i as nat) == Ok::<Seq<(Data, Data)>, Failure>(
                crate::datum::pairs_of(out@),
            ),
        decreases items.len() - i,
    {
        let pair = match &items[i] {
            Variant::DictEntry(k, val) => {
                let a = match decode_value(k) {
                    Ok(a) => a,
                    Err(e) => {
                        proof {
                            lemma_decode_entries_fails(all, (i + 1) as nat, all.len());
                        }
                        return Err(e);
                    },
                };
                match decode_value(val) {
                    Ok(b) => (a, b),
                    Err(e) => {
                        proof {
                            lemma_decode_entries_fails(all, (i + 1) as nat, all.len());
                        }
                        return Err(e);
                    },
                }
            },
            other => {
                proof {
                    lemma_decode_entries_fails(all, (i + 1) as nat, all.len());
                }
                return Err(Error::UnsupportedType(other.type_()));
            },
        };
        assert(crate::datum::pairs_of(out@.push(pair)) =~= crate::datum::pairs_of(out@).push(
            (pair.0@, pair.1@),
        ));
        out.push(pair);
        i += 1;
    }
    Ok(out)
}

} // verus!

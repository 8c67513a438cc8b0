//! The dynamic value and the type-directed encoder and decoder built on it.

pub mod deserializer;
pub mod serializer;

use crate::any_variant::deserializer::{bytes_of, Deserializer};
use crate::any_variant::serializer::{
    encode, map_end, outcome, tuple_or_array, unit_ty, MapModel, MapSerializer, Serializer,
};
use crate::datum::{data_of, fields_of, pairs_of, Data, Datum};
use crate::error::{Error, Failure};
use crate::util::VariantList;
use crate::variant::{byte_values, type_of, values, Value, Variant};
use crate::variant_ty::{BasicTy, Ty, VariantTy};
use std::borrow::Cow;
use vstd::prelude::*;

verus! {

/// A value of the variant format, owned or borrowed, that converts to and from
/// the generic model by its own shape alone: no type is expected of it.
pub struct AnyVariant<'a>(pub Cow<'a, Variant>);

impl<'a> View for AnyVariant<'a> {
    type V = Value;

    open spec fn view(&self) -> Value {
        self.0@
    }
}

impl<'a> AnyVariant<'a> {
    /// The dynamic value that owns `v`.
    pub fn wrap(v: Variant) -> (r: Self)
        ensures
            r@ == v@,
    {
        AnyVariant(Cow::Owned(v))
    }

    /// The dynamic value that borrows `v`.
    pub fn borrow(v: &'a Variant) -> (r: Self)
        ensures
            r@ == v@,
    {
        AnyVariant(Cow::Borrowed(v))
    }

    /// The value that is held.
    pub fn inner(&self) -> (r: &Variant)
        ensures
            r@ == self@,
    {
        match &self.0 {
            Cow::Borrowed(v) => v,
            Cow::Owned(v) => v,
        }
    }

    /// The value that is held; a copy of it where it was borrowed.
    pub fn into_variant(self) -> (r: Variant)
        ensures
            r@ == self@,
    {
        match self.0 {
            Cow::Borrowed(v) => v.clone(),
            Cow::Owned(v) => v,
        }
    }

    /// The value as it is held, owned or borrowed.
    pub fn into_inner(self) -> (r: Cow<'a, Variant>)
        ensures
            r@ == self@,
    {
        self.0
    }
}

/// The name of the wrapper that marks a value that was in a box.
pub open spec fn boxed_name() -> Seq<char> {
    "Variant"@
}

/// The name of the two-member structure that a bare dictionary entry presents.
pub open spec fn entry_name() -> Seq<char> {
    "{?*}"@
}

/// The model of the result of a conversion to the generic model.
pub open spec fn presented(r: Result<Datum, Error>) -> Result<Data, Failure> {
    match r {
        Ok(d) => Ok(d@),
        Err(e) => Err(e@),
    }
}

/// What a value of the variant format presents to the generic model, by its
/// kind: a scalar as the matching scalar; a boxed value as a one-field
/// wrapper around what its payload presents; an optional value as present or
/// absent; a dictionary as a map, a byte string as bytes, another array as a
/// sequence; a tuple as a fixed sequence; a bare dictionary entry as a
/// two-member structure. A handle has no counterpart.
pub open spec fn emit(v: Value) -> Result<Data, Failure>
    decreases v, 0nat,
{
    match v {
        Value::Boolean(b) => Ok(Data::Bool(b)),
        Value::Byte(n) => Ok(Data::U8(n)),
        Value::Int16(n) => Ok(Data::I16(n)),
        Value::Uint16(n) => Ok(Data::U16(n)),
        Value::Int32(n) => Ok(Data::I32(n)),
        Value::Uint32(n) => Ok(Data::U32(n)),
        Value::Int64(n) => Ok(Data::I64(n)),
        Value::Uint64(n) => Ok(Data::U64(n)),
        Value::Handle(_) => Err(Failure::UnsupportedType(Ty::Basic(BasicTy::Handle))),
        Value::Double(bits) => Ok(Data::F64(bits)),
        Value::Str(s) => Ok(Data::Str(s)),
        Value::ObjectPath(s) => Ok(Data::Str(s)),
        Value::Signature(s) => Ok(Data::Str(s)),
        Value::Boxed(inner) => match emit(*inner) {
            Ok(d) => Ok(Data::Newtype(boxed_name(), Box::new(d))),
            Err(e) => Err(e),
        },
        Value::Nothing(_) => Ok(Data::Absent),
        Value::Just(inner) => match emit(*inner) {
            Ok(d) => Ok(Data::Present(Box::new(d))),
            Err(e) => Err(e),
        },
        Value::Array(t, items) => match t {
            Ty::DictEntry(k, vt) => match emit_entries(
                items,
                items.len(),
                k == BasicTy::Str && *vt is Variant,
            ) {
                Ok(pairs) => Ok(Data::Mapping(pairs)),
                Err(e) => Err(e),
            },
            Ty::Basic(BasicTy::Byte) => Ok(Data::Bytes(bytes_of(items))),
            _ => match emit_all(items, items.len()) {
                Ok(members) => Ok(Data::Sequence(members)),
                Err(e) => Err(e),
            },
        },
        Value::Tuple(items) => match emit_all(items, items.len()) {
            Ok(members) => Ok(Data::Tuple(members)),
            Err(e) => Err(e),
        },
        Value::DictEntry(k, val) => match (emit(*k), emit(*val)) {
            (Err(e), _) => Err(e),
            (_, Err(e)) => Err(e),
            (Ok(a), Ok(b)) => Ok(Data::TupleStruct(entry_name(), seq![a, b])),
        },
    }
}

/// What the first `n` of `items` present, in order.
pub open spec fn emit_all(items: Seq<Value>, n: nat) -> Result<Seq<Data>, Failure>
    decreases items, n,
{
    if n == 0 || n > items.len() {
        Ok(Seq::empty())
    } else {
        match (emit_all(items, (n - 1) as nat), emit(items[n - 1])) {
            (Err(e), _) => Err(e),
            (_, Err(e)) => Err(e),
            (Ok(members), Ok(d)) => Ok(members.push(d)),
        }
    }
}

/// What one entry of a dictionary presents: its key and its value; in a
/// dictionary of boxed values keyed by strings, the value without its box.
pub open spec fn emit_entry(entry: Value, vardict: bool) -> Result<(Data, Data), Failure>
    decreases entry, 1nat,
{
    match entry {
        Value::DictEntry(k, val) => {
            let value = match *val {
                Value::Boxed(payload) => if vardict {
                    emit(*payload)
                } else {
                    emit(*val)
                },
                _ => emit(*val),
            };
            match (emit(*k), value) {
                (Err(e), _) => Err(e),
                (_, Err(e)) => Err(e),
                (Ok(a), Ok(b)) => Ok((a, b)),
            }
        },
        other => Err(Failure::UnsupportedType(type_of(other))),
    }
}

/// What the first `n` entries of a dictionary present, in source order.
pub open spec fn emit_entries(items: Seq<Value>, n: nat, vardict: bool) -> Result<
    Seq<(Data, Data)>,
    Failure,
>
    decreases items, n,
{
    if n == 0 || n > items.len() {
        Ok(Seq::empty())
    } else {
        match (emit_entries(items, (n - 1) as nat, vardict), emit_entry(items[n - 1], vardict)) {
            (Err(e), _) => Err(e),
            (_, Err(e)) => Err(e),
            (Ok(pairs), Ok(pair)) => Ok(pairs.push(pair)),
        }
    }
}

/// The dictionary of the given keys and values, with no type expected of
/// either.
pub open spec fn dictionary_of(keys: Seq<Value>, vals: Seq<Value>) -> Result<Value, Failure> {
    map_end(
        MapModel {
        key_ty: None,
        value_ty: None,
        key_human: true,
        human: true,
        keys,
        values: vals,
        size: None,
    },
    )
}

/// The texts of `names` as string values.
pub open spec fn name_values(fields: Seq<(Seq<char>, Data)>) -> Seq<Value> {
    Seq::new(fields.len(), |i: int| Value::Str(fields[i].0))
}

/// The value of the variant format that a value of the generic model makes
/// where no type is expected of it: a scalar in its narrowest slot (a signed
/// byte widens to 16 bits); absent and present as the empty and the full
/// maybe; a sequence as an array where its members agree in type and as a
/// tuple where they differ; a map as a dictionary.
pub open spec fn build(d: Data) -> Result<Value, Failure>
    decreases d, 0nat,
{
    match d {
        Data::Bool(b) => Ok(Value::Boolean(b)),
        Data::I8(n) => Ok(Value::Int16(n as i16)),
        Data::I16(n) => Ok(Value::Int16(n)),
        Data::I32(n) => Ok(Value::Int32(n)),
        Data::I64(n) => Ok(Value::Int64(n)),
        Data::U8(n) => Ok(Value::Byte(n)),
        Data::U16(n) => Ok(Value::Uint16(n)),
        Data::U32(n) => Ok(Value::Uint32(n)),
        Data::U64(n) => Ok(Value::Uint64(n)),
        Data::F64(bits) => Ok(Value::Double(bits)),
        Data::Char(c) => Ok(Value::Str(seq![c])),
        Data::Str(s) => Ok(Value::Str(s)),
        Data::Bytes(b) => Ok(Value::Array(Ty::Basic(BasicTy::Byte), byte_values(b))),
        Data::Absent => Ok(Value::Nothing(Ty::Variant)),
        Data::Present(inner) => match build(*inner) {
            Ok(v) => Ok(Value::Just(Box::new(v))),
            Err(e) => Err(e),
        },
        Data::Unit => Err(Failure::UnsupportedType(unit_ty())),
        Data::UnitStruct(_) => Err(Failure::UnsupportedType(unit_ty())),
        Data::UnitVariant { name, index, variant } => Ok(Value::Str(variant)),
        Data::Newtype(_, inner) => build(*inner),
        Data::Sequence(items) => match build_all(items, items.len()) {
            Ok(members) => Ok(tuple_or_array(members)),
            Err(e) => Err(e),
        },
        Data::Tuple(items) => match build_all(items, items.len()) {
            Ok(members) => Ok(tuple_or_array(members)),
            Err(e) => Err(e),
        },
        Data::TupleStruct(_, items) => match build_all(items, items.len()) {
            Ok(members) => Ok(tuple_or_array(members)),
            Err(e) => Err(e),
        },
        Data::Mapping(entries) => match build_pairs(entries, entries.len()) {
            Ok((keys, vals)) => dictionary_of(keys, vals),
            Err(e) => Err(e),
        },
        Data::Struct(_, fields) => match build_fields(fields, fields.len()) {
            Ok(vals) => dictionary_of(name_values(fields), vals),
            Err(e) => Err(e),
        },
    }
}

/// The values that the first `n` of `items` make, in order.
pub open spec fn build_all(items: Seq<Data>, n: nat) -> Result<Seq<Value>, Failure>
    decreases items, n,
{
    if n == 0 || n > items.len() {
        Ok(Seq::empty())
    } else {
        match (build_all(items, (n - 1) as nat), build(items[n - 1])) {
            (Err(e), _) => Err(e),
            (_, Err(e)) => Err(e),
            (Ok(members), Ok(v)) => Ok(members.push(v)),
        }
    }
}

/// The values that the keys and the values of the first `n` of `entries`
/// make, in order.
pub open spec fn build_pairs(entries: Seq<(Data, Data)>, n: nat) -> Result<
    (Seq<Value>, Seq<Value>),
    Failure,
>
    decreases entries, n,
{
    if n == 0 || n > entries.len() {
        Ok((Seq::empty(), Seq::empty()))
    } else {
        match build_pairs(entries, (n - 1) as nat) {
            Err(e) => Err(e),
            Ok((keys, vals)) => match build(entries[n - 1].0) {
                Err(e) => Err(e),
                Ok(k) => match build(entries[n - 1].1) {
                    Err(e) => Err(e),
                    Ok(v) => Ok((keys.push(k), vals.push(v))),
                },
            },
        }
    }
}

/// The values that the first `n` of `fields` make.
pub open spec fn build_fields(fields: Seq<(Seq<char>, Data)>, n: nat) -> Result<
    Seq<Value>,
    Failure,
>
    decreases fields, n,
{
    if n == 0 || n > fields.len() {
        Ok(Seq::empty())
    } else {
        match (build_fields(fields, (n - 1) as nat), build(fields[n - 1].1)) {
            (Err(e), _) => Err(e),
            (_, Err(e)) => Err(e),
            (Ok(vals), Ok(v)) => Ok(vals.push(v)),
        }
    }
}

/// A failure among the first members is the failure of the whole list.
pub proof fn lemma_emit_all_fails(items: Seq<Value>, n: nat, k: nat)
    requires
        emit_all(items, n) is Err,
        n <= k <= items.len(),
    ensures
        emit_all(items, k) == emit_all(items, n),
    decreases k - n,
{
    if n < k {
        lemma_emit_all_fails(items, n, (k - 1) as nat);
    }
}

/// A failure among the first entries is the failure of the whole dictionary.
pub proof fn lemma_emit_entries_fails(items: Seq<Value>, n: nat, k: nat, vardict: bool)
    requires
        emit_entries(items, n, vardict) is Err,
        n <= k <= items.len(),
    ensures
        emit_entries(items, k, vardict) == emit_entries(items, n, vardict),
    decreases k - n,
{
    if n < k {
        lemma_emit_entries_fails(items, n, (k - 1) as nat, vardict);
    }
}

/// A failure among the first members is the failure of the whole list.
pub proof fn lemma_build_all_fails(items: Seq<Data>, n: nat, k: nat)
    requires
        build_all(items, n) is Err,
        n <= k <= items.len(),
    ensures
        build_all(items, k) == build_all(items, n),
    decreases k - n,
{
    if n < k {
        lemma_build_all_fails(items, n, (k - 1) as nat);
    }
}

/// A failure among the first entries is the failure of the whole map.
pub proof fn lemma_build_pairs_fails(entries: Seq<(Data, Data)>, n: nat, k: nat)
    requires
        build_pairs(entries, n) is Err,
        n <= k <= entries.len(),
    ensures
        build_pairs(entries, k) == build_pairs(entries, n),
    decreases k - n,
{
    if n < k {
        lemma_build_pairs_fails(entries, n, (k - 1) as nat);
    }
}

/// A failure among the first fields is the failure of the whole aggregate.
pub proof fn lemma_build_fields_fails(fields: Seq<(Seq<char>, Data)>, n: nat, k: nat)
    requires
        build_fields(fields, n) is Err,
        n <= k <= fields.len(),
    ensures
        build_fields(fields, k) == build_fields(fields, n),
    decreases k - n,
{
    if n < k {
        lemma_build_fields_fails(fields, n, (k - 1) as nat);
    }
}

/// What a value presents to the generic model.
fn emit_value(v: &Variant) -> (r: Result<Datum, Error>)
    ensures
        presented(r) == emit(v@),
    decreases v, 1nat,
{
    proof {
        crate::variant::lemma_variant_members(*v);
    }
    match v {
        Variant::Boolean(b) => Ok(Datum::Bool(*b)),
        Variant::Byte(n) => Ok(Datum::U8(*n)),
        Variant::Int16(n) => Ok(Datum::I16(*n)),
        Variant::Uint16(n) => Ok(Datum::U16(*n)),
        Variant::Int32(n) => Ok(Datum::I32(*n)),
        Variant::Uint32(n) => Ok(Datum::U32(*n)),
        Variant::Int64(n) => Ok(Datum::I64(*n)),
        Variant::Uint64(n) => Ok(Datum::U64(*n)),
        Variant::Handle(_) => Err(Error::UnsupportedType(VariantTy::Basic(BasicTy::Handle))),
        Variant::Double(bits) => Ok(Datum::F64(*bits)),
        Variant::Str(s) => Ok(Datum::Str(s.clone())),
        Variant::ObjectPath(s) => Ok(Datum::Str(s.clone())),
        Variant::Signature(s) => Ok(Datum::Str(s.clone())),
        Variant::Boxed(inner) => match emit_value(inner) {
            Ok(d) => Ok(Datum::Newtype(String::from_str("Variant"), Box::new(d))),
            Err(e) => Err(e),
        },
        Variant::Nothing(_) => Ok(Datum::Absent),
        Variant::Just(inner) => match emit_value(inner) {
            Ok(d) => Ok(Datum::Present(Box::new(d))),
            Err(e) => Err(e),
        },
        Variant::Array(t, items) => match t {
            VariantTy::DictEntry(k, vt) => {
                let vardict = *k == BasicTy::Str && vt.is_variant();
                match emit_pairs(items, vardict, Ghost(*v)) {
                    Ok(pairs) => {
                        let d = Datum::Mapping(pairs);
                        proof {
                            crate::datum::lemma_datum_members(d);
                        }
                        Ok(d)
                    },
                    Err(e) => Err(e),
                }
            },
            VariantTy::Basic(BasicTy::Byte) => Ok(Datum::Bytes(bytes_from(items))),
            _ => match emit_members(items, Ghost(*v)) {
                Ok(members) => {
                    let d = Datum::Sequence(members);
                    proof {
                        crate::datum::lemma_datum_members(d);
                    }
                    Ok(d)
                },
                Err(e) => Err(e),
            },
        },
        Variant::Tuple(items) => match emit_members(items, Ghost(*v)) {
            Ok(members) => {
                let d = Datum::Tuple(members);
                proof {
                    crate::datum::lemma_datum_members(d);
                }
                Ok(d)
            },
            Err(e) => Err(e),
        },
        Variant::DictEntry(k, val) => {
            let a = match emit_value(k) {
                Ok(a) => a,
                Err(e) => {
                    return Err(e);
                },
            };
            let b = match emit_value(val) {
                Ok(b) => b,
                Err(e) => {
                    return Err(e);
                },
            };
            let mut members: Vec<Datum> = Vec::new();
            members.push(a);
            members.push(b);
            let d = Datum::TupleStruct(String::from_str("{?*}"), members);
            proof {
                crate::datum::lemma_datum_members(d);
                assert(data_of(members@) =~= seq![a@, b@]);
            }
            Ok(d)
        },
    }
}

/// The bytes of the members of a byte string.
fn bytes_from(items: &Vec<Variant>) -> (r: Vec<u8>)
    ensures
        r@ == bytes_of(values(items@)),
{
    let mut out: Vec<u8> = Vec::new();
    let mut i: usize = 0;
    while i < items.len()
        invariant
            i <= items.len(),
            out.len() == i,
            forall|j: int|
                0 <= j < i ==> out[j] == crate::any_variant::deserializer::byte_of(
                    #[trigger] items[j]@,
                ),
        decreases items.len() - i,
    {
        let b = match &items[i] {
            Variant::Byte(b) => *b,
            _ => 0,
        };
        out.push(b);
        i += 1;
    }
    assert(out@ =~= bytes_of(values(items@)));
    out
}

/// Whether `items` are the members of the array or tuple `parent`.
spec fn holds(parent: Variant, items: Vec<Variant>) -> bool {
    match parent {
        Variant::Array(_, v) => v == items,
        Variant::Tuple(v) => v == items,
        _ => false,
    }
}

/// What `items` present, in order.
#[verifier::loop_isolation(false)]
fn emit_members(items: &Vec<Variant>, Ghost(parent): Ghost<Variant>) -> (r: Result<
    Vec<Datum>,
    Error,
>)
    requires
        holds(parent, *items),
    ensures
        match emit_all(values(items@), items.len() as nat) {
            Ok(members) => r matches Ok(x) && data_of(x@) == members,
            Err(e) => r matches Err(x) && x@ == e,
        },
    decreases parent, 0nat,
{
    let ghost all = values(items@);
    let mut out: Vec<Datum> = Vec::new();
    let mut i: usize = 0;
    assert(data_of(out@) =~= Seq::<Data>::empty());
    while i < items.len()
        invariant
            i <= items.len(),
            emit_all(all, i as nat) == Ok::<Seq<Data>, Failure>(data_of(out@)),
        decreases items.len() - i,
    {
        match emit_value(&items[i]) {
            Err(e) => {
                proof {
                    lemma_emit_all_fails(all, (i + 1) as nat, all.len());
                }
                return Err(e);
            },
            Ok(d) => {
                assert(data_of(out@.push(d)) =~= data_of(out@).push(d@));
                out.push(d);
            },
        }
        i += 1;
    }
    Ok(out)
}

/// What the entries `items` of a dictionary present, in source order.
#[verifier::loop_isolation(false)]
fn emit_pairs(items: &Vec<Variant>, vardict: bool, Ghost(parent): Ghost<Variant>) -> (r: Result<
    Vec<(Datum, Datum)>,
    Error,
>)
    requires
        holds(parent, *items),
    ensures
        match emit_entries(values(items@), items.len() as nat, vardict) {
            Ok(pairs) => r matches Ok(x) && pairs_of(x@) == pairs,
            Err(e) => r matches Err(x) && x@ == e,
        },
    decreases parent, 0nat,
{
    let ghost all = values(items@);
    let mut out: Vec<(Datum, Datum)> = Vec::new();
    let mut i: usize = 0;
    assert(pairs_of(out@) =~= Seq::<(Data, Data)>::empty());
    while i < items.len()
        invariant
            i <= items.len(),
            emit_entries(all, i as nat, vardict) == Ok::<Seq<(Data, Data)>, Failure>(
                pairs_of(out@),
            ),
        decreases items.len() - i,
    {
        let pair = match &items[i] {
            Variant::DictEntry(k, val) => {
                assert(all[i as int] == Value::DictEntry(Box::new(k@), Box::new(val@)));
                assert(emit_entry(all[i as int], vardict) == (match (
                    emit(k@),
                    if vardict && val@ is Boxed {
                        emit(*val@->Boxed_0)
                    } else {
                        emit(val@)
                    },
                ) {
                    (Err(e), _) => Err(e),
                    (_, Err(e)) => Err(e),
                    (Ok(a), Ok(b)) => Ok((a, b)),
                }));
                let a = match emit_value(k) {
                    Ok(a) => a,
                    Err(e) => {
                        proof {
                            lemma_emit_entries_fails(all, (i + 1) as nat, all.len(), vardict);
                        }
                        return Err(e);
                    },
                };
                let emitted = match &**val {
                    Variant::Boxed(payload) => if vardict {
                        emit_value(payload)
                    } else {
                        emit_value(val)
                    },
                    _ => emit_value(val),
                };
                match emitted {
                    Ok(b) => (a, b),
                    Err(e) => {
                        proof {
                            lemma_emit_entries_fails(all, (i + 1) as nat, all.len(), vardict);
                        }
                        return Err(e);
                    },
                }
            },
            other => {
                assert(all[i as int] == other@);
                assert(emit_entry(all[i as int], vardict) == Err::<(Data, Data), Failure>(
                    Failure::UnsupportedType(type_of(other@)),
                ));
                proof {
                    lemma_emit_entries_fails(all, (i + 1) as nat, all.len(), vardict);
                }
                return Err(Error::UnsupportedType(other.type_()));
            },
        };
        assert(pairs_of(out@.push(pair)) =~= pairs_of(out@).push((pair.0@, pair.1@)));
        out.push(pair);
        i += 1;
    }
    Ok(out)
}

/// The value that `d` makes where no type is expected of it.
fn build_value(d: &Datum) -> (r: Result<Variant, Error>)
    ensures
        outcome(r) == build(d@),
    decreases d, 1nat,
{
    proof {
        crate::datum::lemma_datum_members(*d);
    }
    match d {
        Datum::Bool(b) => Ok(Variant::Boolean(*b)),
        Datum::I8(n) => Ok(Variant::Int16(*n as i16)),
        Datum::I16(n) => Ok(Variant::Int16(*n)),
        Datum::I32(n) => Ok(Variant::Int32(*n)),
        Datum::I64(n) => Ok(Variant::Int64(*n)),
        Datum::U8(n) => Ok(Variant::Byte(*n)),
        Datum::U16(n) => Ok(Variant::Uint16(*n)),
        Datum::U32(n) => Ok(Variant::Uint32(*n)),
        Datum::U64(n) => Ok(Variant::Uint64(*n)),
        Datum::F64(bits) => Ok(Variant::Double(*bits)),
        Datum::Char(c) => Serializer::new(None).serialize_char(*c),
        Datum::Str(s) => Ok(Variant::Str(s.clone())),
        Datum::Bytes(b) => Ok(Variant::array_from_fixed_array(b.as_slice())),
        Datum::Absent => Ok(Variant::from_none(VariantTy::Variant)),
        Datum::Present(inner) => match build_value(inner) {
            Ok(v) => Ok(Variant::from_some(v)),
            Err(e) => Err(e),
        },
        Datum::Unit => Err(Error::UnsupportedType(VariantTy::unit())),
        Datum::UnitStruct(_) => Err(Error::UnsupportedType(VariantTy::unit())),
        Datum::UnitVariant { name, index, variant } => Ok(Variant::Str(variant.clone())),
        Datum::Newtype(_, inner) => build_value(inner),
        Datum::Sequence(items) => build_list(items, Ghost(*d)),
        Datum::Tuple(items) => build_list(items, Ghost(*d)),
        Datum::TupleStruct(_, items) => build_list(items, Ghost(*d)),
        Datum::Mapping(entries) => build_dictionary(entries, Ghost(*d)),
        Datum::Struct(_, fields) => build_named(fields, Ghost(*d)),
    }
}

/// Whether `items` are the members of the sequence or tuple `parent`.
spec fn lists(parent: Datum, items: Vec<Datum>) -> bool {
    match parent {
        Datum::Sequence(v) => v == items,
        Datum::Tuple(v) => v == items,
        Datum::TupleStruct(_, v) => v == items,
        _ => false,
    }
}

/// The tuple or the array that `items` make.
#[verifier::loop_isolation(false)]
fn build_list(items: &Vec<Datum>, Ghost(parent): Ghost<Datum>) -> (r: Result<Variant, Error>)
    requires
        lists(parent, *items),
    ensures
        outcome(r) == (match build_all(data_of(items@), items.len() as nat) {
            Ok(members) => Ok(tuple_or_array(members)),
            Err(e) => Err(e),
        }),
    decreases parent, 0nat,
{
    let ghost all = data_of(items@);
    let mut out: Vec<Variant> = Vec::new();
    let mut i: usize = 0;
    assert(values(out@) =~= Seq::<Value>::empty());
    while i < items.len()
        invariant
            i <= items.len(),
            build_all(all, i as nat) == Ok::<Seq<Value>, Failure>(values(out@)),
        decreases items.len() - i,
    {
        match build_value(&items[i]) {
            Err(e) => {
                proof {
                    lemma_build_all_fails(all, (i + 1) as nat, all.len());
                }
                return Err(e);
            },
            Ok(v) => {
                assert(values(out@.push(v)) =~= values(out@).push(v@));
                out.push(v);
            },
        }
        i += 1;
    }
    Ok(VariantList::with_variants(out, VariantTy::Any).to_tuple_or_array())
}

/// The dictionary of the given keys and values.
fn make_dictionary(keys: Vec<Variant>, vals: Vec<Variant>) -> (r: Result<Variant, Error>)
    ensures
        outcome(r) == dictionary_of(values(keys@), values(vals@)),
{
    let map = MapSerializer {
        ser_key: Serializer::new(None),
        ser_value: Serializer::new(None),
        keys,
        values: vals,
        size: None,
    };
    map.end()
}

/// The dictionary that `entries` make.
#[verifier::loop_isolation(false)]
fn build_dictionary(entries: &Vec<(Datum, Datum)>, Ghost(parent): Ghost<Datum>) -> (r: Result<
    Variant,
    Error,
>)
    requires
        parent matches Datum::Mapping(v) && v == *entries,
    ensures
        outcome(r) == (match build_pairs(pairs_of(entries@), entries.len() as nat) {
            Ok((keys, vals)) => dictionary_of(keys, vals),
            Err(e) => Err(e),
        }),
    decreases parent, 0nat,
{
    let ghost all = pairs_of(entries@);
    let mut keys: Vec<Variant> = Vec::new();
    let mut vals: Vec<Variant> = Vec::new();
    let mut i: usize = 0;
    assert(values(keys@) =~= Seq::<Value>::empty());
    assert(values(vals@) =~= Seq::<Value>::empty());
    while i < entries.len()
        invariant
            i <= entries.len(),
            build_pairs(all, i as nat) == Ok::<(Seq<Value>, Seq<Value>), Failure>(
                (values(keys@), values(vals@)),
            ),
        decreases entries.len() - i,
    {
        assert(all[i as int] == (entries[i as int].0@, entries[i as int].1@));
        let k = match build_value(&entries[i].0) {
            Ok(k) => k,
            Err(e) => {
                proof {
                    lemma_build_pairs_fails(all, (i + 1) as nat, all.len());
                }
                return Err(e);
            },
        };
        let v = match build_value(&entries[i].1) {
            Ok(v) => v,
            Err(e) => {
                proof {
                    lemma_build_pairs_fails(all, (i + 1) as nat, all.len());
                }
                return Err(e);
            },
        };
        assert(values(keys@.push(k)) =~= values(keys@).push(k@));
        assert(values(vals@.push(v)) =~= values(vals@).push(v@));
        keys.push(k);
        vals.push(v);
        i += 1;
    }
    make_dictionary(keys, vals)
}

/// The dictionary that the named `fields` make.
#[verifier::loop_isolation(false)]
fn build_named(fields: &Vec<(String, Datum)>, Ghost(parent): Ghost<Datum>) -> (r: Result<
    Variant,
    Error,
>)
    requires
        parent matches Datum::Struct(_, v) && v == *fields,
    ensures
        outcome(r) == (match build_fields(fields_of(fields@), fields.len() as nat) {
            Ok(vals) => dictionary_of(name_values(fields_of(fields@)), vals),
            Err(e) => Err(e),
        }),
    decreases parent, 0nat,
{
    let ghost all = fields_of(fields@);
    let mut keys: Vec<Variant> = Vec::new();
    let mut vals: Vec<Variant> = Vec::new();
    let mut i: usize = 0;
    assert(values(keys@) =~= name_values(all).take(0));
    assert(values(vals@) =~= Seq::<Value>::empty());
    while i < fields.len()
        invariant
            i <= fields.len(),
            values(keys@) == name_values(all).take(i as int),
            build_fields(all, i as nat) == Ok::<Seq<Value>, Failure>(values(vals@)),
        decreases fields.len() - i,
    {
        assert(all[i as int] == (fields[i as int].0@, fields[i as int].1@));
        let v = match build_value(&fields[i].1) {
            Ok(v) => v,
            Err(e) => {
                proof {
                    lemma_build_fields_fails(all, (i + 1) as nat, all.len());
                }
                return Err(e);
            },
        };
        let k = Variant::Str(fields[i].0.clone());
        assert(values(keys@.push(k)) =~= name_values(all).take(i + 1));
        assert(values(vals@.push(v)) =~= values(vals@).push(v@));
        keys.push(k);
        vals.push(v);
        i += 1;
    }
    assert(name_values(all).take(i as int) =~= name_values(all));
    make_dictionary(keys, vals)
}

impl<'a> AnyVariant<'a> {
    /// Encodes a value of the generic model with full inference, in
    /// human-readable mode.
    pub fn from_serde(value: &Datum) -> (r: Result<AnyVariant<'static>, Error>)
        ensures
            match encode(value@, None, true) {
                Ok(v) => r matches Ok(x) && x@ == v,
                Err(e) => r matches Err(x) && x@ == e,
            },
    {
        let serializer = Serializer::default();
        match value.serialize(&serializer) {
            Ok(v) => Ok(AnyVariant::wrap(v)),
            Err(e) => Err(e),
        }
    }

    /// Reads the value as the generic model sees it where nothing in
    /// particular is asked of it.
    pub fn to_serde(&self) -> (r: Result<Datum, Error>)
        ensures
            presented(r) == crate::any_variant::deserializer::decode_any(self@),
    {
        Deserializer::new(self.inner()).decode()
    }

    /// What the value presents to the generic model, by its kind.
    pub fn serialize(&self) -> (r: Result<Datum, Error>)
        ensures
            presented(r) == emit(self@),
    {
        emit_value(self.inner())
    }

    /// The dynamic value that a value of the generic model makes where no
    /// type is expected of it.
    pub fn deserialize(d: &Datum) -> (r: Result<AnyVariant<'static>, Error>)
        ensures
            match build(d@) {
                Ok(v) => r matches Ok(x) && x@ == v,
                Err(e) => r matches Err(x) && x@ == e,
            },
    {
        match build_value(d) {
            Ok(v) => Ok(AnyVariant::wrap(v)),
            Err(e) => Err(e),
        }
    }
}

/// The value of the variant format that a value of the generic model makes
/// where no type is expected of it.
pub fn deserialize(d: &Datum) -> (r: Result<Variant, Error>)
    ensures
        outcome(r) == build(d@),
{
    build_value(d)
}

/// What a value of the variant format presents to the generic model.
pub fn serialize(var: &Variant) -> (r: Result<Datum, Error>)
    ensures
        presented(r) == emit(var@),
{
    emit_value(var)
}

} // verus!

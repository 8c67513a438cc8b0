//! The type-directed encoder: from the generic model to the variant format.

use crate::datum::{Data, Datum};
use crate::error::{Error, Failure};
use crate::util::{boxed_all, unify, VariantList, VariantTyTupleIterator};
use crate::variant::{
    all_of_type, byte_values, key_kind, type_of, types_of, values, Value, Variant,
};
use crate::variant_ty::{definite, subtype, BasicTy, Ty, VariantTy};
use vstd::prelude::*;

verus! {

/// Mathematical model of a [`Serializer`]: the type that is expected, if any,
/// and whether the surrounding transport is human-readable.
pub struct Settings {
    pub ty: Option<Ty>,
    pub human: bool,
}

/// The encoder's configuration: the expected type (none for full inference)
/// and the human-readable flag.
#[derive(Debug)]
pub struct Serializer {
    pub ty: Option<VariantTy>,
    pub humanize: bool,
}

/// The model of an optional type.
pub open spec fn ty_model(ty: Option<VariantTy>) -> Option<Ty> {
    match ty {
        Some(t) => Some(t@),
        None => None,
    }
}

impl View for Serializer {
    type V = Settings;

    open spec fn view(&self) -> Settings {
        Settings { ty: ty_model(self.ty), human: self.humanize }
    }
}

/// The model of the result of an encoding.
pub open spec fn outcome(r: Result<Variant, Error>) -> Result<Value, Failure> {
    match r {
        Ok(v) => Ok(v@),
        Err(e) => Err(e@),
    }
}

/// The type `a*` of all arrays.
pub open spec fn any_array() -> Ty {
    Ty::Array(Box::new(Ty::Any))
}

/// The type `m*` of all optional values.
pub open spec fn any_maybe() -> Ty {
    Ty::Maybe(Box::new(Ty::Any))
}

/// The type `{?*}` of all dictionary entries.
pub open spec fn any_entry() -> Ty {
    Ty::DictEntry(BasicTy::Wild, Box::new(Ty::Any))
}

/// The type `a{?*}` of all dictionaries.
pub open spec fn any_dictionary() -> Ty {
    Ty::Array(Box::new(any_entry()))
}

/// The type `ay` of byte strings.
pub open spec fn byte_string() -> Ty {
    Ty::Array(Box::new(Ty::Basic(BasicTy::Byte)))
}

/// The type `()`.
pub open spec fn unit_ty() -> Ty {
    Ty::Tuple(Seq::empty())
}

/// Whether the expected type admits a shape: there is none, it is `v`, or the
/// shape's test accepts it. Else the shape `actual` does not match.
pub open spec fn check(ty: Option<Ty>, accepted: bool, actual: Ty) -> Result<(), Failure> {
    match ty {
        None => Ok(()),
        Some(expected) => if expected is Variant || accepted {
            Ok(())
        } else {
            Err(Failure::Mismatch { actual, expected })
        },
    }
}

/// Whether the expected type admits the type `actual`.
pub open spec fn check_is(ty: Option<Ty>, actual: Ty) -> Result<(), Failure> {
    check(ty, ty matches Some(expected) && subtype(expected, actual), actual)
}

/// The boxing rule: under the expected type `v` the value goes into a box;
/// under another it must be of a subtype; under none it stays as it is.
pub open spec fn boxed_if_needed(ty: Option<Ty>, v: Value) -> Result<Value, Failure> {
    match ty {
        None => Ok(v),
        Some(expected) => if expected is Variant {
            Ok(Value::Boxed(Box::new(v)))
        } else if subtype(type_of(v), expected) {
            Ok(v)
        } else {
            Err(Failure::Mismatch { actual: type_of(v), expected })
        },
    }
}

/// The type expected of the child of an optional value or of the members of
/// an array: none under no type or `v`.
pub open spec fn child_ty(ty: Option<Ty>) -> Result<Option<Ty>, Failure> {
    match ty {
        None => Ok(None),
        Some(Ty::Variant) => Ok(None),
        Some(Ty::Array(e)) => Ok(Some(*e)),
        Some(Ty::Maybe(e)) => Ok(Some(*e)),
        Some(t) => Err(Failure::UnsupportedType(t)),
    }
}

/// The encoding of a scalar: its type is checked, then the boxing rule.
pub open spec fn scalar(ty: Option<Ty>, v: Value) -> Result<Value, Failure> {
    match check_is(ty, type_of(v)) {
        Err(e) => Err(e),
        Ok(()) => boxed_if_needed(ty, v),
    }
}

/// Whether a sequence or a tuple may be built under this type.
pub open spec fn accepts_list(t: Ty) -> bool {
    t is Array || t.is_tuple() || t is DictEntry
}

/// The type under which the members of a tuple are collected.
pub open spec fn tuple_target(ty: Option<Ty>) -> Option<Ty> {
    match ty {
        None => Some(Ty::AnyTuple),
        Some(Ty::Variant) => Some(Ty::AnyTuple),
        Some(t) => Some(t),
    }
}

/// The type under which the members of a sequence are collected: none where
/// nothing or `v` is expected.
pub open spec fn seq_target(ty: Option<Ty>) -> Option<Ty> {
    match ty {
        None => None,
        Some(Ty::Variant) => None,
        Some(t) => Some(t),
    }
}

/// Mathematical model of the types expected of the members still to come.
pub enum Plan {
    /// The members of a tuple type: those still to come, the arity, and the
    /// length that was announced.
    Tuple { remaining: Seq<Ty>, n_items: nat, size: Option<nat> },
    /// One expected type for every member, or none: each is then inferred.
    Generic { elem: Option<Ty>, size: Option<nat> },
}

/// The plan for the members of a list built under `ty`, of announced length
/// `size`.
pub open spec fn plan_new(ty: Option<Ty>, size: Option<nat>) -> Result<Plan, Failure> {
    match ty {
        None => Ok(Plan::Generic { elem: None, size }),
        Some(t) => if t is AnyTuple || t == any_array() || t is Variant {
            Ok(Plan::Generic { elem: None, size })
        } else if t.has_members() {
            let n = t.members().len();
            if size matches Some(s) && s != n {
                Err(Failure::LengthMismatch { actual: size->Some_0, expected: n })
            } else {
                Ok(Plan::Tuple { remaining: t.members(), n_items: n, size })
            }
        } else if t is Array {
            Ok(Plan::Generic { elem: Some(*t->Array_0), size })
        } else {
            Err(Failure::Mismatch { actual: t, expected: Ty::AnyTuple })
        },
    }
}

/// The larger of two numbers.
pub open spec fn larger(a: nat, b: nat) -> nat {
    if a >= b {
        a
    } else {
        b
    }
}

/// `n + 1`, as far as the machine can count.
pub open spec fn one_more(n: nat) -> nat {
    if n < usize::MAX {
        n + 1
    } else {
        n
    }
}

/// The type expected of the next member, and the plan for the rest. A tuple
/// with no member left has one member too many.
pub open spec fn plan_next(p: Plan) -> Result<(Option<Ty>, Plan), Failure> {
    match p {
        Plan::Tuple { remaining, n_items, size } => if remaining.len() > 0 {
            Ok(
                (
                    Some(remaining[0]),
                    Plan::Tuple { remaining: remaining.drop_first(), n_items, size },
                ),
            )
        } else {
            Err(
                Failure::LengthMismatch {
                    actual: larger(
                        match size {
                            Some(s) => s,
                            None => 0,
                        },
                        one_more(n_items),
                    ),
                    expected: n_items,
                },
            )
        },
        Plan::Generic { elem, size } => Ok((elem, p)),
    }
}

/// Whether a list of `len` members is complete under the plan.
pub open spec fn plan_end(p: Plan, len: nat) -> Result<(), Failure> {
    match p {
        Plan::Tuple { remaining, n_items, size } => if remaining.len() == 0 {
            Ok(())
        } else {
            Err(
                Failure::LengthMismatch {
                    actual: if n_items >= remaining.len() {
                        (n_items - remaining.len()) as nat
                    } else {
                        0
                    },
                    expected: n_items,
                },
            )
        },
        Plan::Generic { elem, size } => if size matches Some(s) && s != len {
            Err(Failure::LengthMismatch { actual: len, expected: size->Some_0 })
        } else {
            Ok(())
        },
    }
}

/// Mathematical model of a list under construction.
pub struct SeqModel {
    pub ty: Option<Ty>,
    pub human: bool,
    pub plan: Plan,
    pub variants: Seq<Value>,
}

/// An empty list under construction.
pub open spec fn seq_new(ty: Option<Ty>, human: bool, size: Option<nat>) -> Result<
    SeqModel,
    Failure,
> {
    match plan_new(ty, size) {
        Err(e) => Err(e),
        Ok(plan) => Ok(SeqModel { ty, human, plan, variants: Seq::empty() }),
    }
}

/// The element type that a list of values is given: their one type;
/// `fallback` where there are none; none where they differ.
pub open spec fn common_type(items: Seq<Value>, fallback: Ty) -> Option<Ty> {
    match unify(types_of(items)) {
        None => Some(fallback),
        Some(Some(t)) => Some(t),
        Some(None) => None,
    }
}

/// The array of values whose element type is inferred: their one type, or
/// `v` with each value in a box where they differ or there are none.
pub open spec fn open_array(items: Seq<Value>) -> Value {
    match common_type(items, Ty::Variant) {
        Some(t) => Value::Array(t, items),
        None => Value::Array(Ty::Variant, boxed_all(items)),
    }
}

/// The tuple of values that differ in type, the array of values that agree,
/// the empty tuple where there are none.
pub open spec fn tuple_or_array(items: Seq<Value>) -> Value {
    match common_type(items, Ty::Any) {
        None => Value::Tuple(items),
        Some(t) => if items.len() == 0 {
            Value::Tuple(Seq::empty())
        } else {
            Value::Array(t, items)
        },
    }
}

/// The value that a complete list makes. Collected under no type, members
/// that agree in type make an array and members that differ make a tuple;
/// under the type `a*` of any array, members that differ go each into a box.
pub open spec fn seq_end(m: SeqModel) -> Result<Value, Failure> {
    match plan_end(m.plan, m.variants.len()) {
        Err(e) => Err(e),
        Ok(()) => match m.ty {
            None => Ok(tuple_or_array(m.variants)),
            Some(t) => if t == any_array() || t is Variant {
                Ok(open_array(m.variants))
            } else if t is Array {
                if !definite(*t->Array_0) {
                    Err(Failure::UnsupportedType(t))
                } else if all_of_type(m.variants, *t->Array_0) {
                    Ok(Value::Array(*t->Array_0, m.variants))
                } else {
                    Err(Failure::InconsistentTypes)
                }
            } else if t is DictEntry {
                if m.variants.len() == 2 && type_of(m.variants[0]) is Basic {
                    Ok(Value::DictEntry(Box::new(m.variants[0]), Box::new(m.variants[1])))
                } else {
                    Err(Failure::UnsupportedType(t))
                }
            } else if t.is_tuple() {
                Ok(Value::Tuple(m.variants))
            } else {
                Err(Failure::UnsupportedType(t))
            },
        },
    }
}

/// Mathematical model of a dictionary under construction.
pub struct MapModel {
    pub key_ty: Option<Ty>,
    pub value_ty: Option<Ty>,
    /// The flag under which the keys are encoded.
    pub key_human: bool,
    /// The flag under which the values are encoded.
    pub human: bool,
    pub keys: Seq<Value>,
    pub values: Seq<Value>,
    pub size: Option<nat>,
}

/// An empty dictionary under construction.
pub open spec fn map_new(
    key_ty: Option<Ty>,
    value_ty: Option<Ty>,
    human: bool,
    size: Option<nat>,
) -> MapModel {
    MapModel {
        key_ty,
        value_ty,
        key_human: human,
        human,
        keys: Seq::empty(),
        values: Seq::empty(),
        size,
    }
}

/// The key and value types expected of the entries of a map built under `ty`.
pub open spec fn map_types(ty: Option<Ty>) -> Result<(Option<Ty>, Option<Ty>), Failure> {
    match child_ty(ty) {
        Err(e) => Err(e),
        Ok(None) => Ok((None, None)),
        Ok(Some(t)) => if t == any_entry() {
            Ok((None, None))
        } else if t is DictEntry {
            Ok((Some(Ty::Basic(t->DictEntry_0)), Some(*t->DictEntry_1)))
        } else {
            Err(Failure::Mismatch { actual: any_dictionary(), expected: t })
        },
    }
}

/// The entries of a dictionary: each key with its value.
pub open spec fn entries_of(keys: Seq<Value>, vals: Seq<Value>) -> Seq<Value> {
    Seq::new(keys.len(), |i: int| Value::DictEntry(Box::new(keys[i]), Box::new(vals[i])))
}

/// The dictionary that the collected keys and values make. The keys must
/// have one basic type, the string type where there are none; the values
/// have their one type, or go each into a box where they differ.
pub open spec fn map_end(m: MapModel) -> Result<Value, Failure> {
    if m.size matches Some(s) && s != m.values.len() {
        Err(Failure::LengthMismatch { actual: m.values.len(), expected: m.size->Some_0 })
    } else if m.keys.len() != m.values.len() {
        Err(Failure::LengthMismatch { actual: m.values.len(), expected: m.keys.len() })
    } else {
        let key_fallback = match m.key_ty {
            Some(t) => t,
            None => Ty::Basic(BasicTy::Str),
        };
        let value_fallback = match m.value_ty {
            Some(t) => t,
            None => Ty::Variant,
        };
        match common_type(m.keys, key_fallback) {
            None => Err(Failure::InconsistentTypes),
            Some(Ty::Basic(k)) => {
                let (vt, vals) = match common_type(m.values, value_fallback) {
                    Some(t) => (t, m.values),
                    None => (Ty::Variant, boxed_all(m.values)),
                };
                let entry = Ty::DictEntry(k, Box::new(vt));
                if definite(entry) {
                    Ok(Value::Array(entry, entries_of(m.keys, vals)))
                } else {
                    Err(Failure::UnsupportedType(Ty::Array(Box::new(entry))))
                }
            },
            Some(t) => Err(Failure::UnsupportedType(t)),
        }
    }
}

/// Whether a named aggregate is written as a map of its field names: in
/// human-readable mode unless a tuple is asked for, and whenever a
/// dictionary is asked for.
pub open spec fn struct_as_map(ty: Option<Ty>, human: bool) -> bool {
    let is_map = ty matches Some(Ty::Array(e)) && *e is DictEntry;
    let is_tuple = ty matches Some(t) && t.is_tuple();
    (human && !is_tuple) || is_map
}

/// Whether a bare discriminant is written as its symbolic name: in
/// human-readable mode unless its index is asked for, and whenever a string
/// is asked for.
pub open spec fn variant_as_name(ty: Option<Ty>, human: bool) -> bool {
    (human && ty != Some(Ty::Basic(BasicTy::Uint32))) || ty == Some(Ty::Basic(BasicTy::Str))
}

/// One more member for a list under construction: the plan gives the type
/// that is expected of it.
pub open spec fn seq_step(m: SeqModel, item: Data) -> Result<SeqModel, Failure>
    decreases item, 1nat,
{
    match plan_next(m.plan) {
        Err(e) => Err(e),
        Ok((t, plan)) => match encode(item, t, m.human) {
            Err(e) => Err(e),
            Ok(v) => Ok(SeqModel { ty: m.ty, human: m.human, plan, variants: m.variants.push(v) }),
        },
    }
}

/// The list under construction after one more member was offered, whether
/// it was taken or not: a member that cannot be encoded uses up its place in
/// the plan and adds nothing.
pub open spec fn seq_after(m: SeqModel, item: Data) -> SeqModel {
    match plan_next(m.plan) {
        Err(_) => m,
        Ok((t, plan)) => match seq_step(m, item) {
            Ok(next) => next,
            Err(_) => SeqModel { ty: m.ty, human: m.human, plan, variants: m.variants },
        },
    }
}

/// The list under construction after the first `n` of `items`.
pub open spec fn fill_seq(items: Seq<Data>, n: nat, start: SeqModel) -> Result<SeqModel, Failure>
    decreases items, n,
{
    if n == 0 || n > items.len() {
        Ok(start)
    } else {
        match fill_seq(items, (n - 1) as nat, start) {
            Err(e) => Err(e),
            Ok(m) => seq_step(m, items[n - 1]),
        }
    }
}

/// The list under construction after the values of the first `n` of `fields`.
pub open spec fn fill_fields(
    fields: Seq<(Seq<char>, Data)>,
    n: nat,
    start: SeqModel,
) -> Result<SeqModel, Failure>
    decreases fields, n,
{
    if n == 0 || n > fields.len() {
        Ok(start)
    } else {
        match fill_fields(fields, (n - 1) as nat, start) {
            Err(e) => Err(e),
            Ok(m) => seq_step(m, fields[n - 1].1),
        }
    }
}

/// One more key for a dictionary under construction.
pub open spec fn map_key_step(m: MapModel, key: Data) -> Result<MapModel, Failure>
    decreases key, 2nat,
{
    match encode(key, m.key_ty, m.key_human) {
        Err(e) => Err(e),
        Ok(k) => Ok(
            MapModel {
                key_ty: m.key_ty,
                value_ty: m.value_ty,
                key_human: m.key_human,
                human: m.human,
                keys: m.keys.push(k),
                values: m.values,
                size: m.size,
            },
        ),
    }
}

/// One more value for a dictionary under construction.
pub open spec fn map_value_step(m: MapModel, value: Data) -> Result<MapModel, Failure>
    decreases value, 2nat,
{
    match encode(value, m.value_ty, m.human) {
        Err(e) => Err(e),
        Ok(v) => Ok(
            MapModel {
                key_ty: m.key_ty,
                value_ty: m.value_ty,
                key_human: m.key_human,
                human: m.human,
                keys: m.keys,
                values: m.values.push(v),
                size: m.size,
            },
        ),
    }
}

/// The dictionary under construction after the first `n` of `entries`.
pub open spec fn fill_map(entries: Seq<(Data, Data)>, n: nat, start: MapModel) -> Result<
    MapModel,
    Failure,
>
    decreases entries, n,
{
    if n == 0 || n > entries.len() {
        Ok(start)
    } else {
        match fill_map(entries, (n - 1) as nat, start) {
            Err(e) => Err(e),
            Ok(m) => match map_key_step(m, entries[n - 1].0) {
                Err(e) => Err(e),
                Ok(m1) => map_value_step(m1, entries[n - 1].1),
            },
        }
    }
}

/// The dictionary under construction after the first `n` of `fields`, each
/// keyed by its name.
pub open spec fn fill_named(
    fields: Seq<(Seq<char>, Data)>,
    n: nat,
    start: MapModel,
) -> Result<MapModel, Failure>
    decreases fields, n,
{
    if n == 0 || n > fields.len() {
        Ok(start)
    } else {
        match fill_named(fields, (n - 1) as nat, start) {
            Err(e) => Err(e),
            Ok(m) => match scalar(m.key_ty, Value::Str(fields[n - 1].0)) {
                Err(e) => Err(e),
                Ok(k) => map_value_step(
                    MapModel {
                        key_ty: m.key_ty,
                        value_ty: m.value_ty,
                        key_human: m.key_human,
                human: m.human,
                        keys: m.keys.push(k),
                        values: m.values,
                        size: m.size,
                    },
                    fields[n - 1].1,
                ),
            },
        }
    }
}

/// What a complete list makes, under the boxing rule of the type that was
/// expected of it.
pub open spec fn finish_seq(filled: Result<SeqModel, Failure>, ty: Option<Ty>) -> Result<
    Value,
    Failure,
> {
    match filled {
        Err(e) => Err(e),
        Ok(m) => match seq_end(m) {
            Err(e) => Err(e),
            Ok(v) => boxed_if_needed(ty, v),
        },
    }
}

/// What a complete dictionary makes, under the boxing rule of the type that
/// was expected of it.
pub open spec fn finish_map(filled: Result<MapModel, Failure>, ty: Option<Ty>) -> Result<
    Value,
    Failure,
> {
    match filled {
        Err(e) => Err(e),
        Ok(m) => match map_end(m) {
            Err(e) => Err(e),
            Ok(v) => boxed_if_needed(ty, v),
        },
    }
}

/// The encoding of a value of the generic model under the expected type `ty`
/// (none for full inference), or the first failure.
pub open spec fn encode(d: Data, ty: Option<Ty>, human: bool) -> Result<Value, Failure>
    decreases d, 0nat,
{
    match d {
        Data::Bool(b) => scalar(ty, Value::Boolean(b)),
        Data::I8(n) => scalar(ty, Value::Int16(n as i16)),
        Data::I16(n) => scalar(ty, Value::Int16(n)),
        Data::I32(n) => scalar(ty, Value::Int32(n)),
        Data::I64(n) => scalar(ty, Value::Int64(n)),
        Data::U8(n) => scalar(ty, Value::Byte(n)),
        Data::U16(n) => scalar(ty, Value::Uint16(n)),
        Data::U32(n) => scalar(ty, Value::Uint32(n)),
        Data::U64(n) => scalar(ty, Value::Uint64(n)),
        Data::F64(bits) => scalar(ty, Value::Double(bits)),
        Data::Char(c) => scalar(ty, Value::Str(seq![c])),
        Data::Str(s) => scalar(ty, Value::Str(s)),
        Data::Bytes(b) => scalar(ty, Value::Array(Ty::Basic(BasicTy::Byte), byte_values(b))),
        Data::Absent => match (check_is(ty, any_maybe()), child_ty(ty)) {
            (Err(e), _) => Err(e),
            (_, Err(e)) => Err(e),
            (Ok(()), Ok(child)) => {
                let t = match child {
                    Some(t) => t,
                    None => Ty::Variant,
                };
                if definite(t) {
                    boxed_if_needed(ty, Value::Nothing(t))
                } else {
                    Err(Failure::UnsupportedType(t))
                }
            },
        },
        Data::Present(inner) => match (check_is(ty, any_maybe()), child_ty(ty)) {
            (Err(e), _) => Err(e),
            (_, Err(e)) => Err(e),
            (Ok(()), Ok(child)) => match encode(*inner, child, human) {
                Err(e) => Err(e),
                Ok(v) => boxed_if_needed(ty, Value::Just(Box::new(v))),
            },
        },
        Data::Unit => scalar(ty, Value::Tuple(Seq::empty())),
        Data::UnitStruct(_) => scalar(ty, Value::Tuple(Seq::empty())),
        Data::UnitVariant { name, index, variant } => if variant_as_name(ty, human) {
            scalar(ty, Value::Str(variant))
        } else {
            scalar(ty, Value::Uint32(index))
        },
        Data::Newtype(_, inner) => encode(*inner, ty, human),
        Data::Sequence(items) => match check(
            ty,
            ty matches Some(t) && accepts_list(t),
            any_array(),
        ) {
            Err(e) => Err(e),
            Ok(()) => match seq_new(seq_target(ty), human, Some(items.len())) {
                Err(e) => Err(e),
                Ok(start) => finish_seq(fill_seq(items, items.len(), start), ty),
            },
        },
        Data::Tuple(items) => match check(ty, ty matches Some(t) && accepts_list(t), Ty::AnyTuple) {
            Err(e) => Err(e),
            Ok(()) => match seq_new(tuple_target(ty), human, Some(items.len())) {
                Err(e) => Err(e),
                Ok(start) => finish_seq(fill_seq(items, items.len(), start), ty),
            },
        },
        Data::TupleStruct(_, items) => match seq_new(tuple_target(ty), human, Some(items.len())) {
            Err(e) => Err(e),
            Ok(start) => finish_seq(fill_seq(items, items.len(), start), ty),
        },
        Data::Mapping(entries) => match map_types(ty) {
            Err(e) => Err(e),
            Ok((k, v)) => finish_map(
                fill_map(entries, entries.len(), map_new(k, v, human, Some(entries.len()))),
                ty,
            ),
        },
        Data::Struct(_, fields) => if struct_as_map(ty, human) {
            finish_map(
                fill_named(
                    fields,
                    fields.len(),
                    map_new(Some(Ty::Basic(BasicTy::Str)), None, human, Some(fields.len())),
                ),
                ty,
            )
        } else {
            match seq_new(tuple_target(ty), human, Some(fields.len())) {
                Err(e) => Err(e),
                Ok(start) => finish_seq(fill_fields(fields, fields.len(), start), ty),
            }
        },
    }
}

/// The model of an announced length.
pub open spec fn size_model(size: Option<usize>) -> Option<nat> {
    match size {
        Some(n) => Some(n as nat),
        None => None,
    }
}

/// The model of the result of a check.
pub open spec fn verdict(r: Result<(), Error>) -> Result<(), Failure> {
    match r {
        Ok(()) => Ok(()),
        Err(e) => Err(e@),
    }
}

/// std's `String::from` for a character: the string of that one character.
#[verifier::external_body]
fn char_to_string(c: char) -> (s: String)
    ensures
        s@ == seq![c],
{
    String::from(c)
}

/// Whether `t` is the type `a*`.
fn is_any_array(t: &VariantTy) -> (b: bool)
    ensures
        b == (t@ == any_array()),
{
    proof {
        reveal_with_fuel(VariantTy::model, 2);
    }
    match t {
        VariantTy::Array(e) => match &**e {
            VariantTy::Any => true,
            _ => false,
        },
        _ => false,
    }
}

/// Whether `t` is the type `{?*}`.
fn is_any_entry(t: &VariantTy) -> (b: bool)
    ensures
        b == (t@ == any_entry()),
{
    proof {
        reveal_with_fuel(VariantTy::model, 2);
    }
    match t {
        VariantTy::DictEntry(k, v) => *k == BasicTy::Wild && (match &**v {
            VariantTy::Any => true,
            _ => false,
        }),
        _ => false,
    }
}

/// A copy of an optional type.
fn copy_ty(ty: &Option<VariantTy>) -> (r: Option<VariantTy>)
    ensures
        ty_model(r) == ty_model(*ty),
{
    match ty {
        Some(t) => Some(t.clone()),
        None => None,
    }
}

impl Clone for Serializer {
    fn clone(&self) -> (r: Self)
        ensures
            r@ == self@,
    {
        Serializer { ty: copy_ty(&self.ty), humanize: self.humanize }
    }
}

impl Default for Serializer {
    /// The encoder that infers every type, in human-readable mode.
    fn default() -> (r: Self)
        ensures
            r@ == (Settings { ty: None, human: true }),
    {
        Self::new(None)
    }
}

impl Serializer {
    /// The encoder that expects `ty`, in human-readable mode.
    pub fn with_type(ty: VariantTy) -> (r: Self)
        ensures
            r@ == (Settings { ty: Some(ty@), human: true }),
    {
        Self::new(Some(ty))
    }

    /// The encoder that expects `ty` (none for full inference), in
    /// human-readable mode.
    pub fn new(ty: Option<VariantTy>) -> (r: Self)
        ensures
            r@ == (Settings { ty: ty_model(ty), human: true }),
    {
        Self { ty, humanize: true }
    }

    /// The same encoder for a transport that is not human-readable.
    pub fn inhuman(self) -> (r: Self)
        ensures
            r@ == (Settings { ty: self@.ty, human: false }),
    {
        Self { ty: self.ty, humanize: false }
    }

    /// The encoder with the same flag that expects `ty`.
    pub fn change_type(&self, ty: Option<VariantTy>) -> (r: Self)
        ensures
            r@ == (Settings { ty: ty_model(ty), human: self@.human }),
    {
        Self { ty, humanize: self.humanize }
    }

    pub fn is_human_readable(&self) -> (b: bool)
        ensures
            b == self@.human,
    {
        self.humanize
    }

    /// The type expected of what an optional value or an array holds.
    pub fn child_type(&self) -> (r: Result<Option<VariantTy>, Error>)
        ensures
            match child_ty(self@.ty) {
                Ok(t) => r matches Ok(x) && ty_model(x) == t,
                Err(e) => r matches Err(x) && x@ == e,
            },
    {
        match &self.ty {
            None => Ok(None),
            Some(ty) => match ty {
                VariantTy::Variant => Ok(None),
                VariantTy::Array(e) => Ok(Some((**e).clone())),
                VariantTy::Maybe(e) => Ok(Some((**e).clone())),
                _ => Err(Error::UnsupportedType(ty.clone())),
            },
        }
    }

    /// The type expected of what an optional value or an array holds, `v`
    /// where none is.
    pub fn child_type_or_default(&self) -> (r: Result<VariantTy, Error>)
        ensures
            match child_ty(self@.ty) {
                Ok(Some(t)) => r matches Ok(x) && x@ == t,
                Ok(None) => r matches Ok(x) && x@ == Ty::Variant,
                Err(e) => r matches Err(x) && x@ == e,
            },
    {
        match self.child_type() {
            Ok(Some(ty)) => Ok(ty),
            Ok(None) => Ok(VariantTy::Variant),
            Err(e) => Err(e),
        }
    }

    /// The encoder for what an optional value or an array holds.
    pub fn child_serializer(&self) -> (r: Result<Self, Error>)
        ensures
            match child_ty(self@.ty) {
                Ok(t) => r matches Ok(x) && x@ == (Settings { ty: t, human: self@.human }),
                Err(e) => r matches Err(x) && x@ == e,
            },
    {
        match self.child_type() {
            Ok(ty) => Ok(self.change_type(ty)),
            Err(e) => Err(e),
        }
    }

    /// Checks the expected type with `f`: a shape of type `ty` is admitted
    /// where nothing is expected, where `v` is, and where `f` accepts what is.
    pub fn check_type<F: FnOnce(&VariantTy) -> bool>(&self, f: F, ty: &VariantTy) -> (r: Result<
        (),
        Error,
    >)
        requires
            self.ty matches Some(expected) ==> call_requires(f, (&expected,)),
        ensures
            (self.ty is None || self@.ty == Some(Ty::Variant)) ==> r is Ok,
            self.ty matches Some(expected) ==> (!(expected@ is Variant) ==> exists|accepted: bool|
                call_ensures(f, (&expected,), accepted) && verdict(r) == check(
                    self@.ty,
                    accepted,
                    ty@,
                )),
    {
        match &self.ty {
            None => Ok(()),
            Some(expected) => {
                if expected.is_variant() {
                    Ok(())
                } else {
                    let accepted = f(expected);
                    let r = if accepted {
                        Ok(())
                    } else {
                        Err(Error::Mismatch { actual: ty.clone(), expected: expected.clone() })
                    };
                    assert(call_ensures(f, (expected,), accepted) && verdict(r) == check(
                        self@.ty,
                        accepted,
                        ty@,
                    ));
                    r
                }
            },
        }
    }

    /// Checks that what is expected admits the type `ty`.
    pub fn check_type_is(&self, ty: &VariantTy) -> (r: Result<(), Error>)
        ensures
            verdict(r) == check_is(self@.ty, ty@),
    {
        let admits = |expected: &VariantTy| -> (b: bool)
            ensures
                b == subtype(expected@, ty@),
            {
                expected.is_subtype_of(ty)
            };
        self.check_type(admits, ty)
    }

    /// The boxing rule: `v` in a box where `v` is expected.
    pub fn box_if_needed(&self, v: Variant) -> (r: Result<Variant, Error>)
        ensures
            outcome(r) == boxed_if_needed(self@.ty, v@),
    {
        match &self.ty {
            None => Ok(v),
            Some(ty) => {
                if ty.is_variant() {
                    Ok(Variant::from_variant(v))
                } else {
                    let actual = v.type_();
                    if actual.is_subtype_of(ty) {
                        Ok(v)
                    } else {
                        Err(Error::Mismatch { actual, expected: ty.clone() })
                    }
                }
            },
        }
    }

    /// Encodes a scalar.
    fn serialize_scalar(&self, v: Variant) -> (r: Result<Variant, Error>)
        ensures
            outcome(r) == scalar(self@.ty, v@),
    {
        match self.check_type_is(&v.type_()) {
            Err(e) => Err(e),
            Ok(()) => self.box_if_needed(v),
        }
    }

    pub fn serialize_bool(&self, v: bool) -> (r: Result<Variant, Error>)
        ensures
            outcome(r) == encode(Data::Bool(v), self@.ty, self@.human),
    {
        self.serialize_scalar(Variant::Boolean(v))
    }

    /// A signed byte has no slot of its own: it is widened to 16 bits.
    pub fn serialize_i8(&self, v: i8) -> (r: Result<Variant, Error>)
        ensures
            outcome(r) == encode(Data::I8(v), self@.ty, self@.human),
    {
        self.serialize_scalar(Variant::Int16(v as i16))
    }

    pub fn serialize_i16(&self, v: i16) -> (r: Result<Variant, Error>)
        ensures
            outcome(r) == encode(Data::I16(v), self@.ty, self@.human),
    {
        self.serialize_scalar(Variant::Int16(v))
    }

    pub fn serialize_i32(&self, v: i32) -> (r: Result<Variant, Error>)
        ensures
            outcome(r) == encode(Data::I32(v), self@.ty, self@.human),
    {
        self.serialize_scalar(Variant::Int32(v))
    }

    pub fn serialize_i64(&self, v: i64) -> (r: Result<Variant, Error>)
        ensures
            outcome(r) == encode(Data::I64(v), self@.ty, self@.human),
    {
        self.serialize_scalar(Variant::Int64(v))
    }

    pub fn serialize_u8(&self, v: u8) -> (r: Result<Variant, Error>)
        ensures
            outcome(r) == encode(Data::U8(v), self@.ty, self@.human),
    {
        self.serialize_scalar(Variant::Byte(v))
    }

    pub fn serialize_u16(&self, v: u16) -> (r: Result<Variant, Error>)
        ensures
            outcome(r) == encode(Data::U16(v), self@.ty, self@.human),
    {
        self.serialize_scalar(Variant::Uint16(v))
    }

    pub fn serialize_u32(&self, v: u32) -> (r: Result<Variant, Error>)
        ensures
            outcome(r) == encode(Data::U32(v), self@.ty, self@.human),
    {
        self.serialize_scalar(Variant::Uint32(v))
    }

    pub fn serialize_u64(&self, v: u64) -> (r: Result<Variant, Error>)
        ensures
            outcome(r) == encode(Data::U64(v), self@.ty, self@.human),
    {
        self.serialize_scalar(Variant::Uint64(v))
    }

    /// Encodes the double whose IEEE 754 form is `bits`.
    pub fn serialize_f64(&self, bits: u64) -> (r: Result<Variant, Error>)
        ensures
            outcome(r) == encode(Data::F64(bits), self@.ty, self@.human),
    {
        self.serialize_scalar(Variant::Double(bits))
    }

    /// A character is written as the string that holds it.
    pub fn serialize_char(&self, v: char) -> (r: Result<Variant, Error>)
        ensures
            outcome(r) == encode(Data::Char(v), self@.ty, self@.human),
    {
        self.serialize_scalar(Variant::Str(char_to_string(v)))
    }

    pub fn serialize_str(&self, v: &str) -> (r: Result<Variant, Error>)
        ensures
            outcome(r) == encode(Data::Str(v@), self@.ty, self@.human),
    {
        self.serialize_scalar(Variant::Str(String::from_str(v)))
    }

    pub fn serialize_bytes(&self, v: &[u8]) -> (r: Result<Variant, Error>)
        ensures
            outcome(r) == encode(Data::Bytes(v@), self@.ty, self@.human),
    {
        self.serialize_scalar(Variant::array_from_fixed_array(v))
    }

    /// The absent optional value: the empty maybe of the type expected of its
    /// child, of `v` where none is.
    pub fn serialize_none(&self) -> (r: Result<Variant, Error>)
        ensures
            outcome(r) == encode(Data::Absent, self@.ty, self@.human),
    {
        match self.check_type_is(&VariantTy::maybe()) {
            Err(e) => Err(e),
            Ok(()) => match self.child_type_or_default() {
                Err(e) => Err(e),
                Ok(ty) => {
                    if ty.is_definite() {
                        self.box_if_needed(Variant::from_none(ty))
                    } else {
                        Err(Error::UnsupportedType(ty))
                    }
                },
            },
        }
    }

    /// The optional value that holds `value`.
    pub fn serialize_some(&self, value: &Datum) -> (r: Result<Variant, Error>)
        ensures
            outcome(r) == encode(Data::Present(Box::new(value@)), self@.ty, self@.human),
        decreases value, 2nat,
    {
        match self.check_type_is(&VariantTy::maybe()) {
            Err(e) => Err(e),
            Ok(()) => match self.child_serializer() {
                Err(e) => Err(e),
                Ok(child) => match value.serialize(&child) {
                    Err(e) => Err(e),
                    Ok(v) => self.box_if_needed(Variant::from_some(v)),
                },
            },
        }
    }

    pub fn serialize_unit(&self) -> (r: Result<Variant, Error>)
        ensures
            outcome(r) == encode(Data::Unit, self@.ty, self@.human),
    {
        self.serialize_scalar(Variant::unit())
    }

    pub fn serialize_unit_struct(&self, name: &str) -> (r: Result<Variant, Error>)
        ensures
            outcome(r) == encode(Data::UnitStruct(name@), self@.ty, self@.human),
    {
        self.serialize_scalar(Variant::unit())
    }

    /// A bare discriminant: its symbolic name in human-readable mode or where
    /// a string is expected, else its index.
    pub fn serialize_unit_variant(&self, name: &str, variant_index: u32, variant: &str) -> (r:
        Result<Variant, Error>)
        ensures
            outcome(r) == encode(
                Data::UnitVariant { name: name@, index: variant_index, variant: variant@ },
                self@.ty,
                self@.human,
            ),
    {
        let wants_index = match &self.ty {
            Some(VariantTy::Basic(BasicTy::Uint32)) => true,
            _ => false,
        };
        let wants_name = match &self.ty {
            Some(VariantTy::Basic(BasicTy::Str)) => true,
            _ => false,
        };
        if (self.humanize && !wants_index) || wants_name {
            self.serialize_str(variant)
        } else {
            self.serialize_u32(variant_index)
        }
    }

    /// A named wrapper is written as what it wraps.
    pub fn serialize_newtype_struct(&self, name: &str, value: &Datum) -> (r: Result<Variant, Error>)
        ensures
            outcome(r) == encode(Data::Newtype(name@, Box::new(value@)), self@.ty, self@.human),
        decreases value, 2nat,
    {
        value.serialize(self)
    }

    /// Starts a sequence of the announced length.
    pub fn serialize_seq(&self, len: Option<usize>) -> (r: Result<
        BoxedSerializer<SeqSerializer>,
        Error,
    >)
        ensures
            match check(self@.ty, self@.ty matches Some(t) && accepts_list(t), any_array()) {
                Err(e) => r matches Err(x) && x@ == e,
                Ok(()) => match seq_new(seq_target(self@.ty), self@.human, size_model(len)) {
                    Err(e) => r matches Err(x) && x@ == e,
                    Ok(m) => r matches Ok(b) && b.inner@ == m && b.ser@ == self@,
                },
            },
    {
        let admits = |exp: &VariantTy| -> (b: bool)
            ensures
                b == accepts_list(exp@),
            {
                exp.is_array() || exp.is_tuple() || exp.is_dict_entry()
            };
        let checked = self.check_type(admits, &VariantTy::array());
        match checked {
            Err(e) => Err(e),
            Ok(()) => match SeqSerializer::for_seq(self.clone(), len) {
                Err(e) => Err(e),
                Ok(seq) => Ok(BoxedSerializer::new(self.clone(), seq)),
            },
        }
    }

    /// Starts a tuple of `len` members.
    pub fn serialize_tuple(&self, len: usize) -> (r: Result<BoxedSerializer<SeqSerializer>, Error>)
        ensures
            match check(self@.ty, self@.ty matches Some(t) && accepts_list(t), Ty::AnyTuple) {
                Err(e) => r matches Err(x) && x@ == e,
                Ok(()) => match seq_new(
                    tuple_target(self@.ty),
                    self@.human,
                    Some(len as nat),
                ) {
                    Err(e) => r matches Err(x) && x@ == e,
                    Ok(m) => r matches Ok(b) && b.inner@ == m && b.ser@ == self@,
                },
            },
    {
        let admits = |exp: &VariantTy| -> (b: bool)
            ensures
                b == accepts_list(exp@),
            {
                exp.is_tuple() || exp.is_dict_entry() || exp.is_array()
            };
        let checked = self.check_type(admits, &VariantTy::tuple());
        match checked {
            Err(e) => Err(e),
            Ok(()) => match SeqSerializer::for_tuple(self.clone(), Some(len)) {
                Err(e) => Err(e),
                Ok(tup) => Ok(BoxedSerializer::new(self.clone(), tup)),
            },
        }
    }

    /// Starts a named tuple of `len` members.
    pub fn serialize_tuple_struct(&self, name: &str, len: usize) -> (r: Result<
        BoxedSerializer<SeqSerializer>,
        Error,
    >)
        ensures
            match seq_new(tuple_target(self@.ty), self@.human, Some(len as nat)) {
                Err(e) => r matches Err(x) && x@ == e,
                Ok(m) => r matches Ok(b) && b.inner@ == m && b.ser@ == self@,
            },
    {
        match SeqSerializer::for_tuple(self.clone(), Some(len)) {
            Err(e) => Err(e),
            Ok(s) => Ok(BoxedSerializer::new(self.clone(), s)),
        }
    }

    /// Starts a map of the announced length.
    pub fn serialize_map(&self, len: Option<usize>) -> (r: Result<
        BoxedSerializer<MapSerializer>,
        Error,
    >)
        ensures
            match map_types(self@.ty) {
                Err(e) => r matches Err(x) && x@ == e,
                Ok((k, v)) => r matches Ok(b) && b.inner@ == map_new(
                    k,
                    v,
                    self@.human,
                    size_model(len),
                ) && b.ser@ == self@,
            },
    {
        let (k, v) = match self.child_type() {
            Err(e) => {
                return Err(e);
            },
            Ok(None) => (None, None),
            Ok(Some(ty)) => {
                if is_any_entry(&ty) {
                    (None, None)
                } else {
                    match ty {
                        VariantTy::DictEntry(key, value) => (Some(VariantTy::Basic(key)), Some(*value)),
                        _ => {
                            return Err(
                                Error::Mismatch { actual: VariantTy::dictionary(), expected: ty },
                            );
                        },
                    }
                }
            },
        };
        Ok(
            BoxedSerializer::new(
                self.clone(),
                MapSerializer::new(self.change_type(k), self.change_type(v), len),
            ),
        )
    }

    /// Starts a named aggregate of `len` fields: a map of its field names in
    /// human-readable mode unless a tuple is expected, and whenever a
    /// dictionary is expected; else a tuple in declared order.
    pub fn serialize_struct(&self, name: &str, len: usize) -> (r: Result<
        BoxedSerializer<StructSerializer>,
        Error,
    >)
        ensures
            struct_as_map(self@.ty, self@.human) ==> (r matches Ok(b) && b.inner@
                == StructModel::AsMap(
                map_new(Some(Ty::Basic(BasicTy::Str)), None, self@.human, Some(len as nat)),
            ) && b.ser@ == self@),
            !struct_as_map(self@.ty, self@.human) ==> (match seq_new(
                tuple_target(self@.ty),
                self@.human,
                Some(len as nat),
            ) {
                Err(e) => r matches Err(x) && x@ == e,
                Ok(m) => r matches Ok(b) && b.inner@ == StructModel::AsTuple(m) && b.ser@ == self@,
            }),
    {
        let is_map = match &self.ty {
            Some(VariantTy::Array(e)) => e.is_dict_entry(),
            _ => false,
        };
        let is_tuple = match &self.ty {
            Some(t) => t.is_tuple(),
            None => false,
        };
        if (self.humanize && !is_tuple) || is_map {
            let map = MapSerializer::new(
                self.change_type(Some(VariantTy::string())),
                self.change_type(None),
                Some(len),
            );
            Ok(BoxedSerializer::new(self.clone(), StructSerializer::AsMap(map)))
        } else {
            match SeqSerializer::for_tuple(self.clone(), Some(len)) {
                Err(e) => Err(e),
                Ok(s) => Ok(BoxedSerializer::new(self.clone(), StructSerializer::AsTuple(s))),
            }
        }
    }
}

/// The types expected of the members of a list that are still to come.
pub enum SeqElement {
    Tuple { iter: VariantTyTupleIterator, n_items: usize, size: Option<usize> },
    Generic { elem: Option<VariantTy>, size: Option<usize> },
}

impl View for SeqElement {
    type V = Plan;

    open spec fn view(&self) -> Plan {
        match self {
            SeqElement::Tuple { iter, n_items, size } => Plan::Tuple {
                remaining: iter@,
                n_items: *n_items as nat,
                size: size_model(*size),
            },
            SeqElement::Generic { elem, size } => Plan::Generic {
                elem: ty_model(*elem),
                size: size_model(*size),
            },
        }
    }
}

impl SeqElement {
    /// The plan for the members of a list built under `ty`.
    pub fn new(ty: &Option<VariantTy>, size: Option<usize>) -> (r: Result<Self, Error>)
        ensures
            match plan_new(ty_model(*ty), size_model(size)) {
                Ok(p) => r matches Ok(x) && x@ == p,
                Err(e) => r matches Err(x) && x@ == e,
            },
    {
        match ty {
            None => Ok(SeqElement::Generic { elem: None, size }),
            Some(ty) => {
                if ty.is_variant() || is_any_array(ty) {
                    return Ok(SeqElement::Generic { elem: None, size });
                }
                match ty {
                    VariantTy::AnyTuple => Ok(SeqElement::Generic { elem: None, size }),
                    VariantTy::Tuple(_) | VariantTy::DictEntry(_, _) => {
                        match VariantTyTupleIterator::new(ty) {
                            Err(e) => Err(e),
                            Ok(iter) => {
                                let n_items = iter.len();
                                match size {
                                    Some(s) => {
                                        if s != n_items {
                                            return Err(
                                                Error::LengthMismatch {
                                                    actual: s,
                                                    expected: n_items,
                                                },
                                            );
                                        }
                                    },
                                    None => {},
                                }
                                Ok(SeqElement::Tuple { iter, n_items, size })
                            },
                        }
                    },
                    VariantTy::Array(e) => Ok(
                        SeqElement::Generic { elem: Some((**e).clone()), size },
                    ),
                    _ => Err(
                        Error::Mismatch { actual: ty.clone(), expected: VariantTy::AnyTuple },
                    ),
                }
            },
        }
    }

    /// The type expected of the next member.
    pub fn type_(&mut self) -> (r: Result<Option<VariantTy>, Error>)
        ensures
            match plan_next(old(self)@) {
                Ok((t, p)) => r matches Ok(x) && ty_model(x) == t && final(self)@ == p,
                Err(e) => r matches Err(x) && x@ == e && final(self)@ == old(self)@,
            },
    {
        match self {
            SeqElement::Tuple { iter, n_items, size } => match iter.next() {
                Some(t) => Ok(Some(t)),
                None => {
                    let announced = match size {
                        Some(s) => *s,
                        None => 0,
                    };
                    let over = if *n_items < usize::MAX {
                        *n_items + 1
                    } else {
                        *n_items
                    };
                    Err(
                        Error::LengthMismatch {
                            actual: if announced >= over {
                                announced
                            } else {
                                over
                            },
                            expected: *n_items,
                        },
                    )
                },
            },
            SeqElement::Generic { elem, size } => Ok(copy_ty(elem)),
        }
    }

    /// Whether a list of `len` members is complete.
    pub fn end(self, len: usize) -> (r: Result<(), Error>)
        ensures
            verdict(r) == plan_end(self@, len as nat),
    {
        match self {
            SeqElement::Tuple { iter, n_items, size } => {
                let left = iter.len();
                if left == 0 {
                    Ok(())
                } else {
                    Err(
                        Error::LengthMismatch {
                            actual: if n_items >= left {
                                n_items - left
                            } else {
                                0
                            },
                            expected: n_items,
                        },
                    )
                }
            },
            SeqElement::Generic { elem, size } => match size {
                Some(s) => if s != len {
                    Err(Error::LengthMismatch { actual: len, expected: s })
                } else {
                    Ok(())
                },
                None => Ok(()),
            },
        }
    }
}

/// A sequence or a tuple under construction.
pub struct SeqSerializer {
    pub ser: Serializer,
    pub elem: SeqElement,
    pub variants: Vec<Variant>,
}

impl View for SeqSerializer {
    type V = SeqModel;

    open spec fn view(&self) -> SeqModel {
        SeqModel {
            ty: self.ser@.ty,
            human: self.ser@.human,
            plan: self.elem@,
            variants: values(self.variants@),
        }
    }
}

impl SeqSerializer {
    fn new(ser: Serializer, size: Option<usize>) -> (r: Result<Self, Error>)
        ensures
            match seq_new(ser@.ty, ser@.human, size_model(size)) {
                Ok(m) => r matches Ok(x) && x@ == m,
                Err(e) => r matches Err(x) && x@ == e,
            },
    {
        match SeqElement::new(&ser.ty, size) {
            Err(e) => Err(e),
            Ok(elem) => {
                let r = Self { elem, variants: Vec::new(), ser };
                assert(r@.variants =~= Seq::<Value>::empty());
                Ok(r)
            },
        }
    }

    /// A tuple under construction: where nothing or `v` is expected, any
    /// tuple is.
    pub fn for_tuple(ser: Serializer, size: Option<usize>) -> (r: Result<Self, Error>)
        ensures
            match seq_new(tuple_target(ser@.ty), ser@.human, size_model(size)) {
                Ok(m) => r matches Ok(x) && x@ == m,
                Err(e) => r matches Err(x) && x@ == e,
            },
    {
        let ser = match &ser.ty {
            None => ser.change_type(Some(VariantTy::tuple())),
            Some(VariantTy::Variant) => ser.change_type(Some(VariantTy::tuple())),
            Some(_) => ser,
        };
        Self::new(ser, size)
    }

    /// A sequence under construction: where `v` is expected, its type is
    /// inferred as where nothing is.
    pub fn for_seq(ser: Serializer, size: Option<usize>) -> (r: Result<Self, Error>)
        ensures
            match seq_new(seq_target(ser@.ty), ser@.human, size_model(size)) {
                Ok(m) => r matches Ok(x) && x@ == m,
                Err(e) => r matches Err(x) && x@ == e,
            },
    {
        let ser = match &ser.ty {
            Some(VariantTy::Variant) => ser.change_type(None),
            _ => ser,
        };
        Self::new(ser, size)
    }

    /// Encodes one more member under the type that the plan expects of it.
    pub fn serialize_element(&mut self, value: &Datum) -> (r: Result<(), Error>)
        ensures
            final(self)@ == seq_after(old(self)@, value@),
            match seq_step(old(self)@, value@) {
                Ok(m) => r is Ok,
                Err(e) => r matches Err(x) && x@ == e,
            },
        decreases value, 2nat,
    {
        let ty = match self.elem.type_() {
            Err(e) => {
                return Err(e);
            },
            Ok(ty) => ty,
        };
        let ser = self.ser.change_type(ty);
        match value.serialize(&ser) {
            Err(e) => Err(e),
            Ok(v) => {
                self.variants.push(v);
                assert(self@.variants =~= old(self)@.variants.push(v@));
                Ok(())
            },
        }
    }

    /// The value that the members make.
    pub fn end(self) -> (r: Result<Variant, Error>)
        ensures
            outcome(r) == seq_end(self@),
    {
        let len = self.variants.len();
        match self.elem.end(len) {
            Err(e) => {
                return Err(e);
            },
            Ok(()) => {},
        }
        match self.ser.ty {
            None => Ok(
                VariantList::with_variants(self.variants, VariantTy::Any).to_tuple_or_array(),
            ),
            Some(ty) => {
                if is_any_array(&ty) || ty.is_variant() {
                    return Ok(infer_array(self.variants));
                }
                match ty {
                    VariantTy::Array(e) => {
                        if !e.is_definite() {
                            Err(Error::UnsupportedType(VariantTy::Array(e)))
                        } else if all_have_type(&self.variants, &e) {
                            Ok(Variant::array_from_iter_with_type(*e, self.variants))
                        } else {
                            Err(Error::InconsistentTypes)
                        }
                    },
                    VariantTy::DictEntry(k, v) => {
                        let mut variants = self.variants;
                        if variants.len() == 2 && variants[0].type_().is_basic() {
                            let ghost all = values(variants@);
                            let value = variants.pop().unwrap();
                            let key = variants.pop().unwrap();
                            assert(key@ == all[0] && value@ == all[1]);
                            Ok(Variant::from_dict_entry(key, value))
                        } else {
                            Err(Error::UnsupportedType(VariantTy::DictEntry(k, v)))
                        }
                    },
                    VariantTy::Tuple(items) => Ok(Variant::tuple_from_iter(self.variants)),
                    VariantTy::AnyTuple => Ok(Variant::tuple_from_iter(self.variants)),
                    other => Err(Error::UnsupportedType(other)),
                }
            },
        }
    }
}

/// The array of `items` whose element type is inferred.
fn infer_array(items: Vec<Variant>) -> (r: Variant)
    ensures
        r@ == open_array(values(items@)),
{
    VariantList::with_variants(items, VariantTy::Variant).to_array()
}

/// Whether every value of `items` declares the type `ty`.
fn all_have_type(items: &Vec<Variant>, ty: &VariantTy) -> (b: bool)
    ensures
        b == all_of_type(values(items@), ty@),
{
    let mut i: usize = 0;
    while i < items.len()
        invariant
            i <= items.len(),
            forall|j: int| 0 <= j < i ==> type_of(#[trigger] values(items@)[j]) == ty@,
        decreases items.len() - i,
    {
        if !items[i].type_().equals(ty) {
            assert(type_of(values(items@)[i as int]) != ty@);
            return false;
        }
        i += 1;
    }
    true
}

/// A dictionary under construction.
pub struct MapSerializer {
    pub ser_key: Serializer,
    pub ser_value: Serializer,
    pub keys: Vec<Variant>,
    pub values: Vec<Variant>,
    pub size: Option<usize>,
}

impl View for MapSerializer {
    type V = MapModel;

    open spec fn view(&self) -> MapModel {
        MapModel {
            key_ty: self.ser_key@.ty,
            value_ty: self.ser_value@.ty,
            key_human: self.ser_key@.human,
            human: self.ser_value@.human,
            keys: values(self.keys@),
            values: values(self.values@),
            size: size_model(self.size),
        }
    }
}

impl MapSerializer {
    /// An empty dictionary under construction, whose keys are encoded by
    /// `ser_key` and whose values by `ser_value`.
    pub fn new(ser_key: Serializer, ser_value: Serializer, size: Option<usize>) -> (r: Self)
        ensures
            r@ == (MapModel {
                key_ty: ser_key@.ty,
                value_ty: ser_value@.ty,
                key_human: ser_key@.human,
                human: ser_value@.human,
                keys: Seq::empty(),
                values: Seq::empty(),
                size: size_model(size),
            }),
    {
        let r = Self { ser_key, ser_value, keys: Vec::new(), values: Vec::new(), size };
        assert(r@.keys =~= Seq::<Value>::empty());
        assert(r@.values =~= Seq::<Value>::empty());
        r
    }

    /// Encodes one more key.
    pub fn serialize_key(&mut self, key: &Datum) -> (r: Result<(), Error>)
        ensures
            match map_key_step(old(self)@, key@) {
                Ok(m) => r is Ok && final(self)@ == m,
                Err(e) => r matches Err(x) && x@ == e && final(self)@ == old(self)@,
            },
        decreases key, 2nat,
    {
        match key.serialize(&self.ser_key) {
            Err(e) => Err(e),
            Ok(k) => {
                self.keys.push(k);
                assert(self@.keys =~= old(self)@.keys.push(k@));
                Ok(())
            },
        }
    }

    /// Encodes one more value.
    pub fn serialize_value(&mut self, value: &Datum) -> (r: Result<(), Error>)
        ensures
            match map_value_step(old(self)@, value@) {
                Ok(m) => r is Ok && final(self)@ == m,
                Err(e) => r matches Err(x) && x@ == e && final(self)@ == old(self)@,
            },
        decreases value, 2nat,
    {
        match value.serialize(&self.ser_value) {
            Err(e) => Err(e),
            Ok(v) => {
                self.values.push(v);
                assert(self@.values =~= old(self)@.values.push(v@));
                Ok(())
            },
        }
    }

    /// Encodes one more entry: its key, then its value.
    pub fn serialize_entry(&mut self, key: &Datum, value: &Datum) -> (r: Result<(), Error>)
        ensures
            match map_key_step(old(self)@, key@) {
                Err(e) => r matches Err(x) && x@ == e && final(self)@ == old(self)@,
                Ok(m1) => match map_value_step(m1, value@) {
                    Err(e) => r matches Err(x) && x@ == e && final(self)@ == m1,
                    Ok(m) => r is Ok && final(self)@ == m,
                },
            },
    {
        match self.serialize_key(key) {
            Err(e) => Err(e),
            Ok(()) => self.serialize_value(value),
        }
    }

    /// Encodes one more field of a named aggregate, keyed by its name.
    pub fn serialize_field(&mut self, key: &str, value: &Datum) -> (r: Result<(), Error>)
        ensures
            final(self)@ == named_after(old(self)@, key@, value@),
            match named_step(old(self)@, key@, value@) {
                Ok(m) => r is Ok,
                Err(e) => r matches Err(x) && x@ == e,
            },
        decreases value, 3nat,
    {
        match self.ser_key.serialize_str(key) {
            Err(e) => Err(e),
            Ok(k) => {
                self.keys.push(k);
                assert(self@.keys =~= old(self)@.keys.push(k@));
                self.serialize_value(value)
            },
        }
    }

    /// The dictionary that the entries make.
    pub fn end(self) -> (r: Result<Variant, Error>)
        ensures
            outcome(r) == map_end(self@),
    {
        let n = self.values.len();
        match self.size {
            Some(expected) => {
                if expected != n {
                    return Err(Error::LengthMismatch { actual: n, expected });
                }
            },
            None => {},
        }
        if self.keys.len() != n {
            return Err(Error::LengthMismatch { actual: n, expected: self.keys.len() });
        }
        let key_fallback = match self.ser_key.ty {
            Some(t) => t,
            None => VariantTy::string(),
        };
        let value_fallback = match self.ser_value.ty {
            Some(t) => t,
            None => VariantTy::Variant,
        };
        let keys = VariantList::with_variants(self.keys, key_fallback);
        let vals = VariantList::with_variants(self.values, value_fallback);
        let kind = match &keys.elem_ty {
            None => {
                return Err(Error::InconsistentTypes);
            },
            Some(VariantTy::Basic(k)) => *k,
            Some(t) => {
                return Err(Error::UnsupportedType(t.clone()));
            },
        };
        let entry = VariantTy::DictEntry(kind, Box::new(vals.elem_type()));
        if !entry.is_definite() {
            return Err(Error::UnsupportedType(VariantTy::Array(Box::new(entry))));
        }
        let boxed = vals.elem_ty.is_none();
        let ghost all_keys = keys.items();
        let ghost all_vals = vals.spec_iter();
        let mut ordered: Vec<Variant> = Vec::new();
        let mut i: usize = 0;
        while i < n
            invariant
                i <= n,
                n == keys.variants.len(),
                n == vals.variants.len(),
                all_keys == keys.items(),
                all_vals == vals.spec_iter(),
                boxed == (vals.elem_ty is None),
                keys.consistent(),
                keys.elem_ty == Some(VariantTy::Basic(kind)),
                ordered.len() == i,
                forall|j: int|
                    0 <= j < i ==> (#[trigger] ordered[j])@ == entries_of(all_keys, all_vals)[j],
            decreases n - i,
        {
            let k = keys.variants[i].clone();
            let v = vals.variants[i].clone();
            let v = if boxed {
                Variant::from_variant(v)
            } else {
                v
            };
            proof {
                assert(k@ == all_keys[i as int]);
                assert(v@ == all_vals[i as int]);
                assert(type_of(keys.items()[i as int]) == Ty::Basic(kind));
            }
            ordered.push(Variant::from_dict_entry(k, v));
            i += 1;
        }
        assert(values(ordered@) =~= entries_of(all_keys, all_vals));
        proof {
            assert forall|a: int| 0 <= a < n implies type_of(
                #[trigger] values(ordered@)[a],
            ) == entry@ by {
                let e = values(ordered@)[a];
                assert(e == entries_of(all_keys, all_vals)[a]);
                assert(e == Value::DictEntry(Box::new(all_keys[a]), Box::new(all_vals[a])));
                assert(type_of(keys.items()[a]) == Ty::Basic(kind));
                if vals.elem_ty is Some {
                    assert(all_vals[a] == vals.items()[a]);
                    assert(type_of(vals.items()[a]) == vals.spec_elem_type());
                } else {
                    assert(all_vals[a] == Value::Boxed(Box::new(vals.items()[a])));
                }
                assert(type_of(all_vals[a]) == vals.spec_elem_type());
                assert(type_of(e) == Ty::DictEntry(
                    key_kind(type_of(all_keys[a])),
                    Box::new(type_of(all_vals[a])),
                ));
            }
        }
        Ok(Variant::array_from_iter_with_type(entry, ordered))
    }
}

/// One more field for a dictionary under construction: its name as the key,
/// then its value.
pub open spec fn named_step(m: MapModel, name: Seq<char>, value: Data) -> Result<MapModel, Failure> {
    match scalar(m.key_ty, Value::Str(name)) {
        Err(e) => Err(e),
        Ok(k) => map_value_step(
            MapModel {
                key_ty: m.key_ty,
                value_ty: m.value_ty,
                key_human: m.key_human,
                human: m.human,
                keys: m.keys.push(k),
                values: m.values,
                size: m.size,
            },
            value,
        ),
    }
}

/// The dictionary under construction after one more field was offered,
/// whether it was taken or not: a field whose value cannot be encoded leaves
/// its name behind.
pub open spec fn named_after(m: MapModel, name: Seq<char>, value: Data) -> MapModel {
    match scalar(m.key_ty, Value::Str(name)) {
        Err(_) => m,
        Ok(k) => {
            let keyed = MapModel {
                key_ty: m.key_ty,
                value_ty: m.value_ty,
                key_human: m.key_human,
                human: m.human,
                keys: m.keys.push(k),
                values: m.values,
                size: m.size,
            };
            match map_value_step(keyed, value) {
                Ok(next) => next,
                Err(_) => keyed,
            }
        },
    }
}

/// Mathematical model of a named aggregate under construction.
pub enum StructModel {
    AsMap(MapModel),
    AsTuple(SeqModel),
}

/// A named aggregate under construction: a map of its field names, or a tuple
/// of its fields in declared order.
pub enum StructSerializer {
    AsMap(MapSerializer),
    AsTuple(SeqSerializer),
}

impl View for StructSerializer {
    type V = StructModel;

    open spec fn view(&self) -> StructModel {
        match self {
            StructSerializer::AsMap(m) => StructModel::AsMap(m@),
            StructSerializer::AsTuple(s) => StructModel::AsTuple(s@),
        }
    }
}

/// One more field for a named aggregate under construction.
pub open spec fn struct_step(m: StructModel, name: Seq<char>, value: Data) -> Result<
    StructModel,
    Failure,
> {
    match m {
        StructModel::AsMap(map) => match named_step(map, name, value) {
            Ok(x) => Ok(StructModel::AsMap(x)),
            Err(e) => Err(e),
        },
        StructModel::AsTuple(seq) => match seq_step(seq, value) {
            Ok(x) => Ok(StructModel::AsTuple(x)),
            Err(e) => Err(e),
        },
    }
}

/// The named aggregate under construction after one more field was offered,
/// whether it was taken or not.
pub open spec fn struct_after(m: StructModel, name: Seq<char>, value: Data) -> StructModel {
    match m {
        StructModel::AsMap(map) => StructModel::AsMap(named_after(map, name, value)),
        StructModel::AsTuple(seq) => StructModel::AsTuple(seq_after(seq, value)),
    }
}

/// The value that a complete named aggregate makes.
pub open spec fn struct_end(m: StructModel) -> Result<Value, Failure> {
    match m {
        StructModel::AsMap(map) => map_end(map),
        StructModel::AsTuple(seq) => seq_end(seq),
    }
}

impl StructSerializer {
    /// Encodes one more field.
    pub fn serialize_field(&mut self, key: &str, value: &Datum) -> (r: Result<(), Error>)
        ensures
            final(self)@ == struct_after(old(self)@, key@, value@),
            match struct_step(old(self)@, key@, value@) {
                Ok(m) => r is Ok,
                Err(e) => r matches Err(x) && x@ == e,
            },
        decreases value, 4nat,
    {
        match self {
            StructSerializer::AsMap(s) => s.serialize_field(key, value),
            StructSerializer::AsTuple(s) => s.serialize_element(value),
        }
    }

    /// The value that the fields make.
    pub fn end(self) -> (r: Result<Variant, Error>)
        ensures
            outcome(r) == struct_end(self@),
    {
        match self {
            StructSerializer::AsMap(s) => s.end(),
            StructSerializer::AsTuple(s) => s.end(),
        }
    }
}

/// A container under construction together with the encoder that began it:
/// at the end the boxing rule of that encoder is applied.
pub struct BoxedSerializer<S> {
    pub inner: S,
    pub ser: Serializer,
}

impl<S> BoxedSerializer<S> {
    pub fn new(ser: Serializer, inner: S) -> (r: Self)
        ensures
            r.inner == inner,
            r.ser == ser,
    {
        Self { inner, ser }
    }
}

impl BoxedSerializer<SeqSerializer> {
    /// Encodes one more member.
    pub fn serialize_element(&mut self, value: &Datum) -> (r: Result<(), Error>)
        ensures
            final(self).ser == old(self).ser,
            final(self).inner@ == seq_after(old(self).inner@, value@),
            match seq_step(old(self).inner@, value@) {
                Ok(m) => r is Ok,
                Err(e) => r matches Err(x) && x@ == e,
            },
        decreases value, 3nat,
    {
        self.inner.serialize_element(value)
    }

    /// The value that the members make, under the boxing rule.
    pub fn end(self) -> (r: Result<Variant, Error>)
        ensures
            outcome(r) == finish_seq(Ok(self.inner@), self.ser@.ty),
    {
        match self.inner.end() {
            Err(e) => Err(e),
            Ok(v) => self.ser.box_if_needed(v),
        }
    }
}

impl BoxedSerializer<MapSerializer> {
    /// Encodes one more key.
    pub fn serialize_key(&mut self, key: &Datum) -> (r: Result<(), Error>)
        ensures
            final(self).ser == old(self).ser,
            match map_key_step(old(self).inner@, key@) {
                Ok(m) => r is Ok && final(self).inner@ == m,
                Err(e) => r matches Err(x) && x@ == e && final(self).inner@ == old(self).inner@,
            },
        decreases key, 3nat,
    {
        self.inner.serialize_key(key)
    }

    /// Encodes one more value.
    pub fn serialize_value(&mut self, value: &Datum) -> (r: Result<(), Error>)
        ensures
            final(self).ser == old(self).ser,
            match map_value_step(old(self).inner@, value@) {
                Ok(m) => r is Ok && final(self).inner@ == m,
                Err(e) => r matches Err(x) && x@ == e && final(self).inner@ == old(self).inner@,
            },
        decreases value, 3nat,
    {
        self.inner.serialize_value(value)
    }

    /// Encodes one more entry: its key, then its value.
    pub fn serialize_entry(&mut self, key: &Datum, value: &Datum) -> (r: Result<(), Error>)
        ensures
            final(self).ser == old(self).ser,
            match map_key_step(old(self).inner@, key@) {
                Err(e) => r matches Err(x) && x@ == e && final(self).inner@ == old(self).inner@,
                Ok(m1) => match map_value_step(m1, value@) {
                    Err(e) => r matches Err(x) && x@ == e && final(self).inner@ == m1,
                    Ok(m) => r is Ok && final(self).inner@ == m,
                },
            },
    {
        self.inner.serialize_entry(key, value)
    }

    /// The dictionary that the entries make, under the boxing rule.
    pub fn end(self) -> (r: Result<Variant, Error>)
        ensures
            outcome(r) == finish_map(Ok(self.inner@), self.ser@.ty),
    {
        match self.inner.end() {
            Err(e) => Err(e),
            Ok(v) => self.ser.box_if_needed(v),
        }
    }
}

impl BoxedSerializer<StructSerializer> {
    /// Encodes one more field.
    pub fn serialize_field(&mut self, key: &str, value: &Datum) -> (r: Result<(), Error>)
        ensures
            final(self).ser == old(self).ser,
            final(self).inner@ == struct_after(old(self).inner@, key@, value@),
            match struct_step(old(self).inner@, key@, value@) {
                Ok(m) => r is Ok,
                Err(e) => r matches Err(x) && x@ == e,
            },
        decreases value, 5nat,
    {
        self.inner.serialize_field(key, value)
    }

    /// The value that the fields make, under the boxing rule.
    pub fn end(self) -> (r: Result<Variant, Error>)
        ensures
            outcome(r) == (match struct_end(self.inner@) {
                Err(e) => Err(e),
                Ok(v) => boxed_if_needed(self.ser@.ty, v),
            }),
    {
        match self.inner.end() {
            Err(e) => Err(e),
            Ok(v) => self.ser.box_if_needed(v),
        }
    }
}

impl Datum {
    /// Encodes this value under the type that `serializer` expects.
    #[verifier::loop_isolation(false)]
    pub fn serialize(&self, serializer: &Serializer) -> (r: Result<Variant, Error>)
        ensures
            outcome(r) == encode(self@, serializer@.ty, serializer@.human),
        decreases self, 1nat,
    {
        proof {
            crate::datum::lemma_datum_members(*self);
        }
        match self {
            Datum::Bool(v) => serializer.serialize_bool(*v),
            Datum::I8(v) => serializer.serialize_i8(*v),
            Datum::I16(v) => serializer.serialize_i16(*v),
            Datum::I32(v) => serializer.serialize_i32(*v),
            Datum::I64(v) => serializer.serialize_i64(*v),
            Datum::U8(v) => serializer.serialize_u8(*v),
            Datum::U16(v) => serializer.serialize_u16(*v),
            Datum::U32(v) => serializer.serialize_u32(*v),
            Datum::U64(v) => serializer.serialize_u64(*v),
            Datum::F64(bits) => serializer.serialize_f64(*bits),
            Datum::Char(c) => serializer.serialize_char(*c),
            Datum::Str(s) => serializer.serialize_str(s.as_str()),
            Datum::Bytes(b) => serializer.serialize_bytes(b.as_slice()),
            Datum::Absent => serializer.serialize_none(),
            Datum::Present(inner) => serializer.serialize_some(inner),
            Datum::Unit => serializer.serialize_unit(),
            Datum::UnitStruct(name) => serializer.serialize_unit_struct(name.as_str()),
            Datum::UnitVariant { name, index, variant } => serializer.serialize_unit_variant(
                name.as_str(),
                *index,
                variant.as_str(),
            ),
            Datum::Newtype(name, inner) => serializer.serialize_newtype_struct(
                name.as_str(),
                inner,
            ),
            Datum::Sequence(items) => {
                match serializer.serialize_seq(Some(items.len())) {
                    Err(e) => Err(e),
                    Ok(state) => serialize_members(items, state, Ghost(*self)),
                }
            },
            Datum::Tuple(items) => {
                match serializer.serialize_tuple(items.len()) {
                    Err(e) => Err(e),
                    Ok(state) => serialize_members(items, state, Ghost(*self)),
                }
            },
            Datum::TupleStruct(name, items) => {
                match serializer.serialize_tuple_struct(name.as_str(), items.len()) {
                    Err(e) => Err(e),
                    Ok(state) => serialize_members(items, state, Ghost(*self)),
                }
            },
            Datum::Mapping(entries) => {
                match serializer.serialize_map(Some(entries.len())) {
                    Err(e) => Err(e),
                    Ok(state) => serialize_entries(entries, state, Ghost(*self)),
                }
            },
            Datum::Struct(name, fields) => {
                match serializer.serialize_struct(name.as_str(), fields.len()) {
                    Err(e) => Err(e),
                    Ok(state) => serialize_fields(fields, state, Ghost(*self)),
                }
            },
        }
    }
}

/// Encodes `entries` one by one into the dictionary that `begun` began, and
/// ends it.
#[verifier::loop_isolation(false)]
fn serialize_entries(
    entries: &Vec<(Datum, Datum)>,
    begun: BoxedSerializer<MapSerializer>,
    Ghost(parent): Ghost<Datum>,
) -> (r: Result<Variant, Error>)
    requires
        parent matches Datum::Mapping(v) && v == *entries,
    ensures
        outcome(r) == finish_map(
            fill_map(crate::datum::pairs_of(entries@), entries.len() as nat, begun.inner@),
            begun.ser@.ty,
        ),
    decreases parent, 0nat,
{
    let mut state = begun;
    let ghost start = state.inner@;
    let ghost pairs = crate::datum::pairs_of(entries@);
    let mut i: usize = 0;
    while i < entries.len()
        invariant
            i <= entries.len(),
            state.ser == begun.ser,
            fill_map(pairs, i as nat, start) == Ok::<MapModel, Failure>(state.inner@),
        decreases entries.len() - i,
    {
        assert(pairs[i as int] == (entries[i as int].0@, entries[i as int].1@));
        match state.serialize_key(&entries[i].0) {
            Err(e) => {
                proof {
                    lemma_fill_map_fails(pairs, (i + 1) as nat, pairs.len(), start);
                }
                return Err(e);
            },
            Ok(()) => {},
        }
        match state.serialize_value(&entries[i].1) {
            Err(e) => {
                proof {
                    lemma_fill_map_fails(pairs, (i + 1) as nat, pairs.len(), start);
                }
                return Err(e);
            },
            Ok(()) => {},
        }
        i += 1;
    }
    state.end()
}

/// What the fields of a named aggregate make, from the state that began it.
pub open spec fn finish_struct(
    fields: Seq<(Seq<char>, Data)>,
    start: StructModel,
    ty: Option<Ty>,
) -> Result<Value, Failure> {
    match start {
        StructModel::AsMap(m) => finish_map(fill_named(fields, fields.len(), m), ty),
        StructModel::AsTuple(m) => finish_seq(fill_fields(fields, fields.len(), m), ty),
    }
}

/// Encodes `fields` one by one into the aggregate that `begun` began, and
/// ends it.
#[verifier::loop_isolation(false)]
fn serialize_fields(
    fields: &Vec<(String, Datum)>,
    begun: BoxedSerializer<StructSerializer>,
    Ghost(parent): Ghost<Datum>,
) -> (r: Result<Variant, Error>)
    requires
        parent matches Datum::Struct(_, v) && v == *fields,
    ensures
        outcome(r) == finish_struct(crate::datum::fields_of(fields@), begun.inner@, begun.ser@.ty),
    decreases parent, 0nat,
{
    let mut state = begun;
    let ghost start = state.inner@;
    let ghost named = crate::datum::fields_of(fields@);
    let mut i: usize = 0;
    while i < fields.len()
        invariant
            i <= fields.len(),
            state.ser == begun.ser,
            start matches StructModel::AsMap(m) ==> state.inner@ is AsMap && fill_named(
                named,
                i as nat,
                m,
            ) == Ok::<MapModel, Failure>(state.inner@->AsMap_0),
            start matches StructModel::AsTuple(m) ==> state.inner@ is AsTuple && fill_fields(
                named,
                i as nat,
                m,
            ) == Ok::<SeqModel, Failure>(state.inner@->AsTuple_0),
        decreases fields.len() - i,
    {
        assert(named[i as int] == (fields[i as int].0@, fields[i as int].1@));
        match state.serialize_field(fields[i].0.as_str(), &fields[i].1) {
            Err(e) => {
                proof {
                    match start {
                        StructModel::AsMap(m) => {
                            lemma_fill_named_fails(named, (i + 1) as nat, named.len(), m);
                        },
                        StructModel::AsTuple(m) => {
                            lemma_fill_fields_fails(named, (i + 1) as nat, named.len(), m);
                        },
                    }
                }
                return Err(e);
            },
            Ok(()) => {},
        }
        i += 1;
    }
    state.end()
}

/// Encodes `items` one by one into the list that `state` began, and ends it.
#[verifier::loop_isolation(false)]
fn serialize_members(
    items: &Vec<Datum>,
    begun: BoxedSerializer<SeqSerializer>,
    Ghost(parent): Ghost<Datum>,
) -> (r: Result<Variant, Error>)
    requires
        holds(parent, *items),
    ensures
        outcome(r) == finish_seq(
            fill_seq(crate::datum::data_of(items@), items.len() as nat, begun.inner@),
            begun.ser@.ty,
        ),
    decreases parent, 0nat,
{
    let mut state = begun;
    let ghost start = state.inner@;
    let ghost data = crate::datum::data_of(items@);
    let mut i: usize = 0;
    while i < items.len()
        invariant
            i <= items.len(),
            state.ser == begun.ser,
            fill_seq(data, i as nat, start) == Ok::<SeqModel, Failure>(state.inner@),
        decreases items.len() - i,
    {
        match state.serialize_element(&items[i]) {
            Err(e) => {
                proof {
                    lemma_fill_seq_fails(data, (i + 1) as nat, data.len(), start);
                }
                return Err(e);
            },
            Ok(()) => {},
        }
        i += 1;
    }
    state.end()
}

/// Whether `items` are the members of the sequence or tuple `parent`.
spec fn holds(parent: Datum, items: Vec<Datum>) -> bool {
    match parent {
        Datum::Sequence(v) => v == items,
        Datum::Tuple(v) => v == items,
        Datum::TupleStruct(_, v) => v == items,
        _ => false,
    }
}

/// A failure while a list is being filled is final.
pub proof fn lemma_fill_seq_fails(items: Seq<Data>, n: nat, k: nat, start: SeqModel)
    requires
        fill_seq(items, n, start) is Err,
        n <= k <= items.len(),
    ensures
        fill_seq(items, k, start) == fill_seq(items, n, start),
    decreases k - n,
{
    if n < k {
        lemma_fill_seq_fails(items, n, (k - 1) as nat, start);
    }
}

/// A failure while the fields of a tuple are being filled is final.
pub proof fn lemma_fill_fields_fails(
    fields: Seq<(Seq<char>, Data)>,
    n: nat,
    k: nat,
    start: SeqModel,
)
    requires
        fill_fields(fields, n, start) is Err,
        n <= k <= fields.len(),
    ensures
        fill_fields(fields, k, start) == fill_fields(fields, n, start),
    decreases k - n,
{
    if n < k {
        lemma_fill_fields_fails(fields, n, (k - 1) as nat, start);
    }
}

/// A failure while a dictionary is being filled is final.
pub proof fn lemma_fill_map_fails(entries: Seq<(Data, Data)>, n: nat, k: nat, start: MapModel)
    requires
        fill_map(entries, n, start) is Err,
        n <= k <= entries.len(),
    ensures
        fill_map(entries, k, start) == fill_map(entries, n, start),
    decreases k - n,
{
    if n < k {
        lemma_fill_map_fails(entries, n, (k - 1) as nat, start);
    }
}

/// A failure while the named fields of a map are being filled is final.
pub proof fn lemma_fill_named_fails(
    fields: Seq<(Seq<char>, Data)>,
    n: nat,
    k: nat,
    start: MapModel,
)
    requires
        fill_named(fields, n, start) is Err,
        n <= k <= fields.len(),
    ensures
        fill_named(fields, k, start) == fill_named(fields, n, start),
    decreases k - n,
{
    if n < k {
        lemma_fill_named_fails(fields, n, (k - 1) as nat, start);
    }
}

} // verus!

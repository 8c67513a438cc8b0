//! What holds of encoding and decoding together.

use crate::any_variant::deserializer::{
    bytes_of, decode_any, entry_parts, read_bool, read_bytes, read_char, read_f64,
    read_identifier, read_int, read_map, read_num, read_option, read_seq, read_str, read_struct, read_tuple,
    read_unit, unboxed, visit, Visited,
};
use crate::any_variant::serializer::{
    any_array, boxed_if_needed, child_ty, encode, entries_of, fill_fields, fill_map, fill_named,
    fill_seq, map_end, map_key_step, map_types, map_value_step, plan_new, plan_next, scalar,
    seq_end, seq_new, seq_step, seq_target, struct_as_map, tuple_target, MapModel, Plan, SeqModel,
};
use crate::datum::Data;
use crate::error::Failure;
use crate::util::boxed_all;
use crate::variant::{byte_values, Value};
use crate::variant_ty::{BasicTy, Ty};
use vstd::prelude::*;

verus! {

/// The value `v` in a box.
pub open spec fn in_box(v: Value) -> Value {
    Value::Boxed(Box::new(v))
}

/// Under the expected type `v`, a value is encoded as under no expected type
/// and put into a box; it fails where the encoding under no type fails.
pub proof fn lemma_variant_target_boxes(d: Data, human: bool)
    ensures
        encode(d, Some(Ty::Variant), human) == (match encode(d, None, human) {
            Ok(v) => Ok(in_box(v)),
            Err(e) => Err(e),
        }),
    decreases d,
{
    match d {
        Data::Newtype(_, inner) => {
            lemma_variant_target_boxes(*inner, human);
        },
        _ => {},
    }
}

/// Every reading goes through a box: what is read of a boxed value is what
/// is read of its payload.
pub proof fn lemma_box_is_read_through(v: Value, wanted: Ty, len: nat)
    ensures
        unboxed(in_box(v)) == unboxed(v),
        read_bool(in_box(v)) == read_bool(v),
        read_num(in_box(v), wanted) == read_num(v, wanted),
        read_f64(in_box(v)) == read_f64(v),
        read_str(in_box(v)) == read_str(v),
        read_char(in_box(v)) == read_char(v),
        read_bytes(in_box(v)) == read_bytes(v),
        read_option(in_box(v)) == read_option(v),
        read_unit(in_box(v)) == read_unit(v),
        read_seq(in_box(v)) == read_seq(v),
        read_tuple(in_box(v), len) == read_tuple(v, len),
        read_map(in_box(v)) == read_map(v),
        read_struct(in_box(v), len) == read_struct(v, len),
        read_identifier(in_box(v)) == read_identifier(v),
        visit(in_box(v)) == visit(v),
        decode_any(in_box(v)) == decode_any(v),
{
}

/// What is encoded under an expected type meets it: under `v` it is in a
/// box, and under another type it is of a subtype.
pub proof fn lemma_encode_meets_target(d: Data, expected: Ty, human: bool)
    requires
        encode(d, Some(expected), human) is Ok,
    ensures
        ({
            let v = encode(d, Some(expected), human)->Ok_0;
            if expected is Variant {
                v is Boxed
            } else {
                crate::variant_ty::subtype(crate::variant::type_of(v), expected)
            }
        }),
    decreases d,
{
    match d {
        Data::Newtype(_, inner) => {
            lemma_encode_meets_target(*inner, expected, human);
        },
        _ => {},
    }
}

/// Boxing round trip: what is encoded under the expected type `v` and then
/// read with the box read through is what is encoded under no expected type.
pub proof fn lemma_boxing_round_trip(d: Data, human: bool)
    ensures
        encode(d, None, human) matches Ok(v) ==> encode(d, Some(Ty::Variant), human) matches Ok(b)
            && unboxed(b) == unboxed(v) && decode_any(b) == decode_any(v),
        encode(d, None, human) is Err ==> encode(d, Some(Ty::Variant), human) is Err,
{
    lemma_variant_target_boxes(d, human);
    if let Ok(v) = encode(d, None, human) {
        lemma_box_is_read_through(v, Ty::Variant, 0);
    }
}

/// What is read of `v` by the requests that a value shaped like `d` makes: a
/// boolean where `d` is one, an integer of the width of `d`, an optional
/// value where `d` is one, a sequence of as many members as `d` has, each
/// read like the member of `d` in its place, and so on. Where `v` holds a
/// child for which `d` has no shape, the reading fails.
pub open spec fn read_like(d: Data, v: Value) -> Result<Data, Failure>
    decreases d, 0nat,
{
    match d {
        Data::Bool(_) => match read_bool(v) {
            Ok(b) => Ok(Data::Bool(b)),
            Err(e) => Err(e),
        },
        Data::I8(_) => match read_int(
            v,
            Ty::Basic(BasicTy::Int16),
            i8::MIN as int,
            i8::MAX as int,
        ) {
            Ok(n) => Ok(Data::I8(n as i8)),
            Err(e) => Err(e),
        },
        Data::I16(_) => match read_int(
            v,
            Ty::Basic(BasicTy::Int16),
            i16::MIN as int,
            i16::MAX as int,
        ) {
            Ok(n) => Ok(Data::I16(n as i16)),
            Err(e) => Err(e),
        },
        Data::I32(_) => match read_int(
            v,
            Ty::Basic(BasicTy::Int32),
            i32::MIN as int,
            i32::MAX as int,
        ) {
            Ok(n) => Ok(Data::I32(n as i32)),
            Err(e) => Err(e),
        },
        Data::I64(_) => match read_int(
            v,
            Ty::Basic(BasicTy::Int64),
            i64::MIN as int,
            i64::MAX as int,
        ) {
            Ok(n) => Ok(Data::I64(n as i64)),
            Err(e) => Err(e),
        },
        Data::U8(_) => match read_int(v, Ty::Basic(BasicTy::Byte), 0, u8::MAX as int) {
            Ok(n) => Ok(Data::U8(n as u8)),
            Err(e) => Err(e),
        },
        Data::U16(_) => match read_int(v, Ty::Basic(BasicTy::Uint16), 0, u16::MAX as int) {
            Ok(n) => Ok(Data::U16(n as u16)),
            Err(e) => Err(e),
        },
        Data::U32(_) => match read_int(v, Ty::Basic(BasicTy::Uint32), 0, u32::MAX as int) {
            Ok(n) => Ok(Data::U32(n as u32)),
            Err(e) => Err(e),
        },
        Data::U64(_) => match read_int(v, Ty::Basic(BasicTy::Uint64), 0, u64::MAX as int) {
            Ok(n) => Ok(Data::U64(n as u64)),
            Err(e) => Err(e),
        },
        Data::F64(_) => match read_f64(v) {
            Ok(bits) => Ok(Data::F64(bits)),
            Err(e) => Err(e),
        },
        Data::Char(_) => match read_char(v) {
            Ok(c) => Ok(Data::Char(c)),
            Err(e) => Err(e),
        },
        Data::Str(_) => match read_str(v) {
            Ok(s) => Ok(Data::Str(s)),
            Err(e) => Err(e),
        },
        Data::Bytes(_) => match read_bytes(v) {
            Ok(b) => Ok(Data::Bytes(b)),
            Err(e) => Err(e),
        },
        Data::Absent => match read_option(v) {
            Ok(None) => Ok(Data::Absent),
            Ok(Some(_)) => Err(Failure::WrongShape),
            Err(e) => Err(e),
        },
        Data::Present(inner) => match read_option(v) {
            Ok(None) => Ok(Data::Absent),
            Ok(Some(child)) => match read_like(*inner, child) {
                Ok(r) => Ok(Data::Present(Box::new(r))),
                Err(e) => Err(e),
            },
            Err(e) => Err(e),
        },
        Data::Unit => match read_unit(v) {
            Ok(()) => Ok(Data::Unit),
            Err(e) => Err(e),
        },
        Data::UnitStruct(name) => match read_unit(v) {
            Ok(()) => Ok(Data::UnitStruct(name)),
            Err(e) => Err(e),
        },
        Data::UnitVariant { name, index, variant } => match read_identifier(v) {
            Ok(Visited::Str(s)) => if s == variant {
                Ok(d)
            } else {
                Err(Failure::WrongShape)
            },
            Ok(Visited::U32(n)) => if n == index {
                Ok(d)
            } else {
                Err(Failure::WrongShape)
            },
            Ok(_) => Err(Failure::WrongShape),
            Err(e) => Err(e),
        },
        Data::Newtype(name, inner) => match read_like(*inner, v) {
            Ok(r) => Ok(Data::Newtype(name, Box::new(r))),
            Err(e) => Err(e),
        },
        Data::Sequence(items) => match read_seq(v) {
            Err(e) => Err(e),
            Ok(children) => if children.len() != items.len() {
                Err(Failure::LengthMismatch { actual: children.len(), expected: items.len() })
            } else {
                match read_each(items, children, items.len()) {
                    Ok(members) => Ok(Data::Sequence(members)),
                    Err(e) => Err(e),
                }
            },
        },
        Data::Tuple(items) => match read_tuple(v, items.len()) {
            Err(e) => Err(e),
            Ok(children) => match read_each(items, children, items.len()) {
                Ok(members) => Ok(Data::Tuple(members)),
                Err(e) => Err(e),
            },
        },
        Data::TupleStruct(name, items) => match read_tuple(v, items.len()) {
            Err(e) => Err(e),
            Ok(children) => match read_each(items, children, items.len()) {
                Ok(members) => Ok(Data::TupleStruct(name, members)),
                Err(e) => Err(e),
            },
        },
        Data::Mapping(entries) => match read_map(v) {
            Err(e) => Err(e),
            Ok(children) => if children.len() != entries.len() {
                Err(Failure::LengthMismatch { actual: children.len(), expected: entries.len() })
            } else {
                match read_entries(entries, children, entries.len()) {
                    Ok(pairs) => Ok(Data::Mapping(pairs)),
                    Err(e) => Err(e),
                }
            },
        },
        Data::Struct(name, fields) => match read_struct(v, fields.len()) {
            Err(e) => Err(e),
            Ok(Visited::Mapping(children)) => if children.len() != fields.len() {
                Err(Failure::LengthMismatch { actual: children.len(), expected: fields.len() })
            } else {
                match read_named(fields, children, fields.len()) {
                    Ok(read) => Ok(Data::Struct(name, read)),
                    Err(e) => Err(e),
                }
            },
            Ok(Visited::Sequence(children)) => if children.len() != fields.len() {
                Err(Failure::LengthMismatch { actual: children.len(), expected: fields.len() })
            } else {
                match read_values(fields, children, fields.len()) {
                    Ok(read) => Ok(Data::Struct(name, read)),
                    Err(e) => Err(e),
                }
            },
            Ok(_) => Err(Failure::WrongShape),
        },
    }
}

/// The first `n` of `children`, each read like the member of `items` in its
/// place.
pub open spec fn read_each(items: Seq<Data>, children: Seq<Value>, n: nat) -> Result<
    Seq<Data>,
    Failure,
>
    decreases items, n,
{
    if n == 0 || n > items.len() {
        Ok(Seq::empty())
    } else {
        match read_each(items, children, (n - 1) as nat) {
            Err(e) => Err(e),
            Ok(members) => match read_like(items[n - 1], children[n - 1]) {
                Ok(r) => Ok(members.push(r)),
                Err(e) => Err(e),
            },
        }
    }
}

/// The first `n` of `children`, each read as a dictionary entry like the
/// entry of `entries` in its place.
pub open spec fn read_entries(
    entries: Seq<(Data, Data)>,
    children: Seq<Value>,
    n: nat,
) -> Result<Seq<(Data, Data)>, Failure>
    decreases entries, n,
{
    if n == 0 || n > entries.len() {
        Ok(Seq::empty())
    } else {
        match (read_entries(entries, children, (n - 1) as nat), entry_parts(children[n - 1])) {
            (Err(e), _) => Err(e),
            (_, Err(e)) => Err(e),
            (Ok(pairs), Ok((k, val))) => match read_like(entries[n - 1].0, k) {
                Err(e) => Err(e),
                Ok(a) => match read_like(entries[n - 1].1, val) {
                    Err(e) => Err(e),
                    Ok(b) => Ok(pairs.push((a, b))),
                },
            },
        }
    }
}

/// The first `n` of `children`, each read as a dictionary entry whose key is
/// the name of the field of `fields` in its place and whose value is read
/// like that field.
pub open spec fn read_named(
    fields: Seq<(Seq<char>, Data)>,
    children: Seq<Value>,
    n: nat,
) -> Result<Seq<(Seq<char>, Data)>, Failure>
    decreases fields, n,
{
    if n == 0 || n > fields.len() {
        Ok(Seq::empty())
    } else {
        match (read_named(fields, children, (n - 1) as nat), entry_parts(children[n - 1])) {
            (Err(e), _) => Err(e),
            (_, Err(e)) => Err(e),
            (Ok(read), Ok((k, val))) => match read_str(k) {
                Err(e) => Err(e),
                Ok(name) => if name != fields[n - 1].0 {
                    Err(Failure::WrongShape)
                } else {
                    match read_like(fields[n - 1].1, val) {
                        Err(e) => Err(e),
                        Ok(b) => Ok(read.push((name, b))),
                    }
                },
            },
        }
    }
}

/// The first `n` of `children`, each read like the field of `fields` in its
/// place.
pub open spec fn read_values(
    fields: Seq<(Seq<char>, Data)>,
    children: Seq<Value>,
    n: nat,
) -> Result<Seq<(Seq<char>, Data)>, Failure>
    decreases fields, n,
{
    if n == 0 || n > fields.len() {
        Ok(Seq::empty())
    } else {
        match read_values(fields, children, (n - 1) as nat) {
            Err(e) => Err(e),
            Ok(read) => match read_like(fields[n - 1].1, children[n - 1]) {
                Ok(r) => Ok(read.push((fields[n - 1].0, r))),
                Err(e) => Err(e),
            },
        }
    }
}

/// The type expected of the member at `index` of a list that is collected
/// under `target`.
pub open spec fn slot(target: Option<Ty>, index: int) -> Option<Ty> {
    match target {
        Some(Ty::Tuple(tys)) => if 0 <= index < tys.len() {
            Some(tys[index])
        } else {
            None
        },
        Some(Ty::DictEntry(k, v)) => if index == 0 {
            Some(Ty::Basic(k))
        } else {
            Some(*v)
        },
        Some(Ty::Array(e)) => if target == Some(any_array()) {
            None
        } else {
            Some(*e)
        },
        _ => None,
    }
}

/// Whether a tuple that is encoded under `ty` is written as a tuple.
pub open spec fn keeps_tuple(ty: Option<Ty>) -> bool {
    match ty {
        None => true,
        Some(Ty::Variant) => true,
        Some(Ty::AnyTuple) => true,
        Some(Ty::Tuple(_)) => true,
        _ => false,
    }
}

/// Whether the encoding of `d` under `ty` keeps the shape of `d`, so that it
/// can be read back by the requests that `d` makes: no tuple, here or
/// further in, is written as an array or as a dictionary entry, and no
/// sequence as a dictionary entry.
pub open spec fn shape_kept(d: Data, ty: Option<Ty>, human: bool) -> bool
    decreases d,
{
    match d {
        Data::Present(inner) => match child_ty(ty) {
            Ok(child) => shape_kept(*inner, child, human),
            Err(_) => true,
        },
        Data::Newtype(_, inner) => shape_kept(*inner, ty, human),
        Data::Sequence(items) => !(ty matches Some(t) && t is DictEntry) && forall|i: int|
            0 <= i < items.len() ==> shape_kept(#[trigger] items[i], slot(seq_target(ty), i), human),
        Data::Tuple(items) => keeps_tuple(ty) && forall|i: int|
            0 <= i < items.len() ==> shape_kept(
                #[trigger] items[i],
                slot(tuple_target(ty), i),
                human,
            ),
        Data::TupleStruct(_, items) => keeps_tuple(ty) && forall|i: int|
            0 <= i < items.len() ==> shape_kept(
                #[trigger] items[i],
                slot(tuple_target(ty), i),
                human,
            ),
        Data::Mapping(entries) => match map_types(ty) {
            Ok((k, v)) => forall|i: int|
                0 <= i < entries.len() ==> shape_kept((#[trigger] entries[i]).0, k, human)
                    && shape_kept(entries[i].1, v, human),
            Err(_) => true,
        },
        Data::Struct(_, fields) => if struct_as_map(ty, human) {
            forall|i: int|
                0 <= i < fields.len() ==> shape_kept((#[trigger] fields[i]).1, None, human)
        } else {
            keeps_tuple(ty) && forall|i: int|
                0 <= i < fields.len() ==> shape_kept(
                    (#[trigger] fields[i]).1,
                    slot(tuple_target(ty), i),
                    human,
                )
        },
        _ => true,
    }
}

/// The type that a plan expects of the member at `index`.
pub open spec fn plan_slot(plan: Plan, index: int) -> Option<Ty> {
    match plan {
        Plan::Tuple { remaining, n_items, size } => Some(remaining[index]),
        Plan::Generic { elem, size } => elem,
    }
}

/// The plan after `n` members.
pub open spec fn plan_after(plan: Plan, n: nat) -> Plan {
    match plan {
        Plan::Tuple { remaining, n_items, size } => Plan::Tuple {
            remaining: remaining.skip(n as int),
            n_items,
            size,
        },
        Plan::Generic { elem, size } => plan,
    }
}

/// Whether a plan has a place for `n` members.
pub open spec fn plan_holds(plan: Plan, n: nat) -> bool {
    plan matches Plan::Tuple { remaining, n_items, size } ==> n <= remaining.len()
}

/// A list that was filled holds, in order, the encoding of each member under
/// the type that the plan expects in its place.
pub proof fn lemma_fill_seq_members(items: Seq<Data>, n: nat, start: SeqModel)
    requires
        n <= items.len(),
        fill_seq(items, n, start) is Ok,
    ensures
        ({
            let m = fill_seq(items, n, start)->Ok_0;
            &&& m.ty == start.ty
            &&& m.human == start.human
            &&& plan_holds(start.plan, n)
            &&& m.plan == plan_after(start.plan, n)
            &&& m.variants.len() == start.variants.len() + n
            &&& forall|i: int|
                0 <= i < n ==> encode(#[trigger] items[i], plan_slot(start.plan, i), start.human)
                    == Ok::<Value, Failure>(m.variants[start.variants.len() + i])
        }),
    decreases n,
{
    if n == 0 {
        assert(plan_after(start.plan, 0) == start.plan) by {
            if let Plan::Tuple { remaining, n_items, size } = start.plan {
                assert(remaining.skip(0) =~= remaining);
            }
        }
    } else {
        let before = fill_seq(items, (n - 1) as nat, start);
        lemma_fill_seq_members(items, (n - 1) as nat, start);
        let m0 = before->Ok_0;
        let m = fill_seq(items, n, start)->Ok_0;
        assert(seq_step(m0, items[n - 1]) == Ok::<SeqModel, Failure>(m));
        lemma_step_advances(start.plan, (n - 1) as nat);
    }
}

/// The list after the fields of a named aggregate holds, in order, the
/// encoding of each field's value under the type that the plan expects in
/// its place.
pub proof fn lemma_fill_fields_members(fields: Seq<(Seq<char>, Data)>, n: nat, start: SeqModel)
    requires
        n <= fields.len(),
        fill_fields(fields, n, start) is Ok,
    ensures
        ({
            let m = fill_fields(fields, n, start)->Ok_0;
            &&& m.ty == start.ty
            &&& m.human == start.human
            &&& plan_holds(start.plan, n)
            &&& m.plan == plan_after(start.plan, n)
            &&& m.variants.len() == start.variants.len() + n
            &&& forall|i: int|
                0 <= i < n ==> encode(
                    (#[trigger] fields[i]).1,
                    plan_slot(start.plan, i),
                    start.human,
                ) == Ok::<Value, Failure>(m.variants[start.variants.len() + i])
        }),
    decreases n,
{
    if n == 0 {
        assert(plan_after(start.plan, 0) == start.plan) by {
            if let Plan::Tuple { remaining, n_items, size } = start.plan {
                assert(remaining.skip(0) =~= remaining);
            }
        }
    } else {
        let before = fill_fields(fields, (n - 1) as nat, start);
        lemma_fill_fields_members(fields, (n - 1) as nat, start);
        let m0 = before->Ok_0;
        let m = fill_fields(fields, n, start)->Ok_0;
        assert(seq_step(m0, fields[n - 1].1) == Ok::<SeqModel, Failure>(m));
        lemma_step_advances(start.plan, (n - 1) as nat);
    }
}

/// One step of a plan that is `n` members in gives the type of the member at
/// `n` and the plan that is one member further.
pub proof fn lemma_step_advances(plan: Plan, n: nat)
    requires
        plan_holds(plan, n),
        plan_next(plan_after(plan, n)) is Ok,
    ensures
        plan_holds(plan, n + 1),
        plan_next(plan_after(plan, n)) == Ok::<(Option<Ty>, Plan), Failure>(
            (plan_slot(plan, n as int), plan_after(plan, n + 1)),
        ),
{
    if let Plan::Tuple { remaining, n_items, size } = plan {
        assert(remaining.skip(n as int).drop_first() =~= remaining.skip(n as int + 1));
    }
}

/// A dictionary that was filled holds, in order, the encoding of each key and
/// of each value under the types expected of them.
pub proof fn lemma_fill_map_members(entries: Seq<(Data, Data)>, n: nat, start: MapModel)
    requires
        n <= entries.len(),
        fill_map(entries, n, start) is Ok,
    ensures
        ({
            let m = fill_map(entries, n, start)->Ok_0;
            &&& m.key_ty == start.key_ty
            &&& m.value_ty == start.value_ty
            &&& m.key_human == start.key_human
            &&& m.human == start.human
            &&& m.size == start.size
            &&& m.keys.len() == start.keys.len() + n
            &&& m.values.len() == start.values.len() + n
            &&& forall|i: int|
                0 <= i < n ==> encode((#[trigger] entries[i]).0, start.key_ty, start.key_human)
                    == Ok::<Value, Failure>(m.keys[start.keys.len() + i]) && encode(
                    entries[i].1,
                    start.value_ty,
                    start.human,
                ) == Ok::<Value, Failure>(m.values[start.values.len() + i])
        }),
    decreases n,
{
    if n > 0 {
        lemma_fill_map_members(entries, (n - 1) as nat, start);
        let m0 = fill_map(entries, (n - 1) as nat, start)->Ok_0;
        let m1 = map_key_step(m0, entries[n - 1].0)->Ok_0;
        assert(map_value_step(m1, entries[n - 1].1) == fill_map(entries, n, start));
    }
}

/// A dictionary that was filled with named fields holds, in order, each name
/// as a string and the encoding of each field's value.
pub proof fn lemma_fill_named_members(fields: Seq<(Seq<char>, Data)>, n: nat, start: MapModel)
    requires
        n <= fields.len(),
        fill_named(fields, n, start) is Ok,
        start.key_ty == Some(Ty::Basic(BasicTy::Str)),
    ensures
        ({
            let m = fill_named(fields, n, start)->Ok_0;
            &&& m.key_ty == start.key_ty
            &&& m.value_ty == start.value_ty
            &&& m.key_human == start.key_human
            &&& m.human == start.human
            &&& m.size == start.size
            &&& m.keys.len() == start.keys.len() + n
            &&& m.values.len() == start.values.len() + n
            &&& forall|i: int|
                0 <= i < n ==> m.keys[start.keys.len() + i] == Value::Str((#[trigger] fields[i]).0)
                    && encode(fields[i].1, start.value_ty, start.human) == Ok::<Value, Failure>(
                    m.values[start.values.len() + i],
                )
        }),
    decreases n,
{
    if n > 0 {
        lemma_fill_named_members(fields, (n - 1) as nat, start);
        let m0 = fill_named(fields, (n - 1) as nat, start)->Ok_0;
        let key = Value::Str(fields[n - 1].0);
        assert(scalar(m0.key_ty, key) == Ok::<Value, Failure>(key));
        let keyed = MapModel {
            key_ty: m0.key_ty,
            value_ty: m0.value_ty,
            key_human: m0.key_human,
            human: m0.human,
            keys: m0.keys.push(key),
            values: m0.values,
            size: m0.size,
        };
        assert(fill_named(fields, n, start) == map_value_step(keyed, fields[n - 1].1));
        let m = fill_named(fields, n, start)->Ok_0;
        let v = encode(fields[n - 1].1, keyed.value_ty, keyed.human)->Ok_0;
        assert(m.keys == m0.keys.push(key));
        assert(m.values == m0.values.push(v));
        assert forall|i: int| 0 <= i < n implies m.keys[start.keys.len() + i] == Value::Str(
            (#[trigger] fields[i]).0,
        ) && encode(fields[i].1, start.value_ty, start.human) == Ok::<Value, Failure>(
            m.values[start.values.len() + i],
        ) by {
            if i < n - 1 {
                assert(m.keys[start.keys.len() + i] == m0.keys[start.keys.len() + i]);
                assert(m.values[start.values.len() + i] == m0.values[start.values.len() + i]);
            }
        }
    }
}

/// Children that are read back one by one are read back together.
pub proof fn lemma_read_each(items: Seq<Data>, children: Seq<Value>, n: nat)
    requires
        n <= items.len(),
        forall|i: int|
            0 <= i < n ==> read_like(#[trigger] items[i], children[i]) == Ok::<Data, Failure>(
                items[i],
            ),
    ensures
        read_each(items, children, n) == Ok::<Seq<Data>, Failure>(items.take(n as int)),
    decreases n,
{
    if n == 0 {
        assert(items.take(0) =~= Seq::<Data>::empty());
    } else {
        lemma_read_each(items, children, (n - 1) as nat);
        assert(items.take(n - 1).push(items[n - 1]) =~= items.take(n as int));
    }
}

/// Field values that are read back one by one are read back together.
pub proof fn lemma_read_values(fields: Seq<(Seq<char>, Data)>, children: Seq<Value>, n: nat)
    requires
        n <= fields.len(),
        forall|i: int|
            0 <= i < n ==> read_like((#[trigger] fields[i]).1, children[i]) == Ok::<Data, Failure>(
                fields[i].1,
            ),
    ensures
        read_values(fields, children, n) == Ok::<Seq<(Seq<char>, Data)>, Failure>(
            fields.take(n as int),
        ),
    decreases n,
{
    if n == 0 {
        assert(fields.take(0) =~= Seq::<(Seq<char>, Data)>::empty());
    } else {
        lemma_read_values(fields, children, (n - 1) as nat);
        assert(fields.take(n - 1).push(fields[n - 1]) =~= fields.take(n as int));
    }
}

/// Entries whose keys and values are read back one by one are read back
/// together.
pub proof fn lemma_read_entries(
    entries: Seq<(Data, Data)>,
    keys: Seq<Value>,
    vals: Seq<Value>,
    n: nat,
)
    requires
        n <= entries.len(),
        n <= keys.len(),
        forall|i: int|
            0 <= i < n ==> read_like((#[trigger] entries[i]).0, keys[i]) == Ok::<Data, Failure>(
                entries[i].0,
            ) && read_like(entries[i].1, vals[i]) == Ok::<Data, Failure>(entries[i].1),
    ensures
        read_entries(entries, entries_of(keys, vals), n) == Ok::<Seq<(Data, Data)>, Failure>(
            entries.take(n as int),
        ),
    decreases n,
{
    if n == 0 {
        assert(entries.take(0) =~= Seq::<(Data, Data)>::empty());
    } else {
        lemma_read_entries(entries, keys, vals, (n - 1) as nat);
        assert(entries.take(n - 1).push(entries[n - 1]) =~= entries.take(n as int));
        assert(entries_of(keys, vals)[n - 1] == Value::DictEntry(
            Box::new(keys[n - 1]),
            Box::new(vals[n - 1]),
        ));
    }
}

/// Named fields whose keys are their names and whose values are read back
/// one by one are read back together.
pub proof fn lemma_read_named(
    fields: Seq<(Seq<char>, Data)>,
    keys: Seq<Value>,
    vals: Seq<Value>,
    n: nat,
)
    requires
        n <= fields.len(),
        n <= keys.len(),
        forall|i: int|
            0 <= i < n ==> keys[i] == Value::Str((#[trigger] fields[i]).0) && read_like(
                fields[i].1,
                vals[i],
            ) == Ok::<Data, Failure>(fields[i].1),
    ensures
        read_named(fields, entries_of(keys, vals), n) == Ok::<Seq<(Seq<char>, Data)>, Failure>(
            fields.take(n as int),
        ),
    decreases n,
{
    if n == 0 {
        assert(fields.take(0) =~= Seq::<(Seq<char>, Data)>::empty());
    } else {
        lemma_read_named(fields, keys, vals, (n - 1) as nat);
        assert(fields.take(n - 1).push(fields[n - 1]) =~= fields.take(n as int));
        assert(entries_of(keys, vals)[n - 1] == Value::DictEntry(
            Box::new(keys[n - 1]),
            Box::new(vals[n - 1]),
        ));
    }
}

/// What is read of a boxed value like `d` is what is read of its payload
/// like `d`.
pub proof fn lemma_read_like_through_box(d: Data, v: Value)
    ensures
        read_like(d, in_box(v)) == read_like(d, v),
    decreases d,
{
    lemma_box_is_read_through(v, Ty::Variant, 0);
    match d {
        Data::Newtype(_, inner) => {
            lemma_read_like_through_box(*inner, v);
        },
        Data::Tuple(items) => {
            lemma_box_is_read_through(v, Ty::Variant, items.len());
        },
        Data::TupleStruct(_, items) => {
            lemma_box_is_read_through(v, Ty::Variant, items.len());
        },
        Data::Struct(_, fields) => {
            lemma_box_is_read_through(v, Ty::Variant, fields.len());
        },
        _ => {},
    }
}

/// What the boxing rule lets through is the value itself or the value in a
/// box: the same once the box is read through.
pub proof fn lemma_boxed_or_bare(ty: Option<Ty>, x: Value)
    requires
        boxed_if_needed(ty, x) is Ok,
    ensures
        ({
            let v = boxed_if_needed(ty, x)->Ok_0;
            (v == x || v == in_box(x)) && unboxed(v) == unboxed(x)
        }),
{
}

/// Whether a list is collected under a tuple type.
pub open spec fn tuple_like(target: Option<Ty>) -> bool {
    target matches Some(t) && t.is_tuple()
}

/// The plan that is made for a target expects of each member the type that
/// the target has in its place.
pub proof fn lemma_plan_slot(target: Option<Ty>, size: Option<nat>, index: int)
    requires
        plan_new(target, size) is Ok,
        0 <= index,
        plan_holds(plan_new(target, size)->Ok_0, (index + 1) as nat),
    ensures
        plan_slot(plan_new(target, size)->Ok_0, index) == slot(target, index),
{
}

/// A list whose members are read back one by one is read back as a sequence,
/// and as a tuple where it was collected under a tuple type.
pub proof fn lemma_list_reads_back(items: Seq<Data>, m: SeqModel, ty: Option<Ty>)
    requires
        m.variants.len() == items.len(),
        forall|i: int|
            0 <= i < items.len() ==> read_like(#[trigger] items[i], m.variants[i]) == Ok::<
                Data,
                Failure,
            >(items[i]),
        seq_end(m) matches Ok(x) && boxed_if_needed(ty, x) is Ok,
        !(m.ty matches Some(t) && t is DictEntry),
    ensures
        ({
            let v = boxed_if_needed(ty, seq_end(m)->Ok_0)->Ok_0;
            &&& read_seq(v) matches Ok(children) && children.len() == items.len() && read_each(
                items,
                children,
                items.len(),
            ) == Ok::<Seq<Data>, Failure>(items)
            &&& tuple_like(m.ty) ==> read_tuple(v, items.len()) == read_seq(v) && read_map(v) is Err
        }),
{
    let x = seq_end(m)->Ok_0;
    let v = boxed_if_needed(ty, x)->Ok_0;
    lemma_boxed_or_bare(ty, x);
    let children = read_seq(v)->Ok_0;
    assert forall|i: int| 0 <= i < items.len() implies read_like(
        #[trigger] items[i],
        children[i],
    ) == Ok::<Data, Failure>(items[i]) by {
        if children[i] != m.variants[i] {
            assert(children[i] == in_box(m.variants[i]));
            lemma_read_like_through_box(items[i], m.variants[i]);
        }
    }
    lemma_read_each(items, children, items.len());
    assert(items.take(items.len() as int) =~= items);
}

/// The fields of a named aggregate that was written as a tuple are read
/// back as the fields of a tuple.
pub proof fn lemma_fields_read_back(fields: Seq<(Seq<char>, Data)>, m: SeqModel, ty: Option<Ty>)
    requires
        m.variants.len() == fields.len(),
        forall|i: int|
            0 <= i < fields.len() ==> read_like((#[trigger] fields[i]).1, m.variants[i]) == Ok::<
                Data,
                Failure,
            >(fields[i].1),
        seq_end(m) matches Ok(x) && boxed_if_needed(ty, x) is Ok,
        tuple_like(m.ty),
    ensures
        ({
            let v = boxed_if_needed(ty, seq_end(m)->Ok_0)->Ok_0;
            read_struct(v, fields.len()) matches Ok(Visited::Sequence(children)) && children.len()
                == fields.len() && read_values(fields, children, fields.len()) == Ok::<
                Seq<(Seq<char>, Data)>,
                Failure,
            >(fields)
        }),
{
    let x = seq_end(m)->Ok_0;
    let v = boxed_if_needed(ty, x)->Ok_0;
    lemma_boxed_or_bare(ty, x);
    assert(x == Value::Tuple(m.variants));
    lemma_read_values(fields, m.variants, fields.len());
    assert(fields.take(fields.len() as int) =~= fields);
}

/// What a dictionary is made of: an array of entries, each of the key in its
/// place and of the value in its place, bare or in a box.
pub proof fn lemma_map_end_entries(m: MapModel)
    requires
        map_end(m) is Ok,
    ensures
        m.keys.len() == m.values.len(),
        map_end(m)->Ok_0 matches Value::Array(Ty::DictEntry(_, _), entries) && (entries
            == entries_of(m.keys, m.values) || entries == entries_of(m.keys, boxed_all(m.values))),
{
}

/// A dictionary whose keys and values are read back one by one is read back
/// as a map, in source order.
pub proof fn lemma_map_reads_back(entries: Seq<(Data, Data)>, m: MapModel, ty: Option<Ty>)
    requires
        m.keys.len() == entries.len(),
        m.values.len() == entries.len(),
        forall|i: int|
            0 <= i < entries.len() ==> read_like((#[trigger] entries[i]).0, m.keys[i]) == Ok::<
                Data,
                Failure,
            >(entries[i].0) && read_like(entries[i].1, m.values[i]) == Ok::<Data, Failure>(
                entries[i].1,
            ),
        map_end(m) matches Ok(x) && boxed_if_needed(ty, x) is Ok,
    ensures
        ({
            let v = boxed_if_needed(ty, map_end(m)->Ok_0)->Ok_0;
            read_map(v) matches Ok(children) && children.len() == entries.len() && read_entries(
                entries,
                children,
                entries.len(),
            ) == Ok::<Seq<(Data, Data)>, Failure>(entries)
        }),
{
    let x = map_end(m)->Ok_0;
    let v = boxed_if_needed(ty, x)->Ok_0;
    lemma_boxed_or_bare(ty, x);
    lemma_map_end_entries(m);
    let children = read_map(v)->Ok_0;
    let vals = if children == entries_of(m.keys, m.values) {
        m.values
    } else {
        boxed_all(m.values)
    };
    assert(children == entries_of(m.keys, vals));
    assert forall|i: int| 0 <= i < entries.len() implies read_like(
        (#[trigger] entries[i]).0,
        m.keys[i],
    ) == Ok::<Data, Failure>(entries[i].0) && read_like(entries[i].1, vals[i]) == Ok::<
        Data,
        Failure,
    >(entries[i].1) by {
        if vals[i] != m.values[i] {
            assert(vals[i] == in_box(m.values[i]));
            lemma_read_like_through_box(entries[i].1, m.values[i]);
        }
    }
    lemma_read_entries(entries, m.keys, vals, entries.len());
    assert(entries.take(entries.len() as int) =~= entries);
}

/// A dictionary of named fields whose values are read back one by one is
/// read back as a named aggregate.
pub proof fn lemma_named_reads_back(fields: Seq<(Seq<char>, Data)>, m: MapModel, ty: Option<Ty>)
    requires
        m.keys.len() == fields.len(),
        m.values.len() == fields.len(),
        forall|i: int|
            0 <= i < fields.len() ==> m.keys[i] == Value::Str((#[trigger] fields[i]).0)
                && read_like(fields[i].1, m.values[i]) == Ok::<Data, Failure>(fields[i].1),
        map_end(m) matches Ok(x) && boxed_if_needed(ty, x) is Ok,
    ensures
        ({
            let v = boxed_if_needed(ty, map_end(m)->Ok_0)->Ok_0;
            read_struct(v, fields.len()) matches Ok(Visited::Mapping(children)) && children.len()
                == fields.len() && read_named(fields, children, fields.len()) == Ok::<
                Seq<(Seq<char>, Data)>,
                Failure,
            >(fields)
        }),
{
    let x = map_end(m)->Ok_0;
    let v = boxed_if_needed(ty, x)->Ok_0;
    lemma_boxed_or_bare(ty, x);
    lemma_map_end_entries(m);
    let children = read_map(v)->Ok_0;
    let vals = if children == entries_of(m.keys, m.values) {
        m.values
    } else {
        boxed_all(m.values)
    };
    assert(children == entries_of(m.keys, vals));
    assert forall|i: int| 0 <= i < fields.len() implies m.keys[i] == Value::Str(
        (#[trigger] fields[i]).0,
    ) && read_like(fields[i].1, vals[i]) == Ok::<Data, Failure>(fields[i].1) by {
        if vals[i] != m.values[i] {
            assert(vals[i] == in_box(m.values[i]));
            lemma_read_like_through_box(fields[i].1, m.values[i]);
        }
    }
    lemma_read_named(fields, m.keys, vals, fields.len());
    assert(fields.take(fields.len() as int) =~= fields);
}

/// Round trip: a value that is encoded under an expected type, or under
/// none, and then read by the requests that its own shape makes is read back
/// as itself, whenever the encoding keeps its shape.
pub proof fn lemma_round_trip(d: Data, ty: Option<Ty>, human: bool)
    requires
        encode(d, ty, human) is Ok,
        shape_kept(d, ty, human),
    ensures
        read_like(d, encode(d, ty, human)->Ok_0) == Ok::<Data, Failure>(d),
    decreases d, 2nat,
{
    match d {
        Data::Present(_) => lemma_round_trip_present(d, ty, human),
        Data::Newtype(_, inner) => lemma_round_trip(*inner, ty, human),
        Data::Sequence(_) => lemma_round_trip_sequence(d, ty, human),
        Data::Tuple(_) => lemma_round_trip_tuple(d, ty, human),
        Data::TupleStruct(_, _) => lemma_round_trip_tuple(d, ty, human),
        Data::Mapping(_) => lemma_round_trip_mapping(d, ty, human),
        Data::Struct(_, _) => lemma_round_trip_struct(d, ty, human),
        Data::Bool(_) | Data::F64(_) | Data::Char(_) | Data::Str(_) | Data::Bytes(_) => {
            lemma_round_trip_scalar(d, ty, human)
        },
        Data::Absent | Data::Unit | Data::UnitStruct(_) | Data::UnitVariant { .. } => {
            lemma_round_trip_marker(d, ty, human)
        },
        _ => lemma_round_trip_number(d, ty, human),
    }
}

/// The round trip of an integer.
proof fn lemma_round_trip_number(d: Data, ty: Option<Ty>, human: bool)
    requires
        encode(d, ty, human) is Ok,
        d is I8 || d is I16 || d is I32 || d is I64 || d is U8 || d is U16 || d is U32 || d is U64,
    ensures
        read_like(d, encode(d, ty, human)->Ok_0) == Ok::<Data, Failure>(d),
{
    match d {
        Data::I8(n) => {
            lemma_boxed_or_bare(ty, Value::Int16(n as i16));
        },
        Data::I16(n) => {
            lemma_boxed_or_bare(ty, Value::Int16(n));
        },
        Data::I32(n) => {
            lemma_boxed_or_bare(ty, Value::Int32(n));
        },
        Data::I64(n) => {
            lemma_boxed_or_bare(ty, Value::Int64(n));
        },
        Data::U8(n) => {
            lemma_boxed_or_bare(ty, Value::Byte(n));
        },
        Data::U16(n) => {
            lemma_boxed_or_bare(ty, Value::Uint16(n));
        },
        Data::U32(n) => {
            lemma_boxed_or_bare(ty, Value::Uint32(n));
        },
        Data::U64(n) => {
            lemma_boxed_or_bare(ty, Value::Uint64(n));
        },
        _ => {},
    }
}

/// The round trip of a boolean, a double, a character, a string and a byte
/// string.
proof fn lemma_round_trip_scalar(d: Data, ty: Option<Ty>, human: bool)
    requires
        encode(d, ty, human) is Ok,
        d is Bool || d is F64 || d is Char || d is Str || d is Bytes,
    ensures
        read_like(d, encode(d, ty, human)->Ok_0) == Ok::<Data, Failure>(d),
{
    match d {
        Data::Bool(b) => {
            lemma_boxed_or_bare(ty, Value::Boolean(b));
        },
        Data::F64(bits) => {
            lemma_boxed_or_bare(ty, Value::Double(bits));
        },
        Data::Char(c) => {
            lemma_boxed_or_bare(ty, Value::Str(seq![c]));
        },
        Data::Str(s) => {
            lemma_boxed_or_bare(ty, Value::Str(s));
        },
        Data::Bytes(b) => {
            lemma_boxed_or_bare(ty, Value::Array(Ty::Basic(BasicTy::Byte), byte_values(b)));
            assert(bytes_of(byte_values(b)) =~= b);
        },
        _ => {},
    }
}

/// The round trip of the absent value, of the unit and of a bare
/// discriminant.
proof fn lemma_round_trip_marker(d: Data, ty: Option<Ty>, human: bool)
    requires
        encode(d, ty, human) is Ok,
        d is Absent || d is Unit || d is UnitStruct || d is UnitVariant,
    ensures
        read_like(d, encode(d, ty, human)->Ok_0) == Ok::<Data, Failure>(d),
{
    match d {
        Data::Absent => {
            let t = match child_ty(ty)->Ok_0 {
                Some(t) => t,
                None => Ty::Variant,
            };
            lemma_boxed_or_bare(ty, Value::Nothing(t));
        },
        Data::Unit => {
            lemma_boxed_or_bare(ty, Value::Tuple(Seq::empty()));
        },
        Data::UnitStruct(_) => {
            lemma_boxed_or_bare(ty, Value::Tuple(Seq::empty()));
        },
        Data::UnitVariant { name, index, variant } => {
            if crate::any_variant::serializer::variant_as_name(ty, human) {
                lemma_boxed_or_bare(ty, Value::Str(variant));
            } else {
                lemma_boxed_or_bare(ty, Value::Uint32(index));
            }
        },
        _ => {},
    }
}

/// The round trip of an optional value that is present.
proof fn lemma_round_trip_present(d: Data, ty: Option<Ty>, human: bool)
    requires
        d is Present,
        encode(d, ty, human) is Ok,
        shape_kept(d, ty, human),
    ensures
        read_like(d, encode(d, ty, human)->Ok_0) == Ok::<Data, Failure>(d),
    decreases d, 1nat,
{
    let inner = d->Present_0;
    let child = child_ty(ty)->Ok_0;
    lemma_round_trip(*inner, child, human);
    let w = encode(*inner, child, human)->Ok_0;
    lemma_boxed_or_bare(ty, Value::Just(Box::new(w)));
}

/// The round trip of a sequence.
proof fn lemma_round_trip_sequence(d: Data, ty: Option<Ty>, human: bool)
    requires
        d is Sequence,
        encode(d, ty, human) is Ok,
        shape_kept(d, ty, human),
    ensures
        read_like(d, encode(d, ty, human)->Ok_0) == Ok::<Data, Failure>(d),
    decreases d, 1nat,
{
    let items = d->Sequence_0;
    lemma_round_trip_members(d, items, seq_target(ty), ty, human);
}

/// The round trip of a tuple, named or not.
proof fn lemma_round_trip_tuple(d: Data, ty: Option<Ty>, human: bool)
    requires
        d is Tuple || d is TupleStruct,
        encode(d, ty, human) is Ok,
        shape_kept(d, ty, human),
    ensures
        read_like(d, encode(d, ty, human)->Ok_0) == Ok::<Data, Failure>(d),
    decreases d, 1nat,
{
    match d {
        Data::Tuple(items) => {
            lemma_round_trip_members(d, items, tuple_target(ty), ty, human);
        },
        Data::TupleStruct(_, items) => {
            lemma_round_trip_members(d, items, tuple_target(ty), ty, human);
        },
        _ => {},
    }
}

/// The round trip of a map.
proof fn lemma_round_trip_mapping(d: Data, ty: Option<Ty>, human: bool)
    requires
        d is Mapping,
        encode(d, ty, human) is Ok,
        shape_kept(d, ty, human),
    ensures
        read_like(d, encode(d, ty, human)->Ok_0) == Ok::<Data, Failure>(d),
    decreases d, 1nat,
{
    let entries = d->Mapping_0;
    let (k, vt) = map_types(ty)->Ok_0;
    let start = crate::any_variant::serializer::map_new(k, vt, human, Some(entries.len()));
    let m = fill_map(entries, entries.len(), start)->Ok_0;
    lemma_fill_map_members(entries, entries.len(), start);
    assert forall|i: int| 0 <= i < entries.len() implies read_like(
        (#[trigger] entries[i]).0,
        m.keys[i],
    ) == Ok::<Data, Failure>(entries[i].0) && read_like(entries[i].1, m.values[i]) == Ok::<
        Data,
        Failure,
    >(entries[i].1) by {
        lemma_round_trip(entries[i].0, k, human);
        lemma_round_trip(entries[i].1, vt, human);
    }
    lemma_map_reads_back(entries, m, ty);
}

/// The round trip of a named aggregate.
proof fn lemma_round_trip_struct(d: Data, ty: Option<Ty>, human: bool)
    requires
        d is Struct,
        encode(d, ty, human) is Ok,
        shape_kept(d, ty, human),
    ensures
        read_like(d, encode(d, ty, human)->Ok_0) == Ok::<Data, Failure>(d),
    decreases d, 1nat,
{
    let fields = d->Struct_1;
    if struct_as_map(ty, human) {
        let start = crate::any_variant::serializer::map_new(
            Some(Ty::Basic(BasicTy::Str)),
            None,
            human,
            Some(fields.len()),
        );
        let m = fill_named(fields, fields.len(), start)->Ok_0;
        lemma_fill_named_members(fields, fields.len(), start);
        assert forall|i: int| 0 <= i < fields.len() implies m.keys[i] == Value::Str(
            (#[trigger] fields[i]).0,
        ) && read_like(fields[i].1, m.values[i]) == Ok::<Data, Failure>(fields[i].1) by {
            lemma_round_trip(fields[i].1, None, human);
        }
        lemma_named_reads_back(fields, m, ty);
    } else {
        let target = tuple_target(ty);
        let start = seq_new(target, human, Some(fields.len()))->Ok_0;
        let m = fill_fields(fields, fields.len(), start)->Ok_0;
        lemma_fill_fields_members(fields, fields.len(), start);
        assert forall|i: int| 0 <= i < fields.len() implies read_like(
            (#[trigger] fields[i]).1,
            m.variants[i],
        ) == Ok::<Data, Failure>(fields[i].1) by {
            lemma_plan_slot(target, Some(fields.len()), i);
            lemma_round_trip(fields[i].1, slot(target, i), human);
        }
        lemma_fields_read_back(fields, m, ty);
    }
}

/// Whether `items` are the members of the sequence or tuple `d`.
pub open spec fn members_of(d: Data, items: Seq<Data>) -> bool {
    match d {
        Data::Sequence(v) => v == items,
        Data::Tuple(v) => v == items,
        Data::TupleStruct(_, v) => v == items,
        _ => false,
    }
}

/// The round trip of the members of a sequence or a tuple.
proof fn lemma_round_trip_members(
    d: Data,
    items: Seq<Data>,
    target: Option<Ty>,
    ty: Option<Ty>,
    human: bool,
)
    requires
        members_of(d, items),
        !(target matches Some(t) && t is DictEntry),
        forall|i: int|
            0 <= i < items.len() ==> shape_kept(#[trigger] items[i], slot(target, i), human),
        seq_new(target, human, Some(items.len())) matches Ok(start)
            && crate::any_variant::serializer::finish_seq(
            fill_seq(items, items.len(), start),
            ty,
        ) is Ok,
    ensures
        ({
            let start = seq_new(target, human, Some(items.len()))->Ok_0;
            let v = crate::any_variant::serializer::finish_seq(
                fill_seq(items, items.len(), start),
                ty,
            )->Ok_0;
            &&& read_seq(v) matches Ok(children) && children.len() == items.len() && read_each(
                items,
                children,
                items.len(),
            ) == Ok::<Seq<Data>, Failure>(items)
            &&& tuple_like(target) ==> read_tuple(v, items.len()) == read_seq(v)
        }),
    decreases d, 0nat,
{
    let start = seq_new(target, human, Some(items.len()))->Ok_0;
    let m = fill_seq(items, items.len(), start)->Ok_0;
    lemma_fill_seq_members(items, items.len(), start);
    assert forall|i: int| 0 <= i < items.len() implies read_like(
        #[trigger] items[i],
        m.variants[i],
    ) == Ok::<Data, Failure>(items[i]) by {
        lemma_plan_slot(target, Some(items.len()), i);
        lemma_round_trip(items[i], slot(target, i), human);
    }
    lemma_list_reads_back(items, m, ty);
}

/// With no expected type, and with the expected type `v`, every encoding
/// keeps the shape of what is encoded.
pub proof fn lemma_shape_kept_inferred(d: Data, human: bool)
    ensures
        shape_kept(d, None, human),
        shape_kept(d, Some(Ty::Variant), human),
    decreases d,
{
    match d {
        Data::Present(inner) => {
            lemma_shape_kept_inferred(*inner, human);
        },
        Data::Newtype(_, inner) => {
            lemma_shape_kept_inferred(*inner, human);
        },
        Data::Sequence(items) => {
            assert forall|i: int| 0 <= i < items.len() implies shape_kept(
                #[trigger] items[i],
                None,
                human,
            ) by {
                lemma_shape_kept_inferred(items[i], human);
            }
        },
        Data::Tuple(items) => {
            assert forall|i: int| 0 <= i < items.len() implies shape_kept(
                #[trigger] items[i],
                None,
                human,
            ) by {
                lemma_shape_kept_inferred(items[i], human);
            }
        },
        Data::TupleStruct(_, items) => {
            assert forall|i: int| 0 <= i < items.len() implies shape_kept(
                #[trigger] items[i],
                None,
                human,
            ) by {
                lemma_shape_kept_inferred(items[i], human);
            }
        },
        Data::Mapping(entries) => {
            assert forall|i: int| 0 <= i < entries.len() implies shape_kept(
                (#[trigger] entries[i]).0,
                None,
                human,
            ) && shape_kept(entries[i].1, None, human) by {
                lemma_shape_kept_inferred(entries[i].0, human);
                lemma_shape_kept_inferred(entries[i].1, human);
            }
        },
        Data::Struct(_, fields) => {
            assert forall|i: int| 0 <= i < fields.len() implies shape_kept(
                (#[trigger] fields[i]).1,
                None,
                human,
            ) by {
                lemma_shape_kept_inferred(fields[i].1, human);
            }
        },
        _ => {},
    }
}

/// Round trip under full inference: whatever is encoded with no expected
/// type is read back as itself by the requests that its own shape makes.
pub proof fn lemma_round_trip_inferred(d: Data, human: bool)
    requires
        encode(d, None, human) is Ok,
    ensures
        read_like(d, encode(d, None, human)->Ok_0) == Ok::<Data, Failure>(d),
{
    lemma_shape_kept_inferred(d, human);
    lemma_round_trip(d, None, human);
}

} // verus!

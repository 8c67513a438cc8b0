//! Every value that the codec makes keeps the invariants of the format.

use crate::any_variant::serializer::{
    boxed_if_needed, child_ty, common_type, encode, entries_of, fill_fields, fill_map, fill_named,
    fill_seq, map_end, map_new, map_types, open_array, seq_end, seq_new, seq_target,
    struct_as_map, tuple_or_array, tuple_target, MapModel, SeqModel,
};
use crate::any_variant::{build, build_all, build_fields, build_pairs, name_values};
use crate::datum::Data;
use crate::error::Failure;
use crate::round_trip::{
    lemma_fill_fields_members, lemma_fill_map_members, lemma_fill_named_members,
    lemma_fill_seq_members,
};
use crate::util::{boxed_all, unify};
use crate::variant::{
    all_of_type, byte_values, lemma_type_is_definite, type_of, types_of, well_formed, Value,
};
use crate::variant_ty::{definite, BasicTy, Ty};
use vstd::prelude::*;

verus! {

/// Whether every value of `items` is well formed.
pub open spec fn all_well_formed(items: Seq<Value>) -> bool {
    forall|i: int| 0 <= i < items.len() ==> well_formed(#[trigger] items[i])
}

/// The type that a list of well-formed values is found to have is definite,
/// where the fallback for an empty list is.
pub proof fn lemma_common_type(items: Seq<Value>, fallback: Ty)
    requires
        all_well_formed(items),
        definite(fallback),
    ensures
        common_type(items, fallback) matches Some(t) ==> definite(t) && all_of_type(items, t),
{
    if let Some(Some(t)) = unify(types_of(items)) {
        assert(types_of(items)[0] == t);
        lemma_type_is_definite(items[0]);
        assert forall|i: int| 0 <= i < items.len() implies type_of(#[trigger] items[i]) == t by {
            assert(types_of(items)[i] == types_of(items)[0]);
        }
    }
}

/// An array whose element type is inferred from well-formed members is well
/// formed.
pub proof fn lemma_open_array(items: Seq<Value>)
    requires
        all_well_formed(items),
    ensures
        well_formed(open_array(items)),
{
    lemma_common_type(items, Ty::Variant);
    if common_type(items, Ty::Variant) is None {
        let boxed = boxed_all(items);
        assert forall|i: int| 0 <= i < boxed.len() implies well_formed(#[trigger] boxed[i])
            && type_of(boxed[i]) == Ty::Variant by {
            assert(well_formed(items[i]));
        }
    }
}

/// What the boxing rule lets through is as well formed as what went in.
pub proof fn lemma_boxed_well_formed(ty: Option<Ty>, x: Value)
    requires
        well_formed(x),
        boxed_if_needed(ty, x) is Ok,
    ensures
        well_formed(boxed_if_needed(ty, x)->Ok_0),
{
}

/// The tuple or the array of well-formed members is well formed.
pub proof fn lemma_tuple_or_array(items: Seq<Value>)
    requires
        all_well_formed(items),
    ensures
        well_formed(tuple_or_array(items)),
{
    if items.len() > 0 {
        if let Some(Some(t)) = unify(types_of(items)) {
            assert(types_of(items)[0] == t);
            lemma_type_is_definite(items[0]);
            assert forall|i: int| 0 <= i < items.len() implies type_of(#[trigger] items[i])
                == t by {
                assert(types_of(items)[i] == types_of(items)[0]);
            }
        }
    } else {
        assert(well_formed(Value::Tuple(Seq::empty())));
    }
}

/// A list of well-formed members makes a well-formed value.
pub proof fn lemma_seq_end(m: SeqModel)
    requires
        all_well_formed(m.variants),
        seq_end(m) is Ok,
    ensures
        well_formed(seq_end(m)->Ok_0),
{
    lemma_open_array(m.variants);
    lemma_tuple_or_array(m.variants);
}

/// Every value that the encoder makes is well formed: the members of an
/// array have its element type, which is definite, a dictionary entry is
/// keyed by a basic value, and the same holds of everything inside.
pub proof fn lemma_encode_well_formed(d: Data, ty: Option<Ty>, human: bool)
    requires
        encode(d, ty, human) is Ok,
    ensures
        well_formed(encode(d, ty, human)->Ok_0),
    decreases d, 1nat,
{
    match d {
        Data::Bool(b) => lemma_boxed_well_formed(ty, Value::Boolean(b)),
        Data::I8(n) => lemma_boxed_well_formed(ty, Value::Int16(n as i16)),
        Data::I16(n) => lemma_boxed_well_formed(ty, Value::Int16(n)),
        Data::I32(n) => lemma_boxed_well_formed(ty, Value::Int32(n)),
        Data::I64(n) => lemma_boxed_well_formed(ty, Value::Int64(n)),
        Data::U8(n) => lemma_boxed_well_formed(ty, Value::Byte(n)),
        Data::U16(n) => lemma_boxed_well_formed(ty, Value::Uint16(n)),
        Data::U32(n) => lemma_boxed_well_formed(ty, Value::Uint32(n)),
        Data::U64(n) => lemma_boxed_well_formed(ty, Value::Uint64(n)),
        Data::F64(bits) => lemma_boxed_well_formed(ty, Value::Double(bits)),
        Data::Char(c) => lemma_boxed_well_formed(ty, Value::Str(seq![c])),
        Data::Str(s) => lemma_boxed_well_formed(ty, Value::Str(s)),
        Data::Bytes(b) => {
            let items = byte_values(b);
            assert forall|i: int| 0 <= i < items.len() implies well_formed(#[trigger] items[i])
                && type_of(items[i]) == Ty::Basic(BasicTy::Byte) by {
                assert(items[i] == Value::Byte(b[i]));
            }
            lemma_boxed_well_formed(ty, Value::Array(Ty::Basic(BasicTy::Byte), items));
        },
        Data::Absent => {
            let t = match child_ty(ty)->Ok_0 {
                Some(t) => t,
                None => Ty::Variant,
            };
            lemma_boxed_well_formed(ty, Value::Nothing(t));
        },
        Data::Present(inner) => {
            let child = child_ty(ty)->Ok_0;
            lemma_encode_well_formed(*inner, child, human);
            lemma_boxed_well_formed(ty, Value::Just(Box::new(encode(*inner, child, human)->Ok_0)));
        },
        Data::Unit => lemma_boxed_well_formed(ty, Value::Tuple(Seq::empty())),
        Data::UnitStruct(_) => lemma_boxed_well_formed(ty, Value::Tuple(Seq::empty())),
        Data::UnitVariant { name, index, variant } => {
            if crate::any_variant::serializer::variant_as_name(ty, human) {
                lemma_boxed_well_formed(ty, Value::Str(variant));
            } else {
                lemma_boxed_well_formed(ty, Value::Uint32(index));
            }
        },
        Data::Newtype(_, inner) => {
            lemma_encode_well_formed(*inner, ty, human);
        },
        Data::Sequence(items) => {
            lemma_encode_list(d, items, seq_target(ty), ty, human);
        },
        Data::Tuple(items) => {
            lemma_encode_list(d, items, tuple_target(ty), ty, human);
        },
        Data::TupleStruct(_, items) => {
            lemma_encode_list(d, items, tuple_target(ty), ty, human);
        },
        Data::Mapping(entries) => {
            lemma_encode_map(d, ty, human);
        },
        Data::Struct(_, fields) => {
            lemma_encode_struct(d, ty, human);
        },
    }
}

/// Whether `items` are the members of the sequence or tuple `d`.
spec fn lists(d: Data, items: Seq<Data>) -> bool {
    match d {
        Data::Sequence(v) => v == items,
        Data::Tuple(v) => v == items,
        Data::TupleStruct(_, v) => v == items,
        _ => false,
    }
}

proof fn lemma_encode_list(
    d: Data,
    items: Seq<Data>,
    target: Option<Ty>,
    ty: Option<Ty>,
    human: bool,
)
    requires
        lists(d, items),
        seq_new(target, human, Some(items.len())) matches Ok(start)
            && crate::any_variant::serializer::finish_seq(
            fill_seq(items, items.len(), start),
            ty,
        ) is Ok,
    ensures
        well_formed(
            crate::any_variant::serializer::finish_seq(
                fill_seq(items, items.len(), seq_new(target, human, Some(items.len()))->Ok_0),
                ty,
            )->Ok_0,
        ),
    decreases d, 0nat,
{
    let start = seq_new(target, human, Some(items.len()))->Ok_0;
    let m = fill_seq(items, items.len(), start)->Ok_0;
    lemma_fill_seq_members(items, items.len(), start);
    assert forall|i: int| 0 <= i < m.variants.len() implies well_formed(
        #[trigger] m.variants[i],
    ) by {
        assert(encode(items[i], crate::round_trip::plan_slot(start.plan, i), human) is Ok);
        lemma_encode_well_formed(items[i], crate::round_trip::plan_slot(start.plan, i), human);
    }
    lemma_seq_end(m);
    lemma_boxed_well_formed(ty, seq_end(m)->Ok_0);
}

proof fn lemma_encode_map(d: Data, ty: Option<Ty>, human: bool)
    requires
        d is Mapping,
        encode(d, ty, human) is Ok,
    ensures
        well_formed(encode(d, ty, human)->Ok_0),
    decreases d, 0nat,
{
    let entries = d->Mapping_0;
    let (k, vt) = map_types(ty)->Ok_0;
    let start = map_new(k, vt, human, Some(entries.len()));
    let m = fill_map(entries, entries.len(), start)->Ok_0;
    lemma_fill_map_members(entries, entries.len(), start);
    assert forall|i: int| 0 <= i < entries.len() implies well_formed(#[trigger] m.keys[i])
        && well_formed(m.values[i]) by {
        assert(encode(entries[i].0, k, human) is Ok);
        lemma_encode_well_formed(entries[i].0, k, human);
        lemma_encode_well_formed(entries[i].1, vt, human);
    }
    assert(all_well_formed(m.values)) by {
        assert forall|i: int| 0 <= i < m.values.len() implies well_formed(
            #[trigger] m.values[i],
        ) by {
            assert(well_formed(m.keys[i]));
        }
    }
    lemma_map_end_any(m);
    lemma_boxed_well_formed(ty, map_end(m)->Ok_0);
}

proof fn lemma_encode_struct(d: Data, ty: Option<Ty>, human: bool)
    requires
        d is Struct,
        encode(d, ty, human) is Ok,
    ensures
        well_formed(encode(d, ty, human)->Ok_0),
    decreases d, 0nat,
{
    let fields = d->Struct_1;
    if struct_as_map(ty, human) {
        let start = map_new(Some(Ty::Basic(BasicTy::Str)), None, human, Some(fields.len()));
        let m = fill_named(fields, fields.len(), start)->Ok_0;
        lemma_fill_named_members(fields, fields.len(), start);
        assert forall|i: int| 0 <= i < fields.len() implies well_formed(#[trigger] m.keys[i])
            && well_formed(m.values[i]) by {
            assert(m.keys[i] == Value::Str(fields[i].0));
            lemma_encode_well_formed(fields[i].1, None, human);
        }
        assert(all_well_formed(m.values)) by {
            assert forall|i: int| 0 <= i < m.values.len() implies well_formed(
                #[trigger] m.values[i],
            ) by {
                assert(well_formed(m.keys[i]));
            }
        }
        lemma_map_end_any(m);
        lemma_boxed_well_formed(ty, map_end(m)->Ok_0);
    } else {
        let target = tuple_target(ty);
        let start = seq_new(target, human, Some(fields.len()))->Ok_0;
        let m = fill_fields(fields, fields.len(), start)->Ok_0;
        lemma_fill_fields_members(fields, fields.len(), start);
        assert forall|i: int| 0 <= i < m.variants.len() implies well_formed(
            #[trigger] m.variants[i],
        ) by {
            assert(encode(fields[i].1, crate::round_trip::plan_slot(start.plan, i), human) is Ok);
            lemma_encode_well_formed(
                fields[i].1,
                crate::round_trip::plan_slot(start.plan, i),
                human,
            );
        }
        lemma_seq_end(m);
        lemma_boxed_well_formed(ty, seq_end(m)->Ok_0);
    }
}

/// A dictionary of well-formed keys and values is well formed, whatever
/// types were expected of them.
pub proof fn lemma_map_end_any(m: MapModel)
    requires
        all_well_formed(m.keys),
        all_well_formed(m.values),
        map_end(m) is Ok,
    ensures
        well_formed(map_end(m)->Ok_0),
{
    let x = map_end(m)->Ok_0;
    let key_fallback = match m.key_ty {
        Some(t) => t,
        None => Ty::Basic(BasicTy::Str),
    };
    let value_fallback = match m.value_ty {
        Some(t) => t,
        None => Ty::Variant,
    };
    let k = common_type(m.keys, key_fallback)->Some_0->Basic_0;
    let entry = x->Array_0;
    let entries = x->Array_1;
    let boxed = common_type(m.values, value_fallback) is None;
    let vals = if boxed {
        boxed_all(m.values)
    } else {
        m.values
    };
    assert(entries == entries_of(m.keys, vals));
    let vt = match common_type(m.values, value_fallback) {
        Some(t) => t,
        None => Ty::Variant,
    };
    assert(entry == Ty::DictEntry(k, Box::new(vt)));
    assert forall|i: int| 0 <= i < entries.len() implies well_formed(#[trigger] entries[i])
        && type_of(entries[i]) == entry by {
        assert(well_formed(m.keys[i]));
        assert(well_formed(m.values[i]));
        assert(entries[i] == Value::DictEntry(Box::new(m.keys[i]), Box::new(vals[i])));
        let key_types = types_of(m.keys);
        assert(unify(key_types) == Some(Some(Ty::Basic(k))));
        assert(key_types[i] == key_types[0]);
        assert(type_of(m.keys[i]) == Ty::Basic(k));
        if boxed {
            assert(vals[i] == Value::Boxed(Box::new(m.values[i])));
            assert(type_of(vals[i]) == Ty::Variant);
        } else {
            let value_types = types_of(m.values);
            assert(unify(value_types) == Some(Some(vt)));
            assert(value_types[i] == value_types[0]);
            assert(type_of(vals[i]) == vt);
        }
        assert(well_formed(vals[i]));
        assert(type_of(entries[i]) == Ty::DictEntry(
            crate::variant::key_kind(type_of(m.keys[i])),
            Box::new(type_of(vals[i])),
        ));
    }
}

/// What is built of each of the first `n` members, where all are built.
pub proof fn lemma_build_all_members(items: Seq<Data>, n: nat)
    requires
        n <= items.len(),
        build_all(items, n) is Ok,
    ensures
        build_all(items, n)->Ok_0.len() == n,
        forall|i: int|
            0 <= i < n ==> build(#[trigger] items[i]) == Ok::<Value, Failure>(
                build_all(items, n)->Ok_0[i],
            ),
    decreases n,
{
    if n > 0 {
        lemma_build_all_members(items, (n - 1) as nat);
    }
}

/// What is built of each of the first `n` fields, where all are built.
pub proof fn lemma_build_fields_members(fields: Seq<(Seq<char>, Data)>, n: nat)
    requires
        n <= fields.len(),
        build_fields(fields, n) is Ok,
    ensures
        build_fields(fields, n)->Ok_0.len() == n,
        forall|i: int|
            0 <= i < n ==> build((#[trigger] fields[i]).1) == Ok::<Value, Failure>(
                build_fields(fields, n)->Ok_0[i],
            ),
    decreases n,
{
    if n > 0 {
        lemma_build_fields_members(fields, (n - 1) as nat);
    }
}

/// What is built of each of the first `n` entries, where all are built.
pub proof fn lemma_build_pairs_members(entries: Seq<(Data, Data)>, n: nat)
    requires
        n <= entries.len(),
        build_pairs(entries, n) is Ok,
    ensures
        build_pairs(entries, n)->Ok_0.0.len() == n,
        build_pairs(entries, n)->Ok_0.1.len() == n,
        forall|i: int|
            0 <= i < n ==> build((#[trigger] entries[i]).0) == Ok::<Value, Failure>(
                build_pairs(entries, n)->Ok_0.0[i],
            ) && build(entries[i].1) == Ok::<Value, Failure>(build_pairs(entries, n)->Ok_0.1[i]),
    decreases n,
{
    if n > 0 {
        lemma_build_pairs_members(entries, (n - 1) as nat);
    }
}

/// Every value that is built with no type expected of it is well formed.
pub proof fn lemma_build_well_formed(d: Data)
    requires
        build(d) is Ok,
    ensures
        well_formed(build(d)->Ok_0),
    decreases d, 1nat,
{
    match d {
        Data::Bytes(b) => {
            let items = byte_values(b);
            assert forall|i: int| 0 <= i < items.len() implies well_formed(#[trigger] items[i])
                && type_of(items[i]) == Ty::Basic(BasicTy::Byte) by {
                assert(items[i] == Value::Byte(b[i]));
            }
        },
        Data::Present(inner) => {
            lemma_build_well_formed(*inner);
        },
        Data::Newtype(_, inner) => {
            lemma_build_well_formed(*inner);
        },
        Data::Sequence(items) => lemma_build_list(d, items),
        Data::Tuple(items) => lemma_build_list(d, items),
        Data::TupleStruct(_, items) => lemma_build_list(d, items),
        Data::Mapping(entries) => {
            lemma_build_pairs_members(entries, entries.len());
            let (keys, vals) = build_pairs(entries, entries.len())->Ok_0;
            assert forall|i: int| 0 <= i < entries.len() implies well_formed(#[trigger] keys[i])
                && well_formed(vals[i]) by {
                assert(build(entries[i].0) is Ok);
                lemma_build_well_formed(entries[i].0);
                lemma_build_well_formed(entries[i].1);
            }
            assert(all_well_formed(vals)) by {
                assert forall|i: int| 0 <= i < vals.len() implies well_formed(
                    #[trigger] vals[i],
                ) by {
                    assert(well_formed(keys[i]));
                }
            }
            lemma_map_end_any(
                MapModel {
                    key_ty: None,
                    value_ty: None,
                    key_human: true,
                    human: true,
                    keys,
                    values: vals,
                    size: None,
                },
            );
        },
        Data::Struct(_, fields) => {
            lemma_build_fields_members(fields, fields.len());
            let vals = build_fields(fields, fields.len())->Ok_0;
            let keys = name_values(fields);
            assert forall|i: int| 0 <= i < vals.len() implies well_formed(#[trigger] vals[i]) by {
                assert(build(fields[i].1) is Ok);
                lemma_build_well_formed(fields[i].1);
            }
            assert forall|i: int| 0 <= i < keys.len() implies well_formed(#[trigger] keys[i]) by {
                assert(keys[i] == Value::Str(fields[i].0));
            }
            lemma_map_end_any(
                MapModel {
                    key_ty: None,
                    value_ty: None,
                    key_human: true,
                    human: true,
                    keys,
                    values: vals,
                    size: None,
                },
            );
        },
        _ => {},
    }
}

proof fn lemma_build_list(d: Data, items: Seq<Data>)
    requires
        lists(d, items),
        build_all(items, items.len()) is Ok,
    ensures
        well_formed(tuple_or_array(build_all(items, items.len())->Ok_0)),
    decreases d, 0nat,
{
    lemma_build_all_members(items, items.len());
    let members = build_all(items, items.len())->Ok_0;
    assert forall|i: int| 0 <= i < members.len() implies well_formed(#[trigger] members[i]) by {
        assert(build(items[i]) is Ok);
        lemma_build_well_formed(items[i]);
    }
    lemma_tuple_or_array(members);
}

} // verus!

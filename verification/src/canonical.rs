//! Canonical values: what decoding and then encoding with no expected type
//! reproduces.

use crate::any_variant::deserializer::{
    byte_of, bytes_of, decode_all, decode_any, decode_entries,
};
use crate::any_variant::serializer::{
    encode, entries_of, fill_map, fill_seq, map_end, map_key_step, map_new,
    map_value_step, seq_end, seq_new, seq_step, tuple_or_array, MapModel, Plan, SeqModel,
};
use crate::any_variant::{
    build, build_all, build_fields, build_pairs, dictionary_of, emit, emit_all, emit_entries,
    emit_entry, name_values,
};
use crate::datum::Data;
use crate::error::Failure;
use crate::round_trip::{
    lemma_fill_map_members, lemma_fill_seq_members, lemma_map_end_entries,
};
use crate::util::boxed_all;
use crate::variant::{byte_values, type_of, types_of, Value};
use crate::well_formed::{
    lemma_build_all_members, lemma_build_fields_members, lemma_build_pairs_members,
};
use crate::variant_ty::{BasicTy, Ty};
use vstd::prelude::*;

verus! {

/// What is encoded with no expected type is neither in a box nor a bare
/// dictionary entry.
pub proof fn lemma_inferred_is_bare(d: Data, human: bool)
    requires
        encode(d, None, human) is Ok,
    ensures
        !(encode(d, None, human)->Ok_0 is Boxed),
        !(encode(d, None, human)->Ok_0 is DictEntry),
    decreases d,
{
    match d {
        Data::Newtype(_, inner) => {
            lemma_inferred_is_bare(*inner, human);
        },
        Data::Sequence(items) => {
            let start = seq_new(None, human, Some(items.len()))->Ok_0;
            lemma_fill_seq_members(items, items.len(), start);
        },
        Data::Tuple(items) => {
            let start = seq_new(Some(Ty::AnyTuple), human, Some(items.len()))->Ok_0;
            lemma_fill_seq_members(items, items.len(), start);
        },
        Data::TupleStruct(_, items) => {
            let start = seq_new(Some(Ty::AnyTuple), human, Some(items.len()))->Ok_0;
            lemma_fill_seq_members(items, items.len(), start);
        },
        Data::Struct(_, fields) => {
            if !human {
                let start = seq_new(Some(Ty::AnyTuple), human, Some(fields.len()))->Ok_0;
                crate::round_trip::lemma_fill_fields_members(fields, fields.len(), start);
            }
        },
        _ => {},
    }
}

/// Only a byte has the byte type, and only a dictionary entry has the type
/// of one.
pub proof fn lemma_type_tells_kind(v: Value)
    ensures
        type_of(v) == Ty::Basic(BasicTy::Byte) ==> v == Value::Byte(byte_of(v)),
        type_of(v) is DictEntry ==> v is DictEntry,
        type_of(v) is Variant ==> v is Boxed,
{
}

/// Members that are encoded one by one fill a list in order.
pub proof fn lemma_fill_seq_build(items: Seq<Data>, made: Seq<Value>, n: nat, human: bool)
    requires
        n <= items.len(),
        items.len() == made.len(),
        forall|i: int|
            0 <= i < n ==> encode(#[trigger] items[i], None, human) == Ok::<Value, Failure>(
                made[i],
            ),
    ensures
        fill_seq(items, n, inferred_list(human, items.len())) == Ok::<SeqModel, Failure>(
            SeqModel {
                ty: None,
                human,
                plan: Plan::Generic { elem: None, size: Some(items.len()) },
                variants: made.take(n as int),
            },
        ),
    decreases n,
{
    if n == 0 {
        assert(made.take(0) =~= Seq::<Value>::empty());
    } else {
        lemma_fill_seq_build(items, made, (n - 1) as nat, human);
        assert(made.take(n - 1).push(made[n - 1]) =~= made.take(n as int));
        let m0 = fill_seq(items, (n - 1) as nat, inferred_list(human, items.len()))->Ok_0;
        assert(crate::any_variant::serializer::plan_next(m0.plan) == Ok::<(Option<Ty>, Plan), Failure>(
            (None, m0.plan),
        ));
        assert(encode(items[n - 1], None, human) == Ok::<Value, Failure>(made[n - 1]));
        assert(seq_step(m0, items[n - 1]) == Ok::<SeqModel, Failure>(
            SeqModel {
                ty: m0.ty,
                human: m0.human,
                plan: m0.plan,
                variants: m0.variants.push(made[n - 1]),
            },
        ));
    }
}

/// The empty list under construction for a sequence of `len` members with no
/// expected type.
pub open spec fn inferred_list(human: bool, len: nat) -> SeqModel {
    SeqModel {
        ty: None,
        human,
        plan: Plan::Generic { elem: None, size: Some(len) },
        variants: Seq::empty(),
    }
}

/// Keys and values that are encoded one by one fill a dictionary in order.
pub proof fn lemma_fill_map_build(
    entries: Seq<(Data, Data)>,
    keys: Seq<Value>,
    vals: Seq<Value>,
    n: nat,
    human: bool,
)
    requires
        n <= entries.len(),
        entries.len() == keys.len(),
        entries.len() == vals.len(),
        forall|i: int|
            0 <= i < n ==> encode((#[trigger] entries[i]).0, None, human) == Ok::<Value, Failure>(
                keys[i],
            ) && encode(entries[i].1, None, human) == Ok::<Value, Failure>(vals[i]),
    ensures
        fill_map(entries, n, map_new(None, None, human, Some(entries.len()))) == Ok::<
            MapModel,
            Failure,
        >(
            MapModel {
                key_ty: None,
                value_ty: None,
                key_human: human,
                human,
                keys: keys.take(n as int),
                values: vals.take(n as int),
                size: Some(entries.len()),
            },
        ),
    decreases n,
{
    if n == 0 {
        assert(keys.take(0) =~= Seq::<Value>::empty());
        assert(vals.take(0) =~= Seq::<Value>::empty());
    } else {
        lemma_fill_map_build(entries, keys, vals, (n - 1) as nat, human);
        assert(keys.take(n - 1).push(keys[n - 1]) =~= keys.take(n as int));
        assert(vals.take(n - 1).push(vals[n - 1]) =~= vals.take(n as int));
        let m0 = fill_map(entries, (n - 1) as nat, map_new(None, None, human, Some(entries.len())))->Ok_0;
        let m1 = map_key_step(m0, entries[n - 1].0)->Ok_0;
        assert(m1.keys == keys.take(n - 1).push(keys[n - 1]));
        assert(map_value_step(m1, entries[n - 1].1) == fill_map(
            entries,
            n,
            map_new(None, None, human, Some(entries.len())),
        ));
    }
}

/// Members that are read one by one are read together.
pub proof fn lemma_decode_all_build(items: Seq<Value>, read: Seq<Data>, n: nat)
    requires
        n <= items.len(),
        items.len() == read.len(),
        forall|i: int|
            0 <= i < n ==> decode_any(#[trigger] items[i]) == Ok::<Data, Failure>(read[i]),
    ensures
        decode_all(items, n) == Ok::<Seq<Data>, Failure>(read.take(n as int)),
    decreases n,
{
    if n == 0 {
        assert(read.take(0) =~= Seq::<Data>::empty());
    } else {
        lemma_decode_all_build(items, read, (n - 1) as nat);
        assert(read.take(n - 1).push(read[n - 1]) =~= read.take(n as int));
    }
}

/// Entries whose keys and values are read one by one are read together.
pub proof fn lemma_decode_entries_build(
    keys: Seq<Value>,
    vals: Seq<Value>,
    read: Seq<(Data, Data)>,
    n: nat,
)
    requires
        n <= keys.len(),
        keys.len() == read.len(),
        forall|i: int|
            0 <= i < n ==> decode_any(#[trigger] keys[i]) == Ok::<Data, Failure>(read[i].0)
                && decode_any(vals[i]) == Ok::<Data, Failure>(read[i].1),
    ensures
        decode_entries(entries_of(keys, vals), n) == Ok::<Seq<(Data, Data)>, Failure>(
            read.take(n as int),
        ),
    decreases n,
{
    if n == 0 {
        assert(read.take(0) =~= Seq::<(Data, Data)>::empty());
    } else {
        lemma_decode_entries_build(keys, vals, read, (n - 1) as nat);
        assert(read.take(n - 1).push(read[n - 1]) =~= read.take(n as int));
        assert(entries_of(keys, vals)[n - 1] == Value::DictEntry(
            Box::new(keys[n - 1]),
            Box::new(vals[n - 1]),
        ));
    }
}

/// What is read of each of the first `n` members, where all are read.
pub proof fn lemma_decode_all_members(items: Seq<Value>, n: nat)
    requires
        n <= items.len(),
        decode_all(items, n) is Ok,
    ensures
        decode_all(items, n)->Ok_0.len() == n,
        forall|i: int|
            0 <= i < n ==> decode_any(#[trigger] items[i]) == Ok::<Data, Failure>(
                decode_all(items, n)->Ok_0[i],
            ),
    decreases n,
{
    if n > 0 {
        lemma_decode_all_members(items, (n - 1) as nat);
    }
}

/// What is read of each of the first `n` entries, where all are read.
pub proof fn lemma_decode_entries_members(items: Seq<Value>, n: nat)
    requires
        n <= items.len(),
        decode_entries(items, n) is Ok,
    ensures
        decode_entries(items, n)->Ok_0.len() == n,
        forall|i: int|
            0 <= i < n ==> ((#[trigger] items[i]) matches Value::DictEntry(k, v) && decode_any(*k)
                == Ok::<Data, Failure>(decode_entries(items, n)->Ok_0[i].0) && decode_any(*v)
                == Ok::<Data, Failure>(decode_entries(items, n)->Ok_0[i].1)),
    decreases n,
{
    if n > 0 {
        lemma_decode_entries_members(items, (n - 1) as nat);
    }
}

/// A value is canonical when decoding it and encoding what was read, with no
/// expected type, reproduces it.
pub open spec fn is_canonical(c: Value, human: bool) -> bool {
    decode_any(c) matches Ok(d) && encode(d, None, human) == Ok::<Value, Failure>(c)
}

/// Decoding a value and encoding what was read, with no expected type, gives
/// a canonical value: one that the same two steps reproduce.
pub proof fn lemma_decode_encode_canonical(x: Value, human: bool)
    requires
        decode_any(x) matches Ok(d) && encode(d, None, human) is Ok,
    ensures
        is_canonical(encode(decode_any(x)->Ok_0, None, human)->Ok_0, human),
    decreases x, 2nat,
{
    match x {
        Value::Boxed(inner) => {
            lemma_decode_encode_canonical(*inner, human);
        },
        Value::Just(inner) => {
            lemma_decode_encode_canonical(*inner, human);
        },
        Value::Array(t, items) => match t {
            Ty::Basic(BasicTy::Byte) => {
                assert(bytes_of(byte_values(bytes_of(items))) =~= bytes_of(items));
            },
            Ty::DictEntry(_, _) => {
                lemma_canonical_dictionary(x, items, human);
            },
            _ => {
                lemma_canonical_list(x, items, human);
            },
        },
        Value::Tuple(items) => {
            if items.len() > 0 {
                lemma_canonical_list(x, items, human);
            }
        },
        _ => {},
    }
}

/// Whether `items` are the members of the array or tuple `x`.
pub open spec fn holds(x: Value, items: Seq<Value>) -> bool {
    match x {
        Value::Array(_, v) => v == items,
        Value::Tuple(v) => v == items,
        _ => false,
    }
}

/// The sequence that is read of the members of an array or a tuple is
/// encoded as a canonical array or tuple.
proof fn lemma_canonical_list(x: Value, items: Seq<Value>, human: bool)
    requires
        holds(x, items),
        decode_all(items, items.len()) matches Ok(ds) && encode(Data::Sequence(ds), None, human)
            is Ok,
    ensures
        is_canonical(
            encode(Data::Sequence(decode_all(items, items.len())->Ok_0), None, human)->Ok_0,
            human,
        ),
    decreases x, 1nat,
{
    let n = items.len();
    let ds = decode_all(items, n)->Ok_0;
    lemma_decode_all_members(items, n);
    let start = inferred_list(human, n);
    assert(seq_new(None, human, Some(n)) == Ok::<SeqModel, Failure>(start));
    let m = fill_seq(ds, n, start)->Ok_0;
    lemma_fill_seq_members(ds, n, start);
    let cs = m.variants;
    let c = encode(Data::Sequence(ds), None, human)->Ok_0;
    assert(c == tuple_or_array(cs));
    assert forall|i: int| 0 <= i < n implies is_canonical(#[trigger] cs[i], human) && !(cs[i]
        is DictEntry) by {
        assert(decode_any(items[i]) == Ok::<Data, Failure>(ds[i]));
        assert(encode(ds[i], None, human) == Ok::<Value, Failure>(cs[i]));
        lemma_decode_encode_canonical(items[i], human);
        lemma_inferred_is_bare(ds[i], human);
    }
    let es = Seq::new(n, |i: int| decode_any(cs[i])->Ok_0);
    if n == 0 {
        assert(cs =~= Seq::<Value>::empty());
    } else if c is Array && c->Array_0 == Ty::Basic(BasicTy::Byte) {
        assert forall|i: int| 0 <= i < n implies cs[i] == Value::Byte(byte_of(#[trigger] cs[i])) by {
            assert(types_of(cs)[i] == types_of(cs)[0]);
            lemma_type_tells_kind(cs[i]);
        }
        assert(byte_values(bytes_of(cs)) =~= cs);
    } else if c is Array && c->Array_0 is DictEntry {
        assert(types_of(cs)[0] == c->Array_0);
        lemma_type_tells_kind(cs[0]);
        assert(false);
    } else {
        assert forall|i: int| 0 <= i < n implies decode_any(#[trigger] cs[i]) == Ok::<
            Data,
            Failure,
        >(es[i]) by {
            assert(is_canonical(cs[i], human));
        }
        lemma_decode_all_build(cs, es, n);
        assert(es.take(n as int) =~= es);
        assert(decode_any(c) == Ok::<Data, Failure>(Data::Sequence(es)));
        assert forall|i: int| 0 <= i < n implies encode(#[trigger] es[i], None, human) == Ok::<
            Value,
            Failure,
        >(cs[i]) by {
            assert(is_canonical(cs[i], human));
        }
        lemma_fill_seq_build(es, cs, n, human);
        assert(cs.take(n as int) =~= cs);
        assert(seq_new(None, human, Some(es.len())) == Ok::<SeqModel, Failure>(
            inferred_list(human, n),
        ));
        let m2 = fill_seq(es, n, inferred_list(human, n))->Ok_0;
        assert(m2.variants == cs);
        assert(seq_end(m2) == Ok::<Value, Failure>(tuple_or_array(cs)));
        assert(encode(Data::Sequence(es), None, human) == Ok::<Value, Failure>(c));
    }
}

/// The map that is read of the entries of a dictionary is encoded as a
/// canonical dictionary.
proof fn lemma_canonical_dictionary(x: Value, items: Seq<Value>, human: bool)
    requires
        holds(x, items),
        decode_entries(items, items.len()) matches Ok(pairs) && encode(
            Data::Mapping(pairs),
            None,
            human,
        ) is Ok,
    ensures
        is_canonical(
            encode(Data::Mapping(decode_entries(items, items.len())->Ok_0), None, human)->Ok_0,
            human,
        ),
    decreases x, 1nat,
{
    let n = items.len();
    let pairs = decode_entries(items, n)->Ok_0;
    lemma_decode_entries_members(items, n);
    let start = map_new(None, None, human, Some(n));
    let m = fill_map(pairs, n, start)->Ok_0;
    lemma_fill_map_members(pairs, n, start);
    let c = encode(Data::Mapping(pairs), None, human)->Ok_0;
    assert(map_end(m) == Ok::<Value, Failure>(c));
    lemma_map_end_entries(m);
    assert forall|i: int| 0 <= i < n implies is_canonical(#[trigger] m.keys[i], human)
        && is_canonical(m.values[i], human) by {
        let k = items[i]->DictEntry_0;
        let v = items[i]->DictEntry_1;
        assert(items[i] is DictEntry);
        assert(encode(pairs[i].0, None, human) == Ok::<Value, Failure>(m.keys[i]));
        assert(encode(pairs[i].1, None, human) == Ok::<Value, Failure>(m.values[i]));
        lemma_decode_encode_canonical(*k, human);
        lemma_decode_encode_canonical(*v, human);
    }
    let ys = c->Array_1;
    let vals = if ys == entries_of(m.keys, m.values) {
        m.values
    } else {
        boxed_all(m.values)
    };
    assert(ys == entries_of(m.keys, vals));
    let read = Seq::new(n, |i: int| (decode_any(m.keys[i])->Ok_0, decode_any(m.values[i])->Ok_0));
    assert forall|i: int| 0 <= i < n implies decode_any(#[trigger] m.keys[i]) == Ok::<
        Data,
        Failure,
    >(read[i].0) && decode_any(vals[i]) == Ok::<Data, Failure>(read[i].1) by {
        assert(is_canonical(m.keys[i], human) && is_canonical(m.values[i], human));
    }
    lemma_decode_entries_build(m.keys, vals, read, n);
    assert(read.take(n as int) =~= read);
    assert(decode_any(c) == Ok::<Data, Failure>(Data::Mapping(read)));
    assert forall|i: int| 0 <= i < n implies encode((#[trigger] read[i]).0, None, human) == Ok::<
        Value,
        Failure,
    >(m.keys[i]) && encode(read[i].1, None, human) == Ok::<Value, Failure>(m.values[i]) by {
        assert(is_canonical(m.keys[i], human) && is_canonical(m.values[i], human));
    }
    lemma_fill_map_build(read, m.keys, m.values, n, human);
    assert(m.keys.take(n as int) =~= m.keys);
    assert(m.values.take(n as int) =~= m.values);
    assert(fill_map(read, n, map_new(None, None, human, Some(n))) == Ok::<MapModel, Failure>(m));
}

/// What is built with no type expected of it is neither in a box nor a bare
/// dictionary entry.
pub proof fn lemma_built_is_bare(d: Data)
    requires
        build(d) is Ok,
    ensures
        !(build(d)->Ok_0 is Boxed),
        !(build(d)->Ok_0 is DictEntry),
    decreases d,
{
    match d {
        Data::Newtype(_, inner) => {
            lemma_built_is_bare(*inner);
        },
        _ => {},
    }
}

/// Members that present themselves one by one present themselves together.
pub proof fn lemma_emit_all_build(items: Seq<Value>, shown: Seq<Data>, n: nat)
    requires
        n <= items.len(),
        items.len() == shown.len(),
        forall|i: int| 0 <= i < n ==> emit(#[trigger] items[i]) == Ok::<Data, Failure>(shown[i]),
    ensures
        emit_all(items, n) == Ok::<Seq<Data>, Failure>(shown.take(n as int)),
    decreases n,
{
    if n == 0 {
        assert(shown.take(0) =~= Seq::<Data>::empty());
    } else {
        lemma_emit_all_build(items, shown, (n - 1) as nat);
        assert(shown.take(n - 1).push(shown[n - 1]) =~= shown.take(n as int));
    }
}

/// Entries that present themselves one by one present themselves together.
pub proof fn lemma_emit_entries_build(
    items: Seq<Value>,
    shown: Seq<(Data, Data)>,
    n: nat,
    vardict: bool,
)
    requires
        n <= items.len(),
        items.len() == shown.len(),
        forall|i: int|
            0 <= i < n ==> emit_entry(#[trigger] items[i], vardict) == Ok::<(Data, Data), Failure>(
                shown[i],
            ),
    ensures
        emit_entries(items, n, vardict) == Ok::<Seq<(Data, Data)>, Failure>(shown.take(n as int)),
    decreases n,
{
    if n == 0 {
        assert(shown.take(0) =~= Seq::<(Data, Data)>::empty());
    } else {
        lemma_emit_entries_build(items, shown, (n - 1) as nat, vardict);
        assert(shown.take(n - 1).push(shown[n - 1]) =~= shown.take(n as int));
    }
}

/// Members that are built one by one are built together.
pub proof fn lemma_build_all_build(items: Seq<Data>, made: Seq<Value>, n: nat)
    requires
        n <= items.len(),
        items.len() == made.len(),
        forall|i: int| 0 <= i < n ==> build(#[trigger] items[i]) == Ok::<Value, Failure>(made[i]),
    ensures
        build_all(items, n) == Ok::<Seq<Value>, Failure>(made.take(n as int)),
    decreases n,
{
    if n == 0 {
        assert(made.take(0) =~= Seq::<Value>::empty());
    } else {
        lemma_build_all_build(items, made, (n - 1) as nat);
        assert(made.take(n - 1).push(made[n - 1]) =~= made.take(n as int));
    }
}

/// Keys and values that are built one by one are built together.
pub proof fn lemma_build_pairs_build(
    entries: Seq<(Data, Data)>,
    keys: Seq<Value>,
    vals: Seq<Value>,
    n: nat,
)
    requires
        n <= entries.len(),
        entries.len() == keys.len(),
        entries.len() == vals.len(),
        forall|i: int|
            0 <= i < n ==> build((#[trigger] entries[i]).0) == Ok::<Value, Failure>(keys[i])
                && build(entries[i].1) == Ok::<Value, Failure>(vals[i]),
    ensures
        build_pairs(entries, n) == Ok::<(Seq<Value>, Seq<Value>), Failure>(
            (keys.take(n as int), vals.take(n as int)),
        ),
    decreases n,
{
    if n == 0 {
        assert(keys.take(0) =~= Seq::<Value>::empty());
        assert(vals.take(0) =~= Seq::<Value>::empty());
    } else {
        lemma_build_pairs_build(entries, keys, vals, (n - 1) as nat);
        assert(keys.take(n - 1).push(keys[n - 1]) =~= keys.take(n as int));
        assert(vals.take(n - 1).push(vals[n - 1]) =~= vals.take(n as int));
    }
}

/// A value is settled when presenting it to the generic model and building
/// what it presents, with no type expected, gives the value back.
pub open spec fn is_settled(v: Value) -> bool {
    emit(v) matches Ok(d) && build(d) == Ok::<Value, Failure>(v)
}

/// What is built with no type expected of it is settled: it presents itself
/// as something that builds it again.
pub proof fn lemma_built_is_settled(d: Data)
    requires
        build(d) is Ok,
    ensures
        is_settled(build(d)->Ok_0),
    decreases d, 2nat,
{
    match d {
        Data::Present(inner) => {
            lemma_built_is_settled(*inner);
        },
        Data::Newtype(_, inner) => {
            lemma_built_is_settled(*inner);
        },
        Data::Sequence(items) => lemma_settled_list(d, items),
        Data::Tuple(items) => lemma_settled_list(d, items),
        Data::TupleStruct(_, items) => lemma_settled_list(d, items),
        Data::Mapping(_) => lemma_settled_mapping(d),
        Data::Struct(_, _) => lemma_settled_struct(d),
        _ => lemma_settled_scalar(d),
    }
}

/// A scalar that is built is settled.
proof fn lemma_settled_scalar(d: Data)
    requires
        build(d) is Ok,
        !(d is Present || d is Newtype || d is Sequence || d is Tuple || d is TupleStruct
            || d is Mapping || d is Struct),
    ensures
        is_settled(build(d)->Ok_0),
{
    match d {
        Data::Bytes(b) => {
            assert(bytes_of(byte_values(b)) =~= b);
        },
        _ => {},
    }
}

/// The dictionary that is built of a map is settled.
proof fn lemma_settled_mapping(d: Data)
    requires
        d is Mapping,
        build(d) is Ok,
    ensures
        is_settled(build(d)->Ok_0),
    decreases d, 1nat,
{
    let entries = d->Mapping_0;
    lemma_build_pairs_members(entries, entries.len());
    let (keys, vals) = build_pairs(entries, entries.len())->Ok_0;
    assert forall|i: int| 0 <= i < keys.len() implies is_settled(#[trigger] keys[i])
        && is_settled(vals[i]) && !(vals[i] is Boxed) by {
        assert(build(entries[i].0) is Ok);
        lemma_built_is_settled(entries[i].0);
        lemma_built_is_settled(entries[i].1);
        lemma_built_is_bare(entries[i].1);
    }
    lemma_settled_dictionary(keys, vals);
}

/// The dictionary that is built of a named aggregate is settled.
proof fn lemma_settled_struct(d: Data)
    requires
        d is Struct,
        build(d) is Ok,
    ensures
        is_settled(build(d)->Ok_0),
    decreases d, 1nat,
{
    let fields = d->Struct_1;
    lemma_build_fields_members(fields, fields.len());
    let vals = build_fields(fields, fields.len())->Ok_0;
    let keys = name_values(fields);
    assert forall|i: int| 0 <= i < keys.len() implies is_settled(#[trigger] keys[i])
        && is_settled(vals[i]) && !(vals[i] is Boxed) by {
        assert(keys[i] == Value::Str(fields[i].0));
        assert(build(fields[i].1) is Ok);
        lemma_built_is_settled(fields[i].1);
        lemma_built_is_bare(fields[i].1);
    }
    lemma_settled_dictionary(keys, vals);
}

/// Whether `items` are the members of the sequence or tuple `d`.
spec fn lists(d: Data, items: Seq<Data>) -> bool {
    match d {
        Data::Sequence(v) => v == items,
        Data::Tuple(v) => v == items,
        Data::TupleStruct(_, v) => v == items,
        _ => false,
    }
}

/// The tuple or the array that is built of a list is settled.
proof fn lemma_settled_list(d: Data, items: Seq<Data>)
    requires
        lists(d, items),
        build_all(items, items.len()) is Ok,
    ensures
        is_settled(tuple_or_array(build_all(items, items.len())->Ok_0)),
    decreases d, 1nat,
{
    let n = items.len();
    lemma_build_all_members(items, n);
    let ms = build_all(items, n)->Ok_0;
    let v = tuple_or_array(ms);
    assert forall|i: int| 0 <= i < n implies is_settled(#[trigger] ms[i]) && !(ms[i]
        is DictEntry) by {
        assert(build(items[i]) is Ok);
        lemma_built_is_settled(items[i]);
        lemma_built_is_bare(items[i]);
    }
    let es = Seq::new(n, |i: int| emit(ms[i])->Ok_0);
    assert forall|i: int| 0 <= i < n implies emit(#[trigger] ms[i]) == Ok::<Data, Failure>(
        es[i],
    ) by {
        assert(is_settled(ms[i]));
    }
    assert forall|i: int| 0 <= i < n implies build(#[trigger] es[i]) == Ok::<Value, Failure>(
        ms[i],
    ) by {
        assert(is_settled(ms[i]));
    }
    lemma_emit_all_build(ms, es, n);
    lemma_build_all_build(es, ms, n);
    assert(es.take(n as int) =~= es);
    assert(ms.take(n as int) =~= ms);
    if n == 0 {
        assert(ms =~= Seq::<Value>::empty());
        assert(emit_all(Seq::<Value>::empty(), 0) == Ok::<Seq<Data>, Failure>(Seq::empty()));
        assert(build_all(Seq::<Data>::empty(), 0) == Ok::<Seq<Value>, Failure>(Seq::empty()));
    } else if v is Array && v->Array_0 == Ty::Basic(BasicTy::Byte) {
        assert forall|i: int| 0 <= i < n implies ms[i] == Value::Byte(byte_of(#[trigger] ms[i])) by {
            assert(types_of(ms)[i] == types_of(ms)[0]);
            lemma_type_tells_kind(ms[i]);
        }
        assert(byte_values(bytes_of(ms)) =~= ms);
    } else if v is Array && v->Array_0 is DictEntry {
        assert(types_of(ms)[0] == v->Array_0);
        lemma_type_tells_kind(ms[0]);
        assert(false);
    } else if v is Array {
        assert(emit(v) == Ok::<Data, Failure>(Data::Sequence(es)));
    } else {
        assert(emit(v) == Ok::<Data, Failure>(Data::Tuple(es)));
    }
}

/// The dictionary that is made of settled keys and values is settled.
proof fn lemma_settled_dictionary(keys: Seq<Value>, vals: Seq<Value>)
    requires
        keys.len() == vals.len(),
        forall|i: int|
            0 <= i < keys.len() ==> is_settled(#[trigger] keys[i]) && is_settled(vals[i]) && !(
            vals[i] is Boxed),
        dictionary_of(keys, vals) is Ok,
    ensures
        is_settled(dictionary_of(keys, vals)->Ok_0),
{
    let n = keys.len();
    let m = MapModel {
        key_ty: None,
        value_ty: None,
        key_human: true,
        human: true,
        keys,
        values: vals,
        size: None,
    };
    let v = map_end(m)->Ok_0;
    lemma_map_end_entries(m);
    let t = v->Array_0;
    let entries = v->Array_1;
    let vardict = t->DictEntry_0 == BasicTy::Str && *t->DictEntry_1 is Variant;
    let boxed = entries != entries_of(keys, vals);
    let held = if boxed {
        boxed_all(vals)
    } else {
        vals
    };
    assert(entries == entries_of(keys, held));
    let shown = Seq::new(
        n,
        |i: int|
            (
                emit(keys[i])->Ok_0,
                if boxed && !vardict {
                    Data::Newtype(crate::any_variant::boxed_name(), Box::new(emit(vals[i])->Ok_0))
                } else {
                    emit(vals[i])->Ok_0
                },
            ),
    );
    assert forall|i: int| 0 <= i < n implies emit_entry(#[trigger] entries[i], vardict) == Ok::<
        (Data, Data),
        Failure,
    >(shown[i]) by {
        assert(is_settled(keys[i]) && is_settled(vals[i]) && !(vals[i] is Boxed));
        assert(entries[i] == Value::DictEntry(Box::new(keys[i]), Box::new(held[i])));
        if boxed {
            assert(held[i] == Value::Boxed(Box::new(vals[i])));
        }
    }
    lemma_emit_entries_build(entries, shown, n, vardict);
    assert(shown.take(n as int) =~= shown);
    assert(emit(v) == Ok::<Data, Failure>(Data::Mapping(shown)));
    assert forall|i: int| 0 <= i < n implies build((#[trigger] shown[i]).0) == Ok::<
        Value,
        Failure,
    >(keys[i]) && build(shown[i].1) == Ok::<Value, Failure>(vals[i]) by {
        assert(is_settled(keys[i]) && is_settled(vals[i]));
    }
    lemma_build_pairs_build(shown, keys, vals, n);
    assert(keys.take(n as int) =~= keys);
    assert(vals.take(n as int) =~= vals);
}

} // verus!

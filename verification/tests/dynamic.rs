use glib_serde::any_variant::{deserialize, serialize, AnyVariant};
use glib_serde::datum::Datum;
use glib_serde::error::Error;
use glib_serde::to_variant;
use glib_serde::traits::GlibVariantWrapper;
use glib_serde::variant::Variant;
use glib_serde::variant_dict::VariantDict;
use glib_serde::variant_ty::VariantTy;
use std::borrow::Cow;

fn ty(text: &str) -> VariantTy {
    VariantTy::new(text).unwrap()
}

fn s(text: &str) -> Datum {
    Datum::Str(text.into())
}

fn vs(text: &str) -> Variant {
    Variant::Str(text.into())
}

fn boxed(v: Variant) -> Variant {
    Variant::Boxed(Box::new(v))
}

fn entry(k: Variant, v: Variant) -> Variant {
    Variant::DictEntry(Box::new(k), Box::new(v))
}

#[test]
fn owned_and_borrowed() {
    let v = Variant::Int32(1);
    let borrowed = AnyVariant::borrow(&v);
    assert_eq!(borrowed.inner(), &v);
    assert!(matches!(borrowed.into_inner(), Cow::Borrowed(_)));
    assert_eq!(AnyVariant::borrow(&v).into_variant(), v);
    let owned = AnyVariant::wrap(Variant::Int32(1));
    assert_eq!(owned.inner(), &v);
    assert!(matches!(owned.into_inner(), Cow::Owned(_)));
    assert_eq!(AnyVariant::wrap(Variant::Int32(2)).variant_ref(), &Variant::Int32(2));
    assert_eq!(GlibVariantWrapper::into_variant(AnyVariant::borrow(&v)), v);
    assert!(matches!(AnyVariant::borrow(&v).variant_cow(), Cow::Borrowed(_)));
    assert!(matches!(Variant::Int32(3).variant_cow(), Cow::Owned(_)));
    assert_eq!(Variant::Int32(3).variant_ref(), &Variant::Int32(3));
    let cow: Cow<Variant> = Cow::Borrowed(&v);
    assert_eq!(cow.variant_ref(), &v);
    assert_eq!(GlibVariantWrapper::into_variant(cow), v);
}

#[test]
fn scalars_present_themselves() {
    assert_eq!(serialize(&Variant::Boolean(true)), Ok(Datum::Bool(true)));
    assert_eq!(serialize(&Variant::Byte(1)), Ok(Datum::U8(1)));
    assert_eq!(serialize(&Variant::Int16(1)), Ok(Datum::I16(1)));
    assert_eq!(serialize(&Variant::Uint16(1)), Ok(Datum::U16(1)));
    assert_eq!(serialize(&Variant::Int32(1)), Ok(Datum::I32(1)));
    assert_eq!(serialize(&Variant::Uint32(1)), Ok(Datum::U32(1)));
    assert_eq!(serialize(&Variant::Int64(1)), Ok(Datum::I64(1)));
    assert_eq!(serialize(&Variant::Uint64(1)), Ok(Datum::U64(1)));
    assert_eq!(serialize(&Variant::Double(9)), Ok(Datum::F64(9)));
    assert_eq!(serialize(&vs("a")), Ok(s("a")));
    assert_eq!(serialize(&Variant::ObjectPath("/a".into())), Ok(s("/a")));
    assert_eq!(serialize(&Variant::Signature("i".into())), Ok(s("i")));
    assert_eq!(serialize(&Variant::Handle(1)), Err(Error::UnsupportedType(ty("h"))));
}

#[test]
fn boxed_value_presents_a_wrapper() {
    assert_eq!(
        serialize(&boxed(Variant::Int32(1))),
        Ok(Datum::Newtype("Variant".into(), Box::new(Datum::I32(1))))
    );
    assert_ne!(serialize(&boxed(Variant::Int32(1))), serialize(&Variant::Int32(1)));
}

#[test]
fn optional_values_present_present_or_absent() {
    assert_eq!(serialize(&Variant::Nothing(ty("i"))), Ok(Datum::Absent));
    assert_eq!(
        serialize(&Variant::Just(Box::new(Variant::Int32(1)))),
        Ok(Datum::Present(Box::new(Datum::I32(1))))
    );
}

#[test]
fn containers_present_themselves() {
    assert_eq!(
        serialize(&Variant::array_from_fixed_array(&[1, 2])),
        Ok(Datum::Bytes(vec![1, 2]))
    );
    assert_eq!(
        serialize(&Variant::Array(ty("q"), vec![Variant::Uint16(1)])),
        Ok(Datum::Sequence(vec![Datum::U16(1)]))
    );
    assert_eq!(
        serialize(&Variant::Tuple(vec![Variant::Uint16(1), vs("a")])),
        Ok(Datum::Tuple(vec![Datum::U16(1), s("a")]))
    );
    assert_eq!(serialize(&Variant::Tuple(vec![])), Ok(Datum::Tuple(vec![])));
    assert_eq!(
        serialize(&entry(vs("k"), Variant::Byte(1))),
        Ok(Datum::TupleStruct("{?*}".into(), vec![s("k"), Datum::U8(1)]))
    );
    assert_eq!(
        serialize(&Variant::Array(ty("h"), vec![Variant::Handle(1)])),
        Err(Error::UnsupportedType(ty("h")))
    );
}

#[test]
fn dictionaries_present_maps() {
    let d = Variant::Array(
        ty("{si}"),
        vec![entry(vs("b"), Variant::Int32(2)), entry(vs("a"), Variant::Int32(1))],
    );
    assert_eq!(
        serialize(&d),
        Ok(Datum::Mapping(vec![(s("b"), Datum::I32(2)), (s("a"), Datum::I32(1))]))
    );
}

#[test]
fn vardict_values_are_unboxed() {
    let d = Variant::Array(
        ty("{sv}"),
        vec![entry(vs("a"), boxed(Variant::Int32(1))), entry(vs("b"), boxed(vs("x")))],
    );
    assert_eq!(
        serialize(&d),
        Ok(Datum::Mapping(vec![(s("a"), Datum::I32(1)), (s("b"), s("x"))]))
    );
    let other = Variant::Array(ty("{iv}"), vec![entry(Variant::Int32(1), boxed(vs("x")))]);
    assert_eq!(
        serialize(&other),
        Ok(Datum::Mapping(vec![(
            Datum::I32(1),
            Datum::Newtype("Variant".into(), Box::new(s("x")))
        )]))
    );
}

#[test]
fn scalars_take_their_narrowest_slot() {
    assert_eq!(deserialize(&Datum::Bool(true)), Ok(Variant::Boolean(true)));
    assert_eq!(deserialize(&Datum::I8(-1)), Ok(Variant::Int16(-1)));
    assert_eq!(deserialize(&Datum::I8(i8::MIN)), Ok(Variant::Int16(-128)));
    assert_eq!(deserialize(&Datum::U8(1)), Ok(Variant::Byte(1)));
    assert_eq!(deserialize(&Datum::I16(-1)), Ok(Variant::Int16(-1)));
    assert_eq!(deserialize(&Datum::U16(1)), Ok(Variant::Uint16(1)));
    assert_eq!(deserialize(&Datum::I32(-1)), Ok(Variant::Int32(-1)));
    assert_eq!(deserialize(&Datum::U32(1)), Ok(Variant::Uint32(1)));
    assert_eq!(deserialize(&Datum::I64(-1)), Ok(Variant::Int64(-1)));
    assert_eq!(deserialize(&Datum::U64(1)), Ok(Variant::Uint64(1)));
    assert_eq!(deserialize(&Datum::F64(5)), Ok(Variant::Double(5)));
    assert_eq!(deserialize(&Datum::Char('c')), Ok(vs("c")));
    assert_eq!(deserialize(&s("str")), Ok(vs("str")));
    assert_eq!(
        deserialize(&Datum::Bytes(vec![1])),
        Ok(Variant::Array(ty("y"), vec![Variant::Byte(1)]))
    );
    assert_eq!(
        deserialize(&Datum::UnitVariant { name: "E".into(), index: 1, variant: "B".into() }),
        Ok(vs("B"))
    );
    assert_eq!(
        deserialize(&Datum::Newtype("N".into(), Box::new(Datum::U8(1)))),
        Ok(Variant::Byte(1))
    );
    assert_eq!(deserialize(&Datum::Unit), Err(Error::UnsupportedType(ty("()"))));
    assert_eq!(
        deserialize(&Datum::UnitStruct("U".into())),
        Err(Error::UnsupportedType(ty("()")))
    );
}

#[test]
fn absent_falls_back_to_boxed_element() {
    assert_eq!(deserialize(&Datum::Absent), Ok(Variant::Nothing(ty("v"))));
    assert_eq!(
        deserialize(&Datum::Present(Box::new(Datum::U8(1)))),
        Ok(Variant::Just(Box::new(Variant::Byte(1))))
    );
}

#[test]
fn sequences_become_arrays_or_tuples() {
    assert_eq!(
        deserialize(&Datum::Sequence(vec![Datum::U16(1), Datum::U16(2)])),
        Ok(Variant::Array(ty("q"), vec![Variant::Uint16(1), Variant::Uint16(2)]))
    );
    assert_eq!(
        deserialize(&Datum::Sequence(vec![s("a"), Datum::U64(2)])),
        Ok(Variant::Tuple(vec![vs("a"), Variant::Uint64(2)]))
    );
    assert_eq!(deserialize(&Datum::Sequence(vec![])), Ok(Variant::Tuple(vec![])));
    assert_eq!(
        deserialize(&Datum::Tuple(vec![Datum::U16(1), Datum::U16(2)])),
        Ok(Variant::Array(ty("q"), vec![Variant::Uint16(1), Variant::Uint16(2)]))
    );
    assert_eq!(
        deserialize(&Datum::TupleStruct("T".into(), vec![Datum::U16(1)])),
        Ok(Variant::Array(ty("q"), vec![Variant::Uint16(1)]))
    );
    assert_eq!(
        deserialize(&Datum::Sequence(vec![Datum::Unit])),
        Err(Error::UnsupportedType(ty("()")))
    );
}

#[test]
fn maps_become_dictionaries() {
    assert_eq!(
        deserialize(&Datum::Mapping(vec![(s("x"), Datum::U64(1)), (s("y"), Datum::U64(2))])),
        Ok(Variant::Array(
            ty("{st}"),
            vec![entry(vs("x"), Variant::Uint64(1)), entry(vs("y"), Variant::Uint64(2))]
        ))
    );
    assert_eq!(
        deserialize(&Datum::Mapping(vec![(s("x"), Datum::U64(1)), (s("y"), s("two"))])),
        Ok(Variant::Array(
            ty("{sv}"),
            vec![
                entry(vs("x"), boxed(Variant::Uint64(1))),
                entry(vs("y"), boxed(vs("two"))),
            ]
        ))
    );
    assert_eq!(deserialize(&Datum::Mapping(vec![])), Ok(Variant::Array(ty("{sv}"), vec![])));
    assert_eq!(
        deserialize(&Datum::Mapping(vec![(s("x"), Datum::U64(1)), (Datum::U8(1), Datum::U64(2))])),
        Err(Error::InconsistentTypes)
    );
    assert_eq!(
        deserialize(&Datum::Mapping(vec![(Datum::Absent, Datum::U64(1))])),
        Err(Error::UnsupportedType(ty("mv")))
    );
    assert_eq!(
        deserialize(&Datum::Struct("S".into(), vec![("id".into(), Datum::U32(1))])),
        Ok(Variant::Array(ty("{su}"), vec![entry(vs("id"), Variant::Uint32(1))]))
    );
    assert_eq!(
        AnyVariant::deserialize(&Datum::Mapping(vec![])).ok().unwrap().into_variant(),
        Variant::Array(ty("{sv}"), vec![])
    );
}

#[test]
fn dynamic_round_trip_reaches_a_fixed_point() {
    let values = vec![
        Variant::Tuple(vec![Variant::Int32(1), Variant::Int32(2)]),
        Variant::Array(ty("i"), vec![]),
        Variant::Array(ty("v"), vec![boxed(Variant::Int32(1)), boxed(vs("a"))]),
        Variant::Nothing(ty("s")),
        boxed(boxed(Variant::Byte(1))),
        Variant::Array(ty("{sv}"), vec![entry(vs("a"), boxed(Variant::Int32(1)))]),
        Variant::ObjectPath("/a".into()),
        entry(vs("k"), Variant::Byte(1)),
    ];
    for v in values {
        let once = deserialize(&serialize(&v).unwrap()).unwrap();
        let twice = deserialize(&serialize(&once).unwrap()).unwrap();
        assert_eq!(once, twice);
    }
}

#[test]
fn decode_then_encode_reaches_a_canonical_value() {
    let values = vec![
        Variant::Tuple(vec![Variant::Int32(1), vs("a")]),
        Variant::Tuple(vec![Variant::Byte(1), Variant::Byte(2)]),
        Variant::Array(ty("i"), vec![]),
        Variant::Array(ty("{si}"), vec![]),
        Variant::Nothing(ty("s")),
        boxed(Variant::Just(Box::new(boxed(Variant::Byte(1))))),
        Variant::Array(
            ty("{sv}"),
            vec![entry(vs("a"), boxed(Variant::Int32(1))), entry(vs("b"), boxed(vs("x")))],
        ),
        Variant::Array(ty("ay"), vec![Variant::array_from_fixed_array(&[1])]),
        Variant::Signature("i".into()),
        Variant::Tuple(vec![]),
    ];
    for v in values {
        let d = AnyVariant::borrow(&v).to_serde().unwrap();
        let c = to_variant(&d).unwrap();
        let again = to_variant(&AnyVariant::borrow(&c).to_serde().unwrap()).unwrap();
        assert_eq!(c, again);
    }
    let v = Variant::Tuple(vec![Variant::Int32(1), vs("a")]);
    assert_eq!(to_variant(&AnyVariant::borrow(&v).to_serde().unwrap()), Ok(v));
    let v = Variant::Tuple(vec![Variant::Int32(1), Variant::Int32(2)]);
    let c = to_variant(&AnyVariant::borrow(&v).to_serde().unwrap()).unwrap();
    assert_eq!(c, Variant::Array(ty("i"), vec![Variant::Int32(1), Variant::Int32(2)]));
    let v = Variant::Array(ty("i"), vec![]);
    let c = to_variant(&AnyVariant::borrow(&v).to_serde().unwrap()).unwrap();
    assert_eq!(c, Variant::Tuple(vec![]));
    let v = Variant::Array(ty("q"), vec![Variant::Uint16(1)]);
    assert_eq!(to_variant(&AnyVariant::borrow(&v).to_serde().unwrap()), Ok(v));
}

#[test]
fn from_serde_infers_types() {
    let d = Datum::Sequence(vec![s("a"), s("b")]);
    assert_eq!(
        AnyVariant::from_serde(&d).ok().unwrap().into_variant(),
        Variant::Array(ty("s"), vec![vs("a"), vs("b")])
    );
    assert!(matches!(
        AnyVariant::from_serde(&Datum::Mapping(vec![(Datum::Unit, Datum::Unit)])),
        Err(Error::UnsupportedType(_))
    ));
}

#[test]
fn dictionary_keeps_insertion_order() {
    let mut dict = VariantDict::new(None);
    assert_eq!(dict.len(), 0);
    dict.insert_value("hello", &vs("world"));
    dict.insert_value("n", &Variant::Int32(1));
    dict.insert_value("hello", &vs("again"));
    assert_eq!(dict.len(), 2);
    assert!(dict.contains("n"));
    assert!(!dict.contains("m"));
    assert_eq!(dict.lookup_value("hello"), Some(&vs("again")));
    assert_eq!(dict.lookup_value("n"), Some(&Variant::Int32(1)));
    assert_eq!(dict.lookup_value("none"), None);
    let end = dict.end();
    assert_eq!(end.type_().signature(), "a{sv}");
    assert_eq!(
        end,
        Variant::Array(
            ty("{sv}"),
            vec![entry(vs("hello"), boxed(vs("again"))), entry(vs("n"), boxed(Variant::Int32(1)))]
        )
    );
    assert_eq!(dict.as_serializable().into_variant(), end);
    let copy = VariantDict::new(Some(&end));
    assert_eq!(copy.end(), end);
    assert_eq!(VariantDict::empty().end(), Variant::Array(ty("{sv}"), vec![]));
    assert_eq!(VariantDict::new(Some(&Variant::Int32(1))).len(), 0);
}

#[test]
fn dictionary_presents_a_map_of_unboxed_values() {
    let mut dict = VariantDict::empty();
    dict.insert_value("hello", &vs("world"));
    dict.insert_value("n", &boxed(Variant::Int32(1)));
    assert_eq!(
        dict.serialize(),
        Ok(Datum::Mapping(vec![
            (s("hello"), s("world")),
            (s("n"), Datum::Newtype("Variant".into(), Box::new(Datum::I32(1)))),
        ]))
    );
    dict.insert_value("h", &Variant::Handle(1));
    assert_eq!(dict.serialize(), Err(Error::UnsupportedType(ty("h"))));
}

#[test]
fn dictionary_is_built_from_a_map() {
    let d = Datum::Mapping(vec![
        (s("hello"), s("world")),
        (s("list"), Datum::Sequence(vec![Datum::U8(1), Datum::U8(2)])),
        (s("hello"), Datum::U64(1)),
    ]);
    let dict = VariantDict::deserialize(&d).ok().unwrap();
    assert_eq!(dict.len(), 2);
    assert_eq!(dict.lookup_value("hello"), Some(&Variant::Uint64(1)));
    assert_eq!(
        dict.lookup_value("list"),
        Some(&Variant::Array(ty("y"), vec![Variant::Byte(1), Variant::Byte(2)]))
    );
    assert!(matches!(VariantDict::deserialize(&s("x")), Err(Error::WrongShape)));
    assert!(matches!(
        VariantDict::deserialize(&Datum::Mapping(vec![(Datum::U8(1), Datum::U8(1))])),
        Err(Error::WrongShape)
    ));
    assert!(matches!(
        VariantDict::deserialize(&Datum::Mapping(vec![(s("k"), Datum::Unit)])),
        Err(Error::UnsupportedType(_))
    ));
}

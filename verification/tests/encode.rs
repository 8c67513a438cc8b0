use glib_serde::any_variant::serializer::{SeqElement, SeqSerializer, Serializer};
use glib_serde::any_variant::AnyVariant;
use glib_serde::datum::Datum;
use glib_serde::error::Error;
use glib_serde::traits::ToVariantExt;
use glib_serde::variant::Variant;
use glib_serde::variant_ty::VariantTy;
use glib_serde::to_variant;

fn ty(text: &str) -> VariantTy {
    VariantTy::new(text).unwrap()
}

fn typed(text: &str) -> Serializer {
    Serializer::with_type(ty(text))
}

fn s(text: &str) -> Datum {
    Datum::Str(text.into())
}

fn vs(text: &str) -> Variant {
    Variant::Str(text.into())
}

fn boxed(v: Variant) -> Variant {
    Variant::Boxed(Box::new(v))
}

fn entry(k: Variant, v: Variant) -> Variant {
    Variant::DictEntry(Box::new(k), Box::new(v))
}

fn mismatch(actual: &str, expected: &str) -> Error {
    Error::Mismatch { actual: ty(actual), expected: ty(expected) }
}

#[test]
fn encode_true_without_target() {
    let v = Datum::Bool(true).serialize(&Serializer::new(None)).unwrap();
    assert_eq!(v, Variant::Boolean(true));
    assert_eq!(AnyVariant::wrap(v).to_serde().unwrap(), Datum::Bool(true));
}

#[test]
fn encode_u16_sequence_is_homogeneous_array() {
    let d = Datum::Sequence(vec![Datum::U16(1), Datum::U16(2), Datum::U16(3)]);
    let v = d.serialize(&Serializer::new(None)).unwrap();
    assert_eq!(
        v,
        Variant::Array(ty("q"), vec![Variant::Uint16(1), Variant::Uint16(2), Variant::Uint16(3)])
    );
    assert_eq!(v.type_().signature(), "aq");
    assert_eq!(AnyVariant::wrap(v).to_serde().unwrap(), d);
}

#[test]
fn encode_mixed_tuple_is_a_tuple() {
    let d = Datum::Tuple(vec![s("a"), Datum::U64(2)]);
    let v = to_variant(&d).unwrap();
    assert_eq!(v, Variant::Tuple(vec![vs("a"), Variant::Uint64(2)]));
    assert_eq!(v.type_().signature(), "(st)");
}

#[test]
fn encode_mixed_sequence_is_a_tuple() {
    let d = Datum::Sequence(vec![s("a"), Datum::U64(2)]);
    let v = to_variant(&d).unwrap();
    assert_eq!(v, Variant::Tuple(vec![vs("a"), Variant::Uint64(2)]));
    assert_eq!(v.type_().signature(), "(st)");
    assert_eq!(d.serialize(&typed("v")), Ok(boxed(v)));
}

#[test]
fn encode_mixed_sequence_under_any_array_boxes_each_member() {
    let d = Datum::Sequence(vec![s("a"), Datum::U64(2)]);
    let expected = Variant::Array(ty("v"), vec![boxed(vs("a")), boxed(Variant::Uint64(2))]);
    assert_eq!(d.serialize(&typed("a*")), Ok(expected.clone()));
    assert_eq!(d.serialize(&typed("av")), Ok(expected));
}

#[test]
fn encode_empty_sequence() {
    let v = to_variant(&Datum::Sequence(vec![])).unwrap();
    assert_eq!(v, Variant::Tuple(vec![]));
    let v = Datum::Sequence(vec![]).serialize(&typed("as")).unwrap();
    assert_eq!(v, Variant::Array(ty("s"), vec![]));
    let v = Datum::Sequence(vec![]).serialize(&typed("a*")).unwrap();
    assert_eq!(v, Variant::Array(ty("v"), vec![]));
}

#[test]
fn tuple_under_an_array_type_is_written_as_an_array() {
    let d = Datum::Tuple(vec![Datum::I32(1), Datum::I32(2)]);
    let v = d.serialize(&typed("ai")).unwrap();
    assert_eq!(v, Variant::Array(ty("i"), vec![Variant::Int32(1), Variant::Int32(2)]));
    assert!(matches!(
        glib_serde::any_variant::deserializer::Deserializer::new(&v).deserialize_tuple(2),
        Err(Error::Mismatch { .. })
    ));
    assert!(glib_serde::any_variant::deserializer::Deserializer::new(&v).deserialize_seq().is_ok());
}

#[test]
fn encoded_values_are_well_formed() {
    let d = Datum::Mapping(vec![
        (s("x"), Datum::Sequence(vec![s("a"), Datum::U64(2)])),
        (s("y"), Datum::Sequence(vec![])),
        (s("z"), Datum::Present(Box::new(Datum::Bytes(vec![1])))),
    ]);
    assert!(to_variant(&d).unwrap().is_well_formed());
    assert!(!Variant::Array(ty("i"), vec![vs("a")]).is_well_formed());
    assert!(!Variant::Array(ty("*"), vec![]).is_well_formed());
    assert!(!Variant::Nothing(ty("r")).is_well_formed());
    assert!(!Variant::Tuple(vec![Variant::Nothing(ty("?"))]).is_well_formed());
    assert!(!entry(Variant::Tuple(vec![]), vs("a")).is_well_formed());
    assert!(entry(vs("k"), Variant::Tuple(vec![])).is_well_formed());
    assert!(!boxed(Variant::Just(Box::new(Variant::Nothing(ty("*"))))).is_well_formed());
}

#[test]
fn encode_map_in_insertion_order() {
    let d = Datum::Mapping(vec![(s("x"), Datum::U64(1)), (s("y"), Datum::U64(2))]);
    let v = to_variant(&d).unwrap();
    assert_eq!(
        v,
        Variant::Array(
            ty("{st}"),
            vec![entry(vs("x"), Variant::Uint64(1)), entry(vs("y"), Variant::Uint64(2))]
        )
    );
    assert_eq!(AnyVariant::wrap(v).to_serde().unwrap(), d);
}

#[test]
fn encode_map_of_mixed_values_boxes_each_value() {
    let d = Datum::Mapping(vec![(s("x"), Datum::U64(1)), (s("y"), s("two"))]);
    let v = to_variant(&d).unwrap();
    assert_eq!(v.type_().signature(), "a{sv}");
    assert_eq!(
        v,
        Variant::Array(
            ty("{sv}"),
            vec![
                entry(vs("x"), boxed(Variant::Uint64(1))),
                entry(vs("y"), boxed(vs("two"))),
            ]
        )
    );
}

#[test]
fn encode_empty_map_is_a_vardict() {
    let v = to_variant(&Datum::Mapping(vec![])).unwrap();
    assert_eq!(v, Variant::Array(ty("{sv}"), vec![]));
}

#[test]
fn encode_map_with_mixed_keys_fails() {
    let d = Datum::Mapping(vec![(s("x"), Datum::U64(1)), (Datum::U8(2), Datum::U64(2))]);
    assert_eq!(to_variant(&d), Err(Error::InconsistentTypes));
}

#[test]
fn encode_map_with_container_keys_fails() {
    let d = Datum::Mapping(vec![(Datum::Tuple(vec![s("x")]), Datum::U64(1))]);
    assert_eq!(to_variant(&d), Err(Error::UnsupportedType(ty("(s)"))));
}

#[test]
fn encode_map_under_a_dictionary_type() {
    let d = Datum::Mapping(vec![(s("x"), Datum::U64(1))]);
    let v = d.serialize(&typed("a{sv}")).unwrap();
    assert_eq!(v, Variant::Array(ty("{sv}"), vec![entry(vs("x"), boxed(Variant::Uint64(1)))]));
    let v = d.serialize(&typed("a{st}")).unwrap();
    assert_eq!(v, Variant::Array(ty("{st}"), vec![entry(vs("x"), Variant::Uint64(1))]));
    let v = d.serialize(&typed("a{?*}")).unwrap();
    assert_eq!(v, Variant::Array(ty("{st}"), vec![entry(vs("x"), Variant::Uint64(1))]));
    assert_eq!(d.serialize(&typed("a{su}")), Err(mismatch("t", "u")));
    assert_eq!(d.serialize(&typed("as")), Err(mismatch("a{?*}", "s")));
    assert_eq!(d.serialize(&typed("s")), Err(Error::UnsupportedType(ty("s"))));
}

fn item() -> Datum {
    Datum::Struct("Item".into(), vec![("id".into(), Datum::U32(1)), ("name".into(), s("Item"))])
}

#[test]
fn encode_struct_as_tuple_when_not_human_readable() {
    let v = item().serialize(&typed("(us)").inhuman()).unwrap();
    assert_eq!(v, Variant::Tuple(vec![Variant::Uint32(1), vs("Item")]));
    let v = item().serialize(&Serializer::new(None).inhuman()).unwrap();
    assert_eq!(v, Variant::Tuple(vec![Variant::Uint32(1), vs("Item")]));
    let v = item().serialize(&typed("(us)")).unwrap();
    assert_eq!(v, Variant::Tuple(vec![Variant::Uint32(1), vs("Item")]));
}

#[test]
fn encode_struct_as_map_when_human_readable() {
    let v = item().serialize(&Serializer::new(None)).unwrap();
    assert_eq!(
        v,
        Variant::Array(
            ty("{sv}"),
            vec![
                entry(vs("id"), boxed(Variant::Uint32(1))),
                entry(vs("name"), boxed(vs("Item"))),
            ]
        )
    );
    let v = item().serialize(&typed("a{sv}").inhuman()).unwrap();
    assert_eq!(v.type_().signature(), "a{sv}");
}

#[test]
fn encode_scalars() {
    let plain = Serializer::new(None);
    assert_eq!(plain.serialize_i8(-5), Ok(Variant::Int16(-5)));
    assert_eq!(plain.serialize_i16(-5), Ok(Variant::Int16(-5)));
    assert_eq!(plain.serialize_i32(-5), Ok(Variant::Int32(-5)));
    assert_eq!(plain.serialize_i64(-5), Ok(Variant::Int64(-5)));
    assert_eq!(plain.serialize_u8(5), Ok(Variant::Byte(5)));
    assert_eq!(plain.serialize_u16(5), Ok(Variant::Uint16(5)));
    assert_eq!(plain.serialize_u32(5), Ok(Variant::Uint32(5)));
    assert_eq!(plain.serialize_u64(5), Ok(Variant::Uint64(5)));
    assert_eq!(plain.serialize_bool(false), Ok(Variant::Boolean(false)));
    assert_eq!(
        plain.serialize_f64((-182.5f64).to_bits()),
        Ok(Variant::Double((-182.5f64).to_bits()))
    );
    assert_eq!(plain.serialize_str("hello"), Ok(vs("hello")));
    assert_eq!(plain.serialize_char('x'), Ok(vs("x")));
    assert_eq!(plain.serialize_char('é'), Ok(vs("é")));
    assert_eq!(
        plain.serialize_bytes(&[1, 2]),
        Ok(Variant::Array(ty("y"), vec![Variant::Byte(1), Variant::Byte(2)]))
    );
    assert_eq!(plain.serialize_unit(), Ok(Variant::Tuple(vec![])));
    assert_eq!(plain.serialize_unit_struct("Unit"), Ok(Variant::Tuple(vec![])));
}

#[test]
fn encode_scalars_under_types() {
    assert_eq!(typed("b").serialize_bool(true), Ok(Variant::Boolean(true)));
    assert_eq!(typed("v").serialize_bool(true), Ok(boxed(Variant::Boolean(true))));
    assert_eq!(typed("s").serialize_bool(true), Err(mismatch("b", "s")));
    assert_eq!(typed("?").serialize_bool(true), Err(mismatch("b", "?")));
    assert_eq!(typed("*").serialize_bool(true), Err(mismatch("b", "*")));
    assert_eq!(typed("n").serialize_i8(1), Ok(Variant::Int16(1)));
    assert_eq!(typed("y").serialize_i8(1), Err(mismatch("n", "y")));
    assert_eq!(typed("s").serialize_str("a"), Ok(vs("a")));
    assert_eq!(typed("v").serialize_str("a"), Ok(boxed(vs("a"))));
    assert_eq!(typed("o").serialize_str("/a"), Err(mismatch("s", "o")));
    assert_eq!(typed("g").serialize_str("i"), Err(mismatch("s", "g")));
    assert_eq!(typed("i").serialize_char('a'), Err(mismatch("s", "i")));
    assert_eq!(
        typed("ay").serialize_bytes(&[7]),
        Ok(Variant::Array(ty("y"), vec![Variant::Byte(7)]))
    );
    assert_eq!(typed("as").serialize_bytes(&[7]), Err(mismatch("ay", "as")));
    assert_eq!(typed("()").serialize_unit(), Ok(Variant::Tuple(vec![])));
    assert_eq!(typed("(i)").serialize_unit(), Err(mismatch("()", "(i)")));
}

#[test]
fn encode_optional_values() {
    let plain = Serializer::new(None);
    assert_eq!(plain.serialize_none(), Ok(Variant::Nothing(ty("v"))));
    assert_eq!(typed("ms").serialize_none(), Ok(Variant::Nothing(ty("s"))));
    assert_eq!(typed("v").serialize_none(), Ok(boxed(Variant::Nothing(ty("v")))));
    assert_eq!(typed("s").serialize_none(), Err(mismatch("m*", "s")));
    assert_eq!(typed("m*").serialize_none(), Err(Error::UnsupportedType(ty("*"))));
    assert_eq!(
        plain.serialize_some(&s("world")),
        Ok(Variant::Just(Box::new(vs("world"))))
    );
    assert_eq!(
        typed("ms").serialize_some(&s("world")),
        Ok(Variant::Just(Box::new(vs("world"))))
    );
    assert_eq!(
        typed("mv").serialize_some(&s("world")),
        Ok(Variant::Just(Box::new(boxed(vs("world")))))
    );
    assert_eq!(typed("mi").serialize_some(&s("world")), Err(mismatch("s", "i")));
    assert_eq!(typed("i").serialize_some(&s("world")), Err(mismatch("m*", "i")));
}

#[test]
fn encode_discriminants() {
    let plain = Serializer::new(None);
    assert_eq!(plain.serialize_unit_variant("E", 1, "B"), Ok(vs("B")));
    assert_eq!(plain.inhuman().serialize_unit_variant("E", 1, "B"), Ok(Variant::Uint32(1)));
    assert_eq!(typed("u").serialize_unit_variant("E", 1, "B"), Ok(Variant::Uint32(1)));
    assert_eq!(typed("s").inhuman().serialize_unit_variant("E", 1, "B"), Ok(vs("B")));
    assert_eq!(typed("v").serialize_unit_variant("E", 1, "B"), Ok(boxed(vs("B"))));
    assert_eq!(
        typed("v").inhuman().serialize_unit_variant("E", 1, "B"),
        Ok(boxed(Variant::Uint32(1)))
    );
    assert_eq!(typed("i").serialize_unit_variant("E", 1, "B"), Err(mismatch("s", "i")));
    assert_eq!(
        typed("i").inhuman().serialize_unit_variant("E", 1, "B"),
        Err(mismatch("u", "i"))
    );
}

#[test]
fn encode_wrappers_as_what_they_wrap() {
    let d = Datum::Newtype("Meters".into(), Box::new(Datum::I32(52)));
    assert_eq!(to_variant(&d), Ok(Variant::Int32(52)));
    assert_eq!(d.serialize(&typed("v")), Ok(boxed(Variant::Int32(52))));
}

#[test]
fn encode_tuples_under_types() {
    let d = Datum::Tuple(vec![Datum::U64(3), s("hello"), Datum::Present(Box::new(s("world")))]);
    let expected = Variant::Tuple(vec![
        Variant::Uint64(3),
        vs("hello"),
        Variant::Just(Box::new(vs("world"))),
    ]);
    assert_eq!(d.serialize(&typed("(tsms)")), Ok(expected));
    assert_eq!(d.serialize(&typed("r")).unwrap().type_().signature(), "(tsms)");
    assert_eq!(d.serialize(&typed("v")).unwrap().type_().signature(), "v");
    assert_eq!(
        d.serialize(&typed("(ts)")),
        Err(Error::LengthMismatch { actual: 3, expected: 2 })
    );
    assert_eq!(
        d.serialize(&typed("(tsmsi)")),
        Err(Error::LengthMismatch { actual: 3, expected: 4 })
    );
    assert_eq!(d.serialize(&typed("(tsmi)")), Err(mismatch("s", "i")));
    assert_eq!(d.serialize(&typed("s")), Err(mismatch("r", "s")));
    assert_eq!(d.serialize(&typed("(ts*)")), Err(mismatch("m*", "*")));
}

#[test]
fn encode_sequences_under_types() {
    let d = Datum::Sequence(vec![Datum::I32(1), Datum::I32(2)]);
    let plain = Variant::Array(ty("i"), vec![Variant::Int32(1), Variant::Int32(2)]);
    assert_eq!(d.serialize(&typed("ai")), Ok(plain));
    assert_eq!(
        d.serialize(&typed("av")),
        Ok(Variant::Array(ty("v"), vec![boxed(Variant::Int32(1)), boxed(Variant::Int32(2))]))
    );
    assert_eq!(
        d.serialize(&typed("a*")),
        Ok(Variant::Array(ty("i"), vec![Variant::Int32(1), Variant::Int32(2)]))
    );
    assert_eq!(
        d.serialize(&typed("(ii)")),
        Ok(Variant::Tuple(vec![Variant::Int32(1), Variant::Int32(2)]))
    );
    assert_eq!(
        d.serialize(&typed("{ii}")),
        Ok(entry(Variant::Int32(1), Variant::Int32(2)))
    );
    assert_eq!(d.serialize(&typed("au")), Err(mismatch("i", "u")));
    assert_eq!(d.serialize(&typed("i")), Err(mismatch("a*", "i")));
    assert_eq!(d.serialize(&typed("a?")), Err(mismatch("i", "?")));
    assert_eq!(
        Datum::Sequence(vec![]).serialize(&typed("a?")),
        Err(Error::UnsupportedType(ty("a?")))
    );
    assert_eq!(
        d.serialize(&typed("(iii)")),
        Err(Error::LengthMismatch { actual: 2, expected: 3 })
    );
}

#[test]
fn sequence_builder_checks_announced_length() {
    let mut seq = SeqSerializer::for_seq(Serializer::new(None), Some(2)).ok().unwrap();
    seq.serialize_element(&Datum::U8(1)).unwrap();
    assert_eq!(seq.end(), Err(Error::LengthMismatch { actual: 1, expected: 2 }));
    let mut seq = SeqSerializer::for_seq(Serializer::new(None), None).ok().unwrap();
    seq.serialize_element(&Datum::U8(1)).unwrap();
    assert_eq!(seq.end(), Ok(Variant::Array(ty("y"), vec![Variant::Byte(1)])));
}

#[test]
fn tuple_builder_counts_members() {
    let mut tup = SeqSerializer::for_tuple(typed("(yy)"), None).ok().unwrap();
    tup.serialize_element(&Datum::U8(1)).unwrap();
    assert_eq!(tup.end(), Err(Error::LengthMismatch { actual: 1, expected: 2 }));
    let mut tup = SeqSerializer::for_tuple(typed("(y)"), None).ok().unwrap();
    tup.serialize_element(&Datum::U8(1)).unwrap();
    assert_eq!(
        tup.serialize_element(&Datum::U8(2)),
        Err(Error::LengthMismatch { actual: 2, expected: 1 })
    );
    let mut plan = SeqElement::new(&Some(ty("(y)")), Some(1)).ok().unwrap();
    assert_eq!(plan.type_(), Ok(Some(ty("y"))));
    assert_eq!(plan.type_(), Err(Error::LengthMismatch { actual: 2, expected: 1 }));
    assert!(matches!(
        SeqElement::new(&Some(ty("(y)")), Some(5)),
        Err(Error::LengthMismatch { actual: 5, expected: 1 })
    ));
    assert!(matches!(SeqElement::new(&Some(ty("s")), None), Err(Error::Mismatch { .. })));
}

#[test]
fn serializer_settings() {
    let ser = Serializer::default();
    assert!(ser.is_human_readable());
    assert_eq!(ser.ty, None);
    assert_eq!(ser.child_type(), Ok(None));
    assert_eq!(ser.child_type_or_default(), Ok(ty("v")));
    let ser = typed("as").inhuman();
    assert!(!ser.is_human_readable());
    assert_eq!(ser.child_type(), Ok(Some(ty("s"))));
    assert_eq!(ser.child_type_or_default(), Ok(ty("s")));
    assert_eq!(ser.child_serializer().ok().unwrap().ty, Some(ty("s")));
    assert!(!ser.child_serializer().ok().unwrap().is_human_readable());
    assert_eq!(typed("mi").child_type(), Ok(Some(ty("i"))));
    assert_eq!(typed("v").child_type(), Ok(None));
    assert_eq!(typed("i").child_type(), Err(Error::UnsupportedType(ty("i"))));
    assert_eq!(ser.change_type(Some(ty("i"))).ty, Some(ty("i")));
    assert_eq!(typed("i").check_type_is(&ty("i")), Ok(()));
    assert_eq!(typed("v").check_type_is(&ty("i")), Ok(()));
    assert_eq!(Serializer::new(None).check_type_is(&ty("i")), Ok(()));
    assert_eq!(typed("u").check_type_is(&ty("i")), Err(mismatch("i", "u")));
    assert_eq!(typed("u").check_type(|t| t.is_basic(), &ty("i")), Ok(()));
    assert_eq!(typed("as").check_type(|t| t.is_basic(), &ty("i")), Err(mismatch("i", "as")));
    assert_eq!(typed("v").box_if_needed(Variant::Byte(1)), Ok(boxed(Variant::Byte(1))));
    assert_eq!(typed("y").box_if_needed(Variant::Byte(1)), Ok(Variant::Byte(1)));
    assert_eq!(typed("?").box_if_needed(Variant::Byte(1)), Ok(Variant::Byte(1)));
    assert_eq!(typed("s").box_if_needed(Variant::Byte(1)), Err(mismatch("y", "s")));
}

#[test]
fn encoding_that_cannot_fail() {
    assert_eq!(Datum::U8(9).serialize_to_variant(), Variant::Byte(9));
}

#[test]
fn boxing_round_trip_on_values() {
    let d = Datum::Sequence(vec![s("a"), s("b")]);
    let bare = d.serialize(&Serializer::new(None)).unwrap();
    let in_box = d.serialize(&typed("v")).unwrap();
    assert_eq!(in_box, boxed(bare.clone()));
    assert_eq!(
        AnyVariant::wrap(in_box).to_serde().unwrap(),
        AnyVariant::wrap(bare).to_serde().unwrap()
    );
}

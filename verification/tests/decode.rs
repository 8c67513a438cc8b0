use glib_serde::any_variant::deserializer::{ContainerDeserializer, Deserializer, Visit};
use glib_serde::datum::Datum;
use glib_serde::error::Error;
use glib_serde::from_variant;
use glib_serde::traits::{FromVariantExt, GlibVariantExt};
use glib_serde::variant::Variant;
use glib_serde::variant_ty::VariantTy;

fn ty(text: &str) -> VariantTy {
    VariantTy::new(text).unwrap()
}

fn vs(text: &str) -> Variant {
    Variant::Str(text.into())
}

fn boxed(v: Variant) -> Variant {
    Variant::Boxed(Box::new(v))
}

fn entry(k: Variant, v: Variant) -> Variant {
    Variant::DictEntry(Box::new(k), Box::new(v))
}

fn mismatch(actual: &str, expected: &str) -> Error {
    Error::Mismatch { actual: ty(actual), expected: ty(expected) }
}

#[test]
fn numbers_coerce_across_widths() {
    let v = Variant::Uint64(200);
    let de = Deserializer::new(&v);
    assert_eq!(de.deserialize_u8(), Ok(200));
    assert_eq!(de.deserialize_u16(), Ok(200));
    assert_eq!(de.deserialize_u32(), Ok(200));
    assert_eq!(de.deserialize_u64(), Ok(200));
    assert_eq!(de.deserialize_i16(), Ok(200));
    assert_eq!(de.deserialize_i32(), Ok(200));
    assert_eq!(de.deserialize_i64(), Ok(200));
    assert_eq!(de.deserialize_i8(), Err(Error::OutOfRange));
    assert_eq!(de.try_get_num(&ty("y")), Ok(200));
}

#[test]
fn numbers_out_of_range_fail() {
    let v = Variant::Int32(-1);
    let de = Deserializer::new(&v);
    assert_eq!(de.deserialize_i8(), Ok(-1));
    assert_eq!(de.deserialize_i64(), Ok(-1));
    assert_eq!(de.deserialize_u8(), Err(Error::OutOfRange));
    assert_eq!(de.deserialize_u16(), Err(Error::OutOfRange));
    assert_eq!(de.deserialize_u32(), Err(Error::OutOfRange));
    assert_eq!(de.deserialize_u64(), Err(Error::OutOfRange));
    let big = Variant::Uint64(u64::MAX);
    let de = Deserializer::new(&big);
    assert_eq!(de.deserialize_u64(), Ok(u64::MAX));
    assert_eq!(de.deserialize_i64(), Err(Error::OutOfRange));
    let small = Variant::Int64(i64::MIN);
    let de = Deserializer::new(&small);
    assert_eq!(de.deserialize_i64(), Ok(i64::MIN));
    assert_eq!(de.deserialize_i32(), Err(Error::OutOfRange));
    let edge = Variant::Int16(-128);
    assert_eq!(Deserializer::new(&edge).deserialize_i8(), Ok(-128));
    let edge = Variant::Int16(-129);
    assert_eq!(Deserializer::new(&edge).deserialize_i8(), Err(Error::OutOfRange));
    let edge = Variant::Int16(127);
    assert_eq!(Deserializer::new(&edge).deserialize_i8(), Ok(127));
    let edge = Variant::Int16(128);
    assert_eq!(Deserializer::new(&edge).deserialize_i8(), Err(Error::OutOfRange));
    let edge = Variant::Uint16(255);
    assert_eq!(Deserializer::new(&edge).deserialize_u8(), Ok(255));
    let edge = Variant::Uint16(256);
    assert_eq!(Deserializer::new(&edge).deserialize_u8(), Err(Error::OutOfRange));
}

#[test]
fn booleans_read_as_numbers() {
    let v = Variant::Boolean(true);
    assert_eq!(Deserializer::new(&v).deserialize_u8(), Ok(1));
    let v = Variant::Boolean(false);
    assert_eq!(Deserializer::new(&v).deserialize_i64(), Ok(0));
    assert_eq!(Deserializer::new(&v).deserialize_bool(), Ok(false));
}

#[test]
fn numbers_are_not_read_from_other_kinds() {
    let v = vs("12");
    let de = Deserializer::new(&v);
    assert_eq!(de.deserialize_i8(), Err(mismatch("s", "n")));
    assert_eq!(de.deserialize_i16(), Err(mismatch("s", "n")));
    assert_eq!(de.deserialize_i32(), Err(mismatch("s", "i")));
    assert_eq!(de.deserialize_i64(), Err(mismatch("s", "x")));
    assert_eq!(de.deserialize_u8(), Err(mismatch("s", "y")));
    assert_eq!(de.deserialize_u16(), Err(mismatch("s", "q")));
    assert_eq!(de.deserialize_u32(), Err(mismatch("s", "u")));
    assert_eq!(de.deserialize_u64(), Err(mismatch("s", "t")));
    assert_eq!(de.deserialize_bool(), Err(mismatch("s", "b")));
    assert_eq!(de.deserialize_f64(), Err(mismatch("s", "d")));
    let d = Variant::Double(1.5f64.to_bits());
    assert_eq!(Deserializer::new(&d).deserialize_i32(), Err(mismatch("d", "i")));
    assert_eq!(Deserializer::new(&d).deserialize_f64(), Ok(1.5f64.to_bits()));
    let h = Variant::Handle(1);
    assert_eq!(Deserializer::new(&h).deserialize_i32(), Err(mismatch("h", "i")));
}

#[test]
fn boxes_are_read_through() {
    let v = boxed(boxed(Variant::Uint16(7)));
    let de = Deserializer::new(&v);
    assert_eq!(de.deserialize_u16(), Ok(7));
    assert_eq!(de.deserialize_i8(), Ok(7));
    assert_eq!(de.try_get::<u16>(), Ok(7));
    assert_eq!(de.try_get::<u32>(), Err(mismatch("q", "u")));
    assert_eq!(de.type_(), ty("q"));
    assert_eq!(de.deserialize_bool(), Err(mismatch("q", "b")));
    let s = boxed(vs("hi"));
    assert_eq!(Deserializer::new(&s).deserialize_str(), Ok("hi"));
    assert_eq!(Deserializer::new(&s).deserialize_string(), Ok("hi".to_string()));
    assert_eq!(Deserializer::new(&s).deserialize_char(), Ok('h'));
    let b = boxed(Variant::array_from_fixed_array(&[1, 2, 3]));
    assert_eq!(Deserializer::new(&b).deserialize_bytes(), Ok(vec![1, 2, 3]));
    assert_eq!(Deserializer::new(&b).deserialize_byte_buf(), Ok(vec![1, 2, 3]));
    let u = boxed(Variant::Tuple(vec![]));
    assert_eq!(Deserializer::new(&u).deserialize_unit(), Ok(()));
    let m = boxed(Variant::Just(Box::new(Variant::Byte(1))));
    let child = Deserializer::new(&m).deserialize_option().ok().unwrap().unwrap();
    assert_eq!(child.deserialize_u8(), Ok(1));
    let i = boxed(vs("A"));
    assert!(matches!(Deserializer::new(&i).deserialize_identifier(), Ok(Visit::Str("A"))));
}

#[test]
fn typed_getters() {
    let t = Variant::Boolean(true);
    assert_eq!(Deserializer::new(&t).try_get::<bool>(), Ok(true));
    assert_eq!(Deserializer::new(&t).try_get::<u8>(), Err(mismatch("b", "y")));
    let u = Variant::Tuple(vec![]);
    assert_eq!(Deserializer::new(&u).try_get::<()>(), Ok(()));
    let n = Variant::Int64(-3);
    assert_eq!(Deserializer::new(&n).try_get::<i64>(), Ok(-3));
    assert_eq!(Deserializer::new(&n).try_get::<i32>(), Err(mismatch("x", "i")));
    assert_eq!(Deserializer::new(&n).try_get::<i16>(), Err(mismatch("x", "n")));
    assert_eq!(Deserializer::new(&n).try_get::<u64>(), Err(mismatch("x", "t")));
    assert_eq!(Deserializer::new(&n).try_get::<()>(), Err(mismatch("x", "()")));
}

#[test]
fn strings_and_characters() {
    let v = vs("hello");
    let de = Deserializer::new(&v);
    assert_eq!(de.str(), Ok("hello"));
    assert_eq!(de.deserialize_char(), Ok('h'));
    let o = Variant::ObjectPath("/org/glib_serde/test".into());
    assert_eq!(Deserializer::new(&o).deserialize_str(), Ok("/org/glib_serde/test"));
    let g = Variant::Signature("(istxa{ys}as)".into());
    assert_eq!(Deserializer::new(&g).deserialize_str(), Ok("(istxa{ys}as)"));
    let e = vs("");
    assert_eq!(
        Deserializer::new(&e).deserialize_char(),
        Err(Error::ExpectedChar(String::new()))
    );
    let n = Variant::Int32(1);
    assert_eq!(Deserializer::new(&n).deserialize_str(), Err(Error::StrMismatch(ty("i"))));
    assert_eq!(Deserializer::new(&n).deserialize_char(), Err(Error::StrMismatch(ty("i"))));
    let u = vs("éa");
    assert_eq!(Deserializer::new(&u).deserialize_char(), Ok('é'));
}

#[test]
fn bytes_need_a_byte_string() {
    let v = Variant::Array(ty("q"), vec![Variant::Uint16(1)]);
    assert_eq!(Deserializer::new(&v).deserialize_bytes(), Err(mismatch("aq", "ay")));
    let e = Variant::Array(ty("y"), vec![]);
    assert_eq!(Deserializer::new(&e).deserialize_bytes(), Ok(vec![]));
}

#[test]
fn optional_values() {
    let none = Variant::Nothing(ty("s"));
    assert!(matches!(Deserializer::new(&none).deserialize_option(), Ok(None)));
    let some = Variant::Just(Box::new(vs("world")));
    let child = Deserializer::new(&some).deserialize_option().ok().unwrap().unwrap();
    assert_eq!(child.deserialize_str(), Ok("world"));
    let other = vs("world");
    assert!(matches!(
        Deserializer::new(&other).deserialize_option(),
        Err(Error::Mismatch { .. })
    ));
}

#[test]
fn unit_reads_from_empty_tuple_and_empty_array() {
    let u = Variant::Tuple(vec![]);
    assert_eq!(Deserializer::new(&u).deserialize_unit(), Ok(()));
    assert_eq!(Deserializer::new(&u).deserialize_unit_struct("U"), Ok(()));
    let a = Variant::Array(ty("i"), vec![]);
    assert_eq!(Deserializer::new(&a).deserialize_unit(), Ok(()));
    let full = Variant::Array(ty("i"), vec![Variant::Int32(1)]);
    assert_eq!(Deserializer::new(&full).deserialize_unit(), Err(mismatch("ai", "()")));
    let t = Variant::Tuple(vec![Variant::Int32(1)]);
    assert_eq!(Deserializer::new(&t).deserialize_unit(), Err(mismatch("(i)", "()")));
    let s = vs("");
    assert_eq!(Deserializer::new(&s).deserialize_unit(), Err(mismatch("s", "()")));
}

fn drain(mut c: ContainerDeserializer) -> Vec<Datum> {
    let mut out = Vec::new();
    while let Some(de) = c.next_element() {
        out.push(de.decode().unwrap());
    }
    assert!(c.next_element().is_none());
    out
}

#[test]
fn sequences_accept_any_arity() {
    let a = Variant::Array(ty("q"), vec![Variant::Uint16(1), Variant::Uint16(2), Variant::Uint16(3)]);
    let c = Deserializer::new(&a).deserialize_seq().ok().unwrap();
    assert_eq!(c.size_hint(), Some(3));
    assert_eq!(drain(c), vec![Datum::U16(1), Datum::U16(2), Datum::U16(3)]);
    let t = Variant::Tuple(vec![vs("a"), Variant::Uint64(2)]);
    let c = Deserializer::new(&t).deserialize_seq().ok().unwrap();
    assert_eq!(drain(c), vec![Datum::Str("a".into()), Datum::U64(2)]);
    let n = Variant::Int32(1);
    assert!(matches!(
        Deserializer::new(&n).deserialize_seq(),
        Err(Error::UnsupportedType(_))
    ));
    let e = entry(vs("k"), Variant::Int32(1));
    assert!(matches!(
        Deserializer::new(&e).deserialize_seq(),
        Err(Error::UnsupportedType(_))
    ));
}

#[test]
fn tuples_need_exact_arity() {
    let t = Variant::Tuple(vec![vs("a"), Variant::Uint64(2)]);
    let c = Deserializer::new(&t).deserialize_tuple(2).ok().unwrap();
    assert_eq!(drain(c), vec![Datum::Str("a".into()), Datum::U64(2)]);
    assert!(matches!(
        Deserializer::new(&t).deserialize_tuple(3),
        Err(Error::LengthMismatch { actual: 2, expected: 3 })
    ));
    assert!(matches!(
        Deserializer::new(&t).deserialize_tuple_struct("T", 1),
        Err(Error::LengthMismatch { actual: 2, expected: 1 })
    ));
    let a = Variant::Array(ty("q"), vec![Variant::Uint16(1)]);
    assert!(matches!(
        Deserializer::new(&a).deserialize_tuple(1),
        Err(Error::Mismatch { .. })
    ));
    let b = boxed(t);
    let c = Deserializer::new(&b).deserialize_tuple(2).ok().unwrap();
    assert_eq!(c.size_hint(), Some(2));
}

fn dict() -> Variant {
    Variant::Array(
        ty("{st}"),
        vec![
            entry(vs("y"), Variant::Uint64(2)),
            entry(vs("x"), Variant::Uint64(1)),
            entry(vs("z"), Variant::Uint64(3)),
        ],
    )
}

#[test]
fn maps_are_read_in_source_order() {
    let d = dict();
    let mut c = Deserializer::new(&d).deserialize_map().ok().unwrap();
    let mut seen = Vec::new();
    while let Some((k, v)) = c.next_entry().ok().unwrap() {
        seen.push((k.deserialize_string().unwrap(), v.deserialize_u64().unwrap()));
    }
    assert_eq!(
        seen,
        vec![("y".to_string(), 2), ("x".to_string(), 1), ("z".to_string(), 3)]
    );
    assert_eq!(c.size_hint(), Some(0));
}

#[test]
fn map_keys_and_values_one_by_one() {
    let d = dict();
    let mut c = Deserializer::new(&d).deserialize_map().ok().unwrap();
    let k = c.next_key().ok().unwrap().unwrap();
    assert_eq!(k.deserialize_str(), Ok("y"));
    let k = c.next_key().ok().unwrap().unwrap();
    assert_eq!(k.deserialize_str(), Ok("y"));
    let v = c.next_value().ok().unwrap();
    assert_eq!(v.deserialize_u8(), Ok(2));
    let k = c.next_key().ok().unwrap().unwrap();
    assert_eq!(k.deserialize_str(), Ok("x"));
    assert_eq!(c.size_hint(), Some(2));
}

#[test]
fn maps_need_a_dictionary() {
    let a = Variant::Array(ty("q"), vec![Variant::Uint16(1)]);
    assert!(matches!(
        Deserializer::new(&a).deserialize_map(),
        Err(Error::Mismatch { .. })
    ));
    let t = Variant::Tuple(vec![]);
    assert!(matches!(
        Deserializer::new(&t).deserialize_map(),
        Err(Error::Mismatch { .. })
    ));
}

#[test]
fn structs_read_from_maps_and_tuples() {
    let d = dict();
    assert!(matches!(
        Deserializer::new(&d).deserialize_struct("S", 3),
        Ok(Visit::Mapping(_))
    ));
    let t = Variant::Tuple(vec![Variant::Uint32(1), vs("Item")]);
    assert!(matches!(
        Deserializer::new(&t).deserialize_struct("S", 2),
        Ok(Visit::Sequence(_))
    ));
    assert!(matches!(
        Deserializer::new(&t).deserialize_struct("S", 3),
        Err(Error::LengthMismatch { actual: 2, expected: 3 })
    ));
}

#[test]
fn identifiers() {
    let s = vs("A");
    assert!(matches!(Deserializer::new(&s).deserialize_identifier(), Ok(Visit::Str("A"))));
    let n = Variant::Uint32(4);
    assert!(matches!(Deserializer::new(&n).deserialize_identifier(), Ok(Visit::U32(4))));
    let b = Variant::Boolean(true);
    assert!(matches!(
        Deserializer::new(&b).deserialize_identifier(),
        Err(Error::UnsupportedType(_))
    ));
    let o = Variant::ObjectPath("/a".into());
    assert!(matches!(
        Deserializer::new(&o).deserialize_identifier(),
        Err(Error::UnsupportedType(_))
    ));
}

#[test]
fn is_of_type_reads_through_boxes() {
    let v = boxed(Variant::Int32(1));
    let de = Deserializer::new(&v);
    assert_eq!(de.is_of_type(&ty("i")), Ok(()));
    assert_eq!(de.is_of_type(&ty("v")), Ok(()));
    assert_eq!(de.is_of_type(&ty("?")), Ok(()));
    assert_eq!(de.is_of_type(&ty("s")), Err(mismatch("i", "s")));
    let a = Variant::Array(ty("i"), vec![]);
    assert_eq!(Deserializer::new(&a).is_of_type(&ty("()")), Ok(()));
    assert_eq!(Deserializer::new(&a).is_of_type(&ty("(i)")), Err(mismatch("ai", "(i)")));
    let full = Variant::Array(ty("i"), vec![Variant::Int32(1)]);
    assert_eq!(Deserializer::new(&full).is_of_type(&ty("()")), Err(mismatch("ai", "()")));
}

#[test]
fn decoder_settings() {
    let v = Variant::Byte(1);
    let w = Variant::Byte(2);
    let de = Deserializer::new(&v);
    assert!(de.is_human_readable());
    let de = de.inhuman();
    assert!(!de.is_human_readable());
    let other = de.change_variant(&w);
    assert!(!other.is_human_readable());
    assert_eq!(other.deserialize_u8(), Ok(2));
    let same = de.deserialize_newtype_struct("N");
    assert_eq!(same.deserialize_u8(), Ok(1));
    assert_eq!(v.into_deserializer().deserialize_u8(), Ok(1));
    assert_eq!(v.as_serializable().inner(), &v);
}

#[test]
fn visit_by_kind() {
    let v = Variant::Boolean(true);
    assert!(matches!(Deserializer::new(&v).deserialize_any(), Ok(Visit::Bool(true))));
    let v = Variant::Byte(1);
    assert!(matches!(Deserializer::new(&v).deserialize_any(), Ok(Visit::U8(1))));
    let v = Variant::Int16(-1);
    assert!(matches!(Deserializer::new(&v).deserialize_any(), Ok(Visit::I16(-1))));
    let v = Variant::Uint16(1);
    assert!(matches!(Deserializer::new(&v).deserialize_any(), Ok(Visit::U16(1))));
    let v = Variant::Int32(-1);
    assert!(matches!(Deserializer::new(&v).deserialize_any(), Ok(Visit::I32(-1))));
    let v = Variant::Uint32(1);
    assert!(matches!(Deserializer::new(&v).deserialize_any(), Ok(Visit::U32(1))));
    let v = Variant::Int64(-1);
    assert!(matches!(Deserializer::new(&v).deserialize_any(), Ok(Visit::I64(-1))));
    let v = Variant::Uint64(1);
    assert!(matches!(Deserializer::new(&v).deserialize_any(), Ok(Visit::U64(1))));
    let v = Variant::Double(7);
    assert!(matches!(Deserializer::new(&v).deserialize_any(), Ok(Visit::F64(7))));
    let v = Variant::Signature("i".into());
    assert!(matches!(Deserializer::new(&v).deserialize_any(), Ok(Visit::Str("i"))));
    let v = Variant::Handle(1);
    assert!(matches!(
        Deserializer::new(&v).deserialize_any(),
        Err(Error::UnsupportedType(_))
    ));
    let v = Variant::Nothing(ty("i"));
    assert!(matches!(Deserializer::new(&v).deserialize_any(), Ok(Visit::Absent)));
    let v = Variant::Just(Box::new(Variant::Byte(1)));
    assert!(matches!(Deserializer::new(&v).deserialize_any(), Ok(Visit::Present(_))));
    let v = Variant::Tuple(vec![]);
    assert!(matches!(Deserializer::new(&v).deserialize_any(), Ok(Visit::Unit)));
    let v = Variant::Tuple(vec![Variant::Byte(1)]);
    assert!(matches!(Deserializer::new(&v).deserialize_any(), Ok(Visit::Sequence(_))));
    let v = Variant::Array(ty("i"), vec![]);
    assert!(matches!(Deserializer::new(&v).deserialize_any(), Ok(Visit::Sequence(_))));
    let v = Variant::array_from_fixed_array(&[9]);
    assert!(matches!(Deserializer::new(&v).deserialize_any(), Ok(Visit::Bytes(b)) if b == vec![9]));
    let v = dict();
    assert!(matches!(Deserializer::new(&v).deserialize_any(), Ok(Visit::Mapping(_))));
    let v = boxed(dict());
    assert!(matches!(Deserializer::new(&v).deserialize_any(), Ok(Visit::Mapping(_))));
    let v = entry(vs("k"), Variant::Byte(1));
    assert!(matches!(
        Deserializer::new(&v).deserialize_any(),
        Err(Error::Mismatch { .. })
    ));
}

#[test]
fn decode_whole_values() {
    let v = Variant::Tuple(vec![
        Variant::Byte(1),
        Variant::Array(
            ty("(st)"),
            vec![
                Variant::Tuple(vec![vs("hi"), Variant::Uint64(2)]),
                Variant::Tuple(vec![vs("hey"), Variant::Uint64(3)]),
            ],
        ),
        vs("hello"),
        boxed(Variant::Uint64(4)),
        Variant::Nothing(ty("s")),
        Variant::Just(Box::new(Variant::Tuple(vec![]))),
        dict(),
    ]);
    let expected = Datum::Sequence(vec![
        Datum::U8(1),
        Datum::Sequence(vec![
            Datum::Sequence(vec![Datum::Str("hi".into()), Datum::U64(2)]),
            Datum::Sequence(vec![Datum::Str("hey".into()), Datum::U64(3)]),
        ]),
        Datum::Str("hello".into()),
        Datum::U64(4),
        Datum::Absent,
        Datum::Present(Box::new(Datum::Unit)),
        Datum::Mapping(vec![
            (Datum::Str("y".into()), Datum::U64(2)),
            (Datum::Str("x".into()), Datum::U64(1)),
            (Datum::Str("z".into()), Datum::U64(3)),
        ]),
    ]);
    assert_eq!(from_variant(&v), Ok(expected.clone()));
    assert_eq!(Datum::deserialize_from_variant(&v), Some(expected));
    assert_eq!(Datum::deserialize_from_variant(&Variant::Handle(1)), None);
    assert_eq!(from_variant(&Variant::Handle(1)), Err(Error::UnsupportedType(ty("h"))));
}

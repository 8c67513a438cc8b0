use glib_serde::any_variant::deserializer::{Deserializer, Visit};
use glib_serde::any_variant::serializer::Serializer;
use glib_serde::any_variant::AnyVariant;
use glib_serde::datum::Datum;
use glib_serde::variant::Variant;
use glib_serde::variant_dict::VariantDict;
use glib_serde::variant_ty::VariantTy;
use glib_serde::{from_variant, to_variant};

fn ty(text: &str) -> VariantTy {
    VariantTy::new(text).unwrap()
}

fn s(text: &str) -> Datum {
    Datum::Str(text.into())
}

fn vs(text: &str) -> Variant {
    Variant::Str(text.into())
}

fn boxed(v: Variant) -> Variant {
    Variant::Boxed(Box::new(v))
}

fn entry(k: &str, v: Variant) -> Variant {
    Variant::DictEntry(Box::new(vs(k)), Box::new(boxed(v)))
}

fn my_newtype_struct(n: i32) -> Datum {
    Datum::Newtype("MyNewtypeStruct".into(), Box::new(Datum::I32(n)))
}

fn my_tuple_struct(a: u64, b: &str, c: Option<&str>) -> Datum {
    Datum::TupleStruct(
        "MyTupleStruct".into(),
        vec![
            Datum::U64(a),
            s(b),
            match c {
                Some(text) => Datum::Present(Box::new(s(text))),
                None => Datum::Absent,
            },
        ],
    )
}

fn my_struct() -> Datum {
    Datum::Struct(
        "MyStruct".into(),
        vec![
            ("id".into(), Datum::U32(3050)),
            ("position".into(), Datum::F64((-182.5f64).to_bits())),
            ("my_tuple".into(), my_tuple_struct(99, "Foo", None)),
        ],
    )
}

#[test]
fn serialize_structs() {
    let variant = to_variant(&my_newtype_struct(52)).unwrap();
    assert_eq!(variant.type_().signature(), "i");
    assert_eq!(variant, Variant::Int32(52));

    let variant = to_variant(&my_tuple_struct(3, "hello", Some("world"))).unwrap();
    assert_eq!(variant.type_().signature(), "(tsms)");
    assert_eq!(
        variant,
        Variant::Tuple(vec![
            Variant::Uint64(3),
            vs("hello"),
            Variant::Just(Box::new(vs("world"))),
        ])
    );

    let variant = my_struct().serialize(&Serializer::with_type(ty("(ud(tsms))"))).unwrap();
    assert_eq!(variant.type_().signature(), "(ud(tsms))");
    assert_eq!(
        variant,
        Variant::Tuple(vec![
            Variant::Uint32(3050),
            Variant::Double((-182.5f64).to_bits()),
            Variant::Tuple(vec![Variant::Uint64(99), vs("Foo"), Variant::Nothing(ty("s"))]),
        ])
    );

    let mut dict = VariantDict::new(None);
    dict.insert_value("hello", &vs("world"));
    assert_eq!(dict.end().type_().signature(), "a{sv}");
    assert_eq!(dict.end(), Variant::Array(ty("{sv}"), vec![entry("hello", vs("world"))]));
    let pair = to_variant(&Datum::Tuple(vec![Datum::I32(0), Datum::I32(1)])).unwrap();
    assert_eq!(pair.type_().signature(), "(ii)");
    assert_eq!(pair, Variant::Tuple(vec![Variant::Int32(0), Variant::Int32(1)]));
}

#[test]
fn deserialize_structs() {
    let v = Variant::Int32(52);
    let de = Deserializer::new(&v).deserialize_newtype_struct("MyNewtypeStruct");
    assert_eq!(de.deserialize_i32(), Ok(52));

    let v = Variant::Tuple(vec![
        Variant::Uint64(3),
        vs("hello"),
        Variant::Just(Box::new(vs("world"))),
    ]);
    let mut fields = Deserializer::new(&v).deserialize_tuple_struct("MyTupleStruct", 3).ok().unwrap();
    assert_eq!(fields.next_element().unwrap().deserialize_u64(), Ok(3));
    assert_eq!(fields.next_element().unwrap().deserialize_string(), Ok("hello".to_string()));
    let third = fields.next_element().unwrap().deserialize_option().ok().unwrap().unwrap();
    assert_eq!(third.deserialize_string(), Ok("world".to_string()));
    assert!(fields.next_element().is_none());

    let v = Variant::Tuple(vec![
        Variant::Uint32(3050),
        Variant::Double((-182.5f64).to_bits()),
        Variant::Tuple(vec![Variant::Uint64(99), vs("Foo"), Variant::Nothing(ty("s"))]),
    ]);
    let mut fields = match Deserializer::new(&v).deserialize_struct("MyStruct", 3) {
        Ok(Visit::Sequence(fields)) => fields,
        _ => panic!("a tuple of three fields"),
    };
    assert_eq!(fields.next_element().unwrap().deserialize_u32(), Ok(3050));
    assert_eq!(
        fields.next_element().unwrap().deserialize_f64().map(f64::from_bits),
        Ok(-182.5)
    );
    let mut inner = fields.next_element().unwrap().deserialize_tuple_struct("MyTupleStruct", 3).ok().unwrap();
    assert_eq!(inner.next_element().unwrap().deserialize_u64(), Ok(99));
    assert_eq!(inner.next_element().unwrap().deserialize_str(), Ok("Foo"));
    assert!(matches!(inner.next_element().unwrap().deserialize_option(), Ok(None)));

    let path = Variant::ObjectPath("/org/glib_serde/test".into());
    assert_eq!(Deserializer::new(&path).deserialize_str(), Ok("/org/glib_serde/test"));
    let sig = Variant::Signature("(istxa{ys}as)".into());
    assert_eq!(Deserializer::new(&sig).deserialize_str(), Ok("(istxa{ys}as)"));
    let var = boxed(Variant::Tuple(vec![Variant::Int32(0), Variant::Int32(1)]));
    assert_eq!(Deserializer::new(&var).type_().signature(), "(ii)");
    assert_eq!(
        from_variant(&var),
        Ok(Datum::Sequence(vec![Datum::I32(0), Datum::I32(1)]))
    );
    let dict = VariantDict::new(Some(&Variant::Array(
        ty("{sv}"),
        vec![entry("hello", vs("world"))],
    )));
    assert_eq!(dict.lookup_value("hello").unwrap().type_().signature(), "s");
    assert_eq!(dict.lookup_value("hello").unwrap().str(), Some("world"));
}

fn test_data_variant() -> Datum {
    Datum::Struct(
        "TestDataVariant".into(),
        vec![
            ("numeric".into(), Datum::U8(1)),
            (
                "array".into(),
                Datum::Sequence(vec![
                    Datum::Tuple(vec![s("hi"), Datum::U64(2)]),
                    Datum::Tuple(vec![s("hey"), Datum::U64(3)]),
                ]),
            ),
            ("string".into(), s("hello")),
            ("explicit_var".into(), Datum::U64(4)),
        ],
    )
}

fn pair(tuple: bool, a: &str, b: u64) -> Datum {
    if tuple {
        Datum::Tuple(vec![s(a), Datum::U64(b)])
    } else {
        Datum::Sequence(vec![s(a), Datum::U64(b)])
    }
}

fn as_text_holds_it(tuples: bool) -> Datum {
    Datum::Mapping(vec![
        (
            s("data"),
            Datum::Mapping(vec![
                (s("numeric"), Datum::U64(1)),
                (
                    s("array"),
                    Datum::Sequence(vec![pair(tuples, "hi", 2), pair(tuples, "hey", 3)]),
                ),
                (s("string"), s("hello")),
                (s("explicit_var"), Datum::U64(4)),
            ]),
        ),
        (s("transparent_var"), Datum::U64(5)),
        (s("transparent_any"), s("test")),
    ])
}

fn vardict() -> Variant {
    let array = Variant::Array(
        ty("(st)"),
        vec![
            Variant::Tuple(vec![vs("hi"), Variant::Uint64(2)]),
            Variant::Tuple(vec![vs("hey"), Variant::Uint64(3)]),
        ],
    );
    let data = Variant::Array(
        ty("{sv}"),
        vec![
            entry("numeric", Variant::Uint64(1)),
            entry("array", array),
            entry("string", vs("hello")),
            entry("explicit_var", Variant::Uint64(4)),
        ],
    );
    Variant::Array(
        ty("{sv}"),
        vec![
            entry("data", data),
            entry("transparent_var", Variant::Uint64(5)),
            entry("transparent_any", vs("test")),
        ],
    )
}

#[test]
fn serde_any() {
    let variant = test_data_variant()
        .serialize(&Serializer::new(Some(ty("(ya(st)sv)"))))
        .unwrap();
    let expected = Variant::Tuple(vec![
        Variant::Byte(1),
        Variant::Array(
            ty("(st)"),
            vec![
                Variant::Tuple(vec![vs("hi"), Variant::Uint64(2)]),
                Variant::Tuple(vec![vs("hey"), Variant::Uint64(3)]),
            ],
        ),
        vs("hello"),
        boxed(Variant::Uint64(4)),
    ]);
    assert_eq!(variant, expected);

    let any = AnyVariant::wrap(variant);
    let mut fields = match Deserializer::new(any.inner()).deserialize_struct("TestDataVariant", 4) {
        Ok(Visit::Sequence(fields)) => fields,
        _ => panic!("a tuple of four fields"),
    };
    assert_eq!(fields.next_element().unwrap().deserialize_u8(), Ok(1));
    let mut array = fields.next_element().unwrap().deserialize_seq().ok().unwrap();
    let mut first = array.next_element().unwrap().deserialize_tuple(2).ok().unwrap();
    assert_eq!(first.next_element().unwrap().deserialize_string(), Ok("hi".to_string()));
    assert_eq!(first.next_element().unwrap().deserialize_u64(), Ok(2));
    let mut second = array.next_element().unwrap().deserialize_tuple(2).ok().unwrap();
    assert_eq!(second.next_element().unwrap().deserialize_string(), Ok("hey".to_string()));
    assert_eq!(second.next_element().unwrap().deserialize_u64(), Ok(3));
    assert!(array.next_element().is_none());
    assert_eq!(fields.next_element().unwrap().deserialize_string(), Ok("hello".to_string()));
    assert_eq!(fields.next_element().unwrap().decode(), Ok(Datum::U64(4)));

    let anyfromjson = AnyVariant::deserialize(&as_text_holds_it(false)).ok().unwrap();
    assert_eq!(anyfromjson.inner(), &vardict());

    let mut entries = match Deserializer::new(anyfromjson.inner()).deserialize_struct("TestData", 3) {
        Ok(Visit::Mapping(entries)) => entries,
        _ => panic!("a map of three fields"),
    };
    let (key, data) = entries.next_entry().ok().unwrap().unwrap();
    assert_eq!(key.deserialize_identifier().ok().map(|v| matches!(v, Visit::Str("data"))), Some(true));
    let mut inner = match data.deserialize_struct("TestDataVariant", 4) {
        Ok(Visit::Mapping(inner)) => inner,
        _ => panic!("a map of four fields"),
    };
    let (key, numeric) = inner.next_entry().ok().unwrap().unwrap();
    assert_eq!(key.deserialize_str(), Ok("numeric"));
    assert_eq!(numeric.deserialize_u8(), Ok(1));
    let (key, _) = inner.next_entry().ok().unwrap().unwrap();
    assert_eq!(key.deserialize_str(), Ok("array"));
    let (key, string) = inner.next_entry().ok().unwrap().unwrap();
    assert_eq!(key.deserialize_str(), Ok("string"));
    assert_eq!(string.deserialize_str(), Ok("hello"));
    let (key, explicit) = inner.next_entry().ok().unwrap().unwrap();
    assert_eq!(key.deserialize_str(), Ok("explicit_var"));
    assert_eq!(explicit.decode(), Ok(Datum::U64(4)));
    let (key, var) = entries.next_entry().ok().unwrap().unwrap();
    assert_eq!(key.deserialize_str(), Ok("transparent_var"));
    assert_eq!(var.deserialize_u64(), Ok(5));
    let (key, any) = entries.next_entry().ok().unwrap().unwrap();
    assert_eq!(key.deserialize_str(), Ok("transparent_any"));
    assert_eq!(any.deserialize_str(), Ok("test"));
    assert!(entries.next_entry().ok().unwrap().is_none());

    let anytojson = anyfromjson.serialize().unwrap();
    assert_eq!(anytojson, as_text_holds_it(true));
    assert_eq!(AnyVariant::deserialize(&anytojson).ok().unwrap().inner(), &vardict());
}

#[test]
fn serde_enum() {
    let v = vs("A");
    let any = AnyVariant::wrap(v);
    assert!(matches!(
        Deserializer::new(any.inner()).deserialize_identifier(),
        Ok(Visit::Str("A"))
    ));
    assert_eq!(any.to_serde(), Ok(s("A")));
}

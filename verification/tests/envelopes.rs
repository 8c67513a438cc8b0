use glib_serde::datum::Datum;
use glib_serde::error::Error;
use glib_serde::serialized::{maybe_byteswap, ByteOrder, SerializedData};
use glib_serde::variant_ty::VariantTy;
use glib_serde::wire::{wire_form, Wire, WireForm};
use glib_serde::{pretty, serialized, variant_type, wire};

fn ty(text: &str) -> VariantTy {
    VariantTy::new(text).unwrap()
}

fn s(text: &str) -> Datum {
    Datum::Str(text.into())
}

fn type_datum(text: &str) -> Datum {
    Datum::Newtype("VariantType".into(), Box::new(s(text)))
}

#[test]
fn type_presents_its_signature() {
    assert_eq!(variant_type::NEWTYPE_NAME, "VariantType");
    assert_eq!(variant_type::serialize(&ty("a{sv}")), type_datum("a{sv}"));
    assert_eq!(variant_type::deserialize(&type_datum("a{sv}")), Ok(ty("a{sv}")));
    assert_eq!(variant_type::deserialize(&s("(ii)")), Ok(ty("(ii)")));
    assert_eq!(variant_type::deserialize(&s("(ii")), Err(Error::Syntax));
    assert_eq!(variant_type::deserialize(&Datum::U8(1)), Err(Error::WrongShape));
    assert_eq!(
        variant_type::deserialize(&variant_type::serialize(&ty("(ya(st)sv)"))),
        Ok(ty("(ya(st)sv)"))
    );
}

#[test]
fn text_envelope() {
    assert_eq!(pretty::NEWTYPE_NAME, "glib_serde::PrettyVariant");
    let d = pretty::serialize("(1, 'Item')");
    assert_eq!(
        d,
        Datum::Newtype("glib_serde::PrettyVariant".into(), Box::new(s("(1, 'Item')")))
    );
    assert_eq!(pretty::deserialize(&d), Ok("(1, 'Item')".to_string()));
    assert_eq!(pretty::deserialize(&s("52")), Ok("52".to_string()));
    assert_eq!(pretty::deserialize(&Datum::U8(52)), Err(Error::WrongShape));
}

fn envelope() -> SerializedData {
    SerializedData { ty: ty("(ii)"), bytes: vec![0, 0, 0, 0, 1, 0, 0, 0] }
}

#[test]
fn binary_envelope() {
    assert_eq!(serialized::NEWTYPE_NAME, "SerializedVariant");
    let d = serialized::serialize(&envelope());
    assert_eq!(
        d,
        Datum::TupleStruct(
            "SerializedVariant".into(),
            vec![type_datum("(ii)"), Datum::Bytes(vec![0, 0, 0, 0, 1, 0, 0, 0])]
        )
    );
    assert_eq!(serialized::deserialize(&d), Ok(envelope()));
}

#[test]
fn binary_envelope_from_plain_sequences() {
    let d = Datum::Sequence(vec![
        s("(ii)"),
        Datum::Sequence(vec![
            Datum::U8(0),
            Datum::U8(0),
            Datum::U8(0),
            Datum::U8(0),
            Datum::U8(1),
            Datum::U8(0),
            Datum::U8(0),
            Datum::U8(0),
        ]),
    ]);
    assert_eq!(serialized::deserialize(&d), Ok(envelope()));
    let wrapped = Datum::Newtype("SerializedVariant".into(), Box::new(d));
    assert_eq!(serialized::deserialize(&wrapped), Ok(envelope()));
}

#[test]
fn binary_envelope_failures() {
    assert_eq!(serialized::deserialize(&Datum::U8(1)), Err(Error::WrongShape));
    assert_eq!(
        serialized::deserialize(&Datum::Tuple(vec![])),
        Err(Error::InvalidLength(0))
    );
    assert_eq!(
        serialized::deserialize(&Datum::Tuple(vec![s("i")])),
        Err(Error::InvalidLength(1))
    );
    assert_eq!(
        serialized::deserialize(&Datum::Tuple(vec![s("z"), Datum::Bytes(vec![])])),
        Err(Error::Syntax)
    );
    assert_eq!(
        serialized::deserialize(&Datum::Tuple(vec![Datum::U8(1), Datum::Bytes(vec![])])),
        Err(Error::WrongShape)
    );
    assert_eq!(
        serialized::deserialize(&Datum::Tuple(vec![s("i"), s("bytes")])),
        Err(Error::WrongShape)
    );
    assert_eq!(
        serialized::deserialize(&Datum::Tuple(vec![
            s("i"),
            Datum::Sequence(vec![Datum::U8(1), Datum::U16(2)])
        ])),
        Err(Error::WrongShape)
    );
}

#[test]
fn payload_is_swapped_on_big_endian_hosts_only() {
    assert_eq!(maybe_byteswap(false), ByteOrder::Keep);
    assert_eq!(maybe_byteswap(true), ByteOrder::Swap);
}

#[test]
fn wire_form_follows_the_flag() {
    assert_eq!(wire_form(true), WireForm::Text);
    assert_eq!(wire_form(false), WireForm::Binary);
    let text = Wire::Text("52".into());
    let d = wire::serialize(&text);
    assert_eq!(d, pretty::serialize("52"));
    assert_eq!(wire::deserialize(true, &d), Ok(text));
    let binary = Wire::Binary(envelope());
    let d = wire::serialize(&binary);
    assert_eq!(d, serialized::serialize(&envelope()));
    assert_eq!(wire::deserialize(false, &d), Ok(binary));
    assert_eq!(wire::deserialize(true, &d), Err(Error::WrongShape));
    assert_eq!(wire::deserialize(false, &pretty::serialize("52")), Err(Error::WrongShape));
}

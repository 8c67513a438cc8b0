use glib_serde::error::Error;
use glib_serde::util::{variant_list_type, VariantList, VariantTyTupleIterator};
use glib_serde::variant::Variant;
use glib_serde::variant_ty::{BasicTy, VariantTy};

fn ty(text: &str) -> VariantTy {
    VariantTy::new(text).unwrap()
}

#[test]
fn parse_basic_types() {
    assert_eq!(ty("b"), VariantTy::Basic(BasicTy::Boolean));
    assert_eq!(ty("y"), VariantTy::Basic(BasicTy::Byte));
    assert_eq!(ty("n"), VariantTy::Basic(BasicTy::Int16));
    assert_eq!(ty("q"), VariantTy::Basic(BasicTy::Uint16));
    assert_eq!(ty("i"), VariantTy::Basic(BasicTy::Int32));
    assert_eq!(ty("u"), VariantTy::Basic(BasicTy::Uint32));
    assert_eq!(ty("x"), VariantTy::Basic(BasicTy::Int64));
    assert_eq!(ty("t"), VariantTy::Basic(BasicTy::Uint64));
    assert_eq!(ty("h"), VariantTy::Basic(BasicTy::Handle));
    assert_eq!(ty("d"), VariantTy::Basic(BasicTy::Double));
    assert_eq!(ty("s"), VariantTy::Basic(BasicTy::Str));
    assert_eq!(ty("o"), VariantTy::Basic(BasicTy::ObjectPath));
    assert_eq!(ty("g"), VariantTy::Basic(BasicTy::Signature));
    assert_eq!(ty("?"), VariantTy::Basic(BasicTy::Wild));
    assert_eq!(ty("v"), VariantTy::Variant);
    assert_eq!(ty("*"), VariantTy::Any);
    assert_eq!(ty("r"), VariantTy::AnyTuple);
}

#[test]
fn parse_container_types() {
    assert_eq!(ty("()"), VariantTy::Tuple(vec![]));
    assert_eq!(ty("()"), VariantTy::unit());
    assert_eq!(
        ty("a{sv}"),
        VariantTy::Array(Box::new(VariantTy::DictEntry(
            BasicTy::Str,
            Box::new(VariantTy::Variant)
        )))
    );
    assert_eq!(ty("a{sv}"), VariantTy::vardict());
    assert_eq!(ty("a*"), VariantTy::array());
    assert_eq!(ty("m*"), VariantTy::maybe());
    assert_eq!(ty("{?*}"), VariantTy::dict_entry());
    assert_eq!(ty("a{?*}"), VariantTy::dictionary());
    assert_eq!(ty("ay"), VariantTy::byte_string());
    assert_eq!(
        ty("(tsms)"),
        VariantTy::Tuple(vec![
            VariantTy::Basic(BasicTy::Uint64),
            VariantTy::Basic(BasicTy::Str),
            VariantTy::Maybe(Box::new(VariantTy::Basic(BasicTy::Str))),
        ])
    );
}

#[test]
fn signature_is_read_back() {
    for text in [
        "b", "v", "()", "(i)", "(ii)", "((i)(s))", "a{sv}", "maay", "(ya(st)sv)", "a(a{s(iv)}mx)",
        "(sisuogva{sv})", "r", "a*", "{?*}", "(ud(tsms)(sv)m(sv))",
    ] {
        assert_eq!(ty(text).signature(), text);
    }
}

#[test]
fn syntax_errors() {
    for text in [
        "", "z", "a", "m", "(", ")", "(i", "i)", "ii", "{sv", "{vs}", "{s}", "{}", "{sis}", "a{s",
        "(i))", "é", " i", "i ", "{(i)s}", "{as}",
    ] {
        assert_eq!(VariantTy::new(text), Err(Error::Syntax), "{:?}", text);
    }
}

#[test]
fn subtypes() {
    let pairs = [
        ("i", "i", true),
        ("i", "?", true),
        ("i", "*", true),
        ("i", "u", false),
        ("?", "i", false),
        ("v", "?", false),
        ("v", "*", true),
        ("(ii)", "r", true),
        ("r", "r", true),
        ("ai", "r", false),
        ("(ii)", "(i*)", true),
        ("(ii)", "(i)", false),
        ("(i)", "(ii)", false),
        ("(ii)", "(i?)", true),
        ("(iv)", "(i?)", false),
        ("ai", "a*", true),
        ("mi", "a*", false),
        ("mi", "m*", true),
        ("a{sv}", "a{?*}", true),
        ("a{sv}", "a*", true),
        ("{sv}", "{?*}", true),
        ("{sv}", "{i*}", false),
        ("{sv}", "{s?}", false),
        ("a(ii)", "ar", true),
        ("()", "()", true),
        ("()", "r", true),
    ];
    for (t, s, expected) in pairs {
        assert_eq!(ty(t).is_subtype_of(&ty(s)), expected, "{} <= {}", t, s);
    }
}

#[test]
fn definite_types() {
    assert!(ty("(ya(st)sv)").is_definite());
    assert!(ty("()").is_definite());
    assert!(!ty("a*").is_definite());
    assert!(!ty("r").is_definite());
    assert!(!ty("(i?)").is_definite());
    assert!(!ty("{?v}").is_definite());
    assert!(!ty("ma{s*}").is_definite());
}

#[test]
fn classification_of_types() {
    assert!(ty("s").is_basic());
    assert!(ty("?").is_basic());
    assert!(!ty("v").is_basic());
    assert!(ty("v").is_variant());
    assert!(ty("ms").is_maybe());
    assert!(ty("as").is_array());
    assert!(ty("(s)").is_tuple());
    assert!(ty("r").is_tuple());
    assert!(!ty("{sv}").is_tuple());
    assert!(ty("{sv}").is_dict_entry());
    assert!(ty("v").is_container());
    assert!(ty("(s)").is_container());
    assert!(!ty("s").is_container());
    assert!(!ty("*").is_container());
}

#[test]
fn decomposition() {
    assert_eq!(ty("as").element(), Ok(&ty("s")));
    assert_eq!(ty("m(ii)").element(), Ok(&ty("(ii)")));
    assert_eq!(ty("s").element(), Err(Error::WrongShape));
    assert_eq!(ty("(s)").element(), Err(Error::WrongShape));
    assert_eq!(ty("{sv}").key(), Ok(ty("s")));
    assert_eq!(ty("{sv}").value(), Ok(&ty("v")));
    assert_eq!(ty("a{sv}").key(), Err(Error::WrongShape));
    assert_eq!(ty("a{sv}").value(), Err(Error::WrongShape));
    assert_eq!(ty("(tsms)").n_items(), Ok(3));
    assert_eq!(ty("()").n_items(), Ok(0));
    assert_eq!(ty("{sv}").n_items(), Ok(2));
    assert_eq!(ty("r").n_items(), Err(Error::WrongShape));
    assert_eq!(ty("as").n_items(), Err(Error::WrongShape));
    assert_eq!(
        VariantTy::new_dict_entry(&ty("s"), &ty("ai")),
        Some(ty("{sai}"))
    );
    assert_eq!(VariantTy::new_dict_entry(&ty("v"), &ty("i")), None);
    assert_eq!(VariantTy::new_dict_entry(&ty("(s)"), &ty("i")), None);
}

#[test]
fn tuple_members_in_order() {
    let mut it = VariantTyTupleIterator::new(&ty("(tsms)")).ok().unwrap();
    assert_eq!(it.len(), 3);
    assert_eq!(it.peek(), Some(ty("t")));
    assert_eq!(it.next(), Some(ty("t")));
    assert_eq!(it.next(), Some(ty("s")));
    assert_eq!(it.len(), 1);
    assert_eq!(it.peek(), Some(ty("ms")));
    assert_eq!(it.next(), Some(ty("ms")));
    assert_eq!(it.next(), None);
    assert_eq!(it.next(), None);
    assert_eq!(it.len(), 0);
    assert_eq!(it.peek(), None);
}

#[test]
fn dict_entry_members_in_order() {
    let mut it = VariantTyTupleIterator::new(&ty("{sv}")).ok().unwrap();
    assert_eq!(it.len(), 2);
    assert_eq!(it.next(), Some(ty("s")));
    assert_eq!(it.next(), Some(ty("v")));
    assert_eq!(it.next(), None);
}

#[test]
fn members_of_indefinite_types_are_refused() {
    for text in ["r", "as", "s", "v", "*", "mi"] {
        assert!(matches!(
            VariantTyTupleIterator::new(&ty(text)),
            Err(Error::WrongShape)
        ));
    }
    assert_eq!(VariantTyTupleIterator::new(&ty("()")).ok().unwrap().len(), 0);
}

#[test]
fn unify_empty_says_nothing() {
    assert_eq!(variant_list_type(&vec![]), None);
}

#[test]
fn unify_one_gives_its_type() {
    assert_eq!(variant_list_type(&vec![Variant::Uint16(7)]), Some(Some(ty("q"))));
    assert_eq!(
        variant_list_type(&vec![Variant::Tuple(vec![Variant::Str("a".into())])]),
        Some(Some(ty("(s)")))
    );
}

#[test]
fn unify_consistent_and_inconsistent() {
    let same = vec![Variant::Int32(1), Variant::Int32(2), Variant::Int32(3)];
    assert_eq!(variant_list_type(&same), Some(Some(ty("i"))));
    let mixed = vec![Variant::Int32(1), Variant::Uint32(2), Variant::Int32(3)];
    assert_eq!(variant_list_type(&mixed), Some(None));
    let absorbed = vec![Variant::Int32(1), Variant::Str("x".into()), Variant::Str("y".into())];
    assert_eq!(variant_list_type(&absorbed), Some(None));
}

#[test]
fn list_of_one_type_makes_an_array() {
    let list = VariantList::with_variants(vec![Variant::Byte(1), Variant::Byte(2)], ty("v"));
    assert_eq!(list.elem_type(), ty("y"));
    assert!(!list.is_empty());
    assert_eq!(
        list.to_array(),
        Variant::Array(ty("y"), vec![Variant::Byte(1), Variant::Byte(2)])
    );
    assert_eq!(
        list.to_tuple_or_array(),
        Variant::Array(ty("y"), vec![Variant::Byte(1), Variant::Byte(2)])
    );
    assert_eq!(list.variants(), &vec![Variant::Byte(1), Variant::Byte(2)]);
}

#[test]
fn list_of_mixed_types_is_boxed_or_a_tuple() {
    let items = vec![Variant::Str("a".into()), Variant::Uint64(2)];
    let list = VariantList::with_variants(items.clone(), ty("v"));
    assert_eq!(list.elem_ty, None);
    assert_eq!(list.elem_type(), ty("v"));
    assert_eq!(
        list.iter(),
        vec![
            Variant::Boxed(Box::new(Variant::Str("a".into()))),
            Variant::Boxed(Box::new(Variant::Uint64(2))),
        ]
    );
    assert_eq!(
        list.to_array(),
        Variant::Array(
            ty("v"),
            vec![
                Variant::Boxed(Box::new(Variant::Str("a".into()))),
                Variant::Boxed(Box::new(Variant::Uint64(2))),
            ]
        )
    );
    assert_eq!(list.to_tuple_or_array(), Variant::Tuple(items));
}

#[test]
fn empty_list_takes_the_fallback() {
    let list = VariantList::with_variants(vec![], ty("s"));
    assert!(list.is_empty());
    assert_eq!(list.elem_type(), ty("s"));
    assert_eq!(list.to_array(), Variant::Array(ty("s"), vec![]));
    assert_eq!(list.to_tuple_or_array(), Variant::Tuple(vec![]));
}

#[test]
fn types_of_values() {
    assert_eq!(Variant::Boolean(true).type_().signature(), "b");
    assert_eq!(Variant::Handle(3).type_().signature(), "h");
    assert_eq!(Variant::ObjectPath("/a".into()).type_().signature(), "o");
    assert_eq!(Variant::Signature("i".into()).type_().signature(), "g");
    assert_eq!(Variant::Boxed(Box::new(Variant::Int32(1))).type_().signature(), "v");
    assert_eq!(Variant::Nothing(ty("s")).type_().signature(), "ms");
    assert_eq!(Variant::Just(Box::new(Variant::Int64(1))).type_().signature(), "mx");
    assert_eq!(Variant::Array(ty("(ii)"), vec![]).type_().signature(), "a(ii)");
    assert_eq!(
        Variant::Tuple(vec![Variant::Byte(1), Variant::Double(0), Variant::Tuple(vec![])])
            .type_()
            .signature(),
        "(yd())"
    );
    assert_eq!(
        Variant::DictEntry(
            Box::new(Variant::Str("k".into())),
            Box::new(Variant::Boxed(Box::new(Variant::Int32(1))))
        )
        .type_()
        .signature(),
        "{sv}"
    );
}

#[test]
fn children_of_values() {
    let t = Variant::Tuple(vec![Variant::Byte(1), Variant::Str("x".into())]);
    assert_eq!(t.n_children(), 2);
    assert_eq!(t.child_value(1), Variant::Str("x".into()));
    assert_eq!(t.child(2), None);
    let b = Variant::from_variant(Variant::Byte(1));
    assert_eq!(b.n_children(), 1);
    assert_eq!(b.as_variant(), Some(&Variant::Byte(1)));
    assert_eq!(Variant::Byte(1).as_variant(), None);
    assert_eq!(Variant::Byte(1).n_children(), 0);
    let j = Variant::from_some(Variant::Byte(1));
    assert_eq!(j.as_maybe(), Some(&Variant::Byte(1)));
    assert_eq!(Variant::from_none(ty("y")).as_maybe(), None);
    assert_eq!(Variant::from_none(ty("y")).n_children(), 0);
    let e = Variant::from_dict_entry(Variant::Byte(1), Variant::Byte(2));
    assert_eq!(e.n_children(), 2);
    assert_eq!(e.child_value(0), Variant::Byte(1));
    assert_eq!(e.child_value(1), Variant::Byte(2));
    assert_eq!(Variant::Str("s".into()).str(), Some("s"));
    assert_eq!(Variant::ObjectPath("/o".into()).str(), Some("/o"));
    assert_eq!(Variant::Byte(1).str(), None);
    assert_eq!(
        Variant::array_from_fixed_array(&[1, 2]),
        Variant::Array(ty("y"), vec![Variant::Byte(1), Variant::Byte(2)])
    );
}

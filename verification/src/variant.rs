//! Values of the variant format.

use crate::variant_ty::{definite, BasicTy, Ty, VariantTy};
use vstd::prelude::*;

verus! {

/// The kind of a value, by which it is told apart.
#[derive(Clone, Copy, Debug, PartialEq, Eq, Hash, Structural)]
pub enum VariantClass {
    Boolean,
    Byte,
    Int16,
    Uint16,
    Int32,
    Uint32,
    Int64,
    Uint64,
    Handle,
    Double,
    Str,
    ObjectPath,
    Signature,
    Variant,
    Maybe,
    Array,
    Tuple,
    DictEntry,
}

/// Mathematical model of a value of the variant format.
pub enum Value {
    Boolean(bool),
    Byte(u8),
    Int16(i16),
    Uint16(u16),
    Int32(i32),
    Uint32(u32),
    Int64(i64),
    Uint64(u64),
    Handle(i32),
    /// A double, by the bits of its IEEE 754 form.
    Double(u64),
    Str(Seq<char>),
    ObjectPath(Seq<char>),
    Signature(Seq<char>),
    /// A value in a box: its own type is `v`, and the payload keeps its type.
    Boxed(Box<Value>),
    /// The empty optional value of the given element type.
    Nothing(Ty),
    /// An optional value that is present.
    Just(Box<Value>),
    /// An array of the given element type.
    Array(Ty, Seq<Value>),
    Tuple(Seq<Value>),
    DictEntry(Box<Value>, Box<Value>),
}

/// A value of the variant format.
#[derive(Debug, PartialEq, Eq, Hash)]
pub enum Variant {
    Boolean(bool),
    Byte(u8),
    Int16(i16),
    Uint16(u16),
    Int32(i32),
    Uint32(u32),
    Int64(i64),
    Uint64(u64),
    Handle(i32),
    /// A double, by the bits of its IEEE 754 form.
    Double(u64),
    Str(String),
    ObjectPath(String),
    Signature(String),
    /// A value in a box: its own type is `v`, and the payload keeps its type.
    Boxed(Box<Variant>),
    /// The empty optional value of the given element type.
    Nothing(VariantTy),
    /// An optional value that is present.
    Just(Box<Variant>),
    /// An array of the given element type.
    Array(VariantTy, Vec<Variant>),
    Tuple(Vec<Variant>),
    DictEntry(Box<Variant>, Box<Variant>),
}

impl Variant {
    /// The mathematical model of this value.
    pub open spec fn model(self) -> Value
        decreases self,
    {
        match self {
            Variant::Boolean(b) => Value::Boolean(b),
            Variant::Byte(n) => Value::Byte(n),
            Variant::Int16(n) => Value::Int16(n),
            Variant::Uint16(n) => Value::Uint16(n),
            Variant::Int32(n) => Value::Int32(n),
            Variant::Uint32(n) => Value::Uint32(n),
            Variant::Int64(n) => Value::Int64(n),
            Variant::Uint64(n) => Value::Uint64(n),
            Variant::Handle(n) => Value::Handle(n),
            Variant::Double(bits) => Value::Double(bits),
            Variant::Str(s) => Value::Str(s@),
            Variant::ObjectPath(s) => Value::ObjectPath(s@),
            Variant::Signature(s) => Value::Signature(s@),
            Variant::Boxed(inner) => Value::Boxed(Box::new(inner.model())),
            Variant::Nothing(t) => Value::Nothing(t@),
            Variant::Just(inner) => Value::Just(Box::new(inner.model())),
            Variant::Array(t, items) => Value::Array(
                t@,
                Seq::new(
                    items.len() as nat,
                    |i: int|
                        if 0 <= i < items.len() {
                            items[i].model()
                        } else {
                            Value::Boolean(false)
                        },
                ),
            ),
            Variant::Tuple(items) => Value::Tuple(
                Seq::new(
                    items.len() as nat,
                    |i: int|
                        if 0 <= i < items.len() {
                            items[i].model()
                        } else {
                            Value::Boolean(false)
                        },
                ),
            ),
            Variant::DictEntry(k, v) => Value::DictEntry(Box::new(k.model()), Box::new(v.model())),
        }
    }
}

impl View for Variant {
    type V = Value;

    open spec fn view(&self) -> Value {
        self.model()
    }
}

/// The models of a list of values.
pub open spec fn values(items: Seq<Variant>) -> Seq<Value> {
    Seq::new(items.len(), |i: int| items[i]@)
}

/// The types of a list of values.
pub open spec fn types_of(items: Seq<Value>) -> Seq<Ty> {
    Seq::new(items.len(), |i: int| type_of(items[i]))
}

/// The basic type of a value that keys a dictionary entry.
pub open spec fn key_kind(t: Ty) -> BasicTy {
    match t {
        Ty::Basic(k) => k,
        _ => BasicTy::Wild,
    }
}

/// The type that a value declares.
pub open spec fn type_of(v: Value) -> Ty
    decreases v,
{
    match v {
        Value::Boolean(_) => Ty::Basic(BasicTy::Boolean),
        Value::Byte(_) => Ty::Basic(BasicTy::Byte),
        Value::Int16(_) => Ty::Basic(BasicTy::Int16),
        Value::Uint16(_) => Ty::Basic(BasicTy::Uint16),
        Value::Int32(_) => Ty::Basic(BasicTy::Int32),
        Value::Uint32(_) => Ty::Basic(BasicTy::Uint32),
        Value::Int64(_) => Ty::Basic(BasicTy::Int64),
        Value::Uint64(_) => Ty::Basic(BasicTy::Uint64),
        Value::Handle(_) => Ty::Basic(BasicTy::Handle),
        Value::Double(_) => Ty::Basic(BasicTy::Double),
        Value::Str(_) => Ty::Basic(BasicTy::Str),
        Value::ObjectPath(_) => Ty::Basic(BasicTy::ObjectPath),
        Value::Signature(_) => Ty::Basic(BasicTy::Signature),
        Value::Boxed(_) => Ty::Variant,
        Value::Nothing(t) => Ty::Maybe(Box::new(t)),
        Value::Just(inner) => Ty::Maybe(Box::new(type_of(*inner))),
        Value::Array(t, _) => Ty::Array(Box::new(t)),
        Value::Tuple(items) => Ty::Tuple(
            Seq::new(
                items.len(),
                |i: int|
                    if 0 <= i < items.len() {
                        type_of(items[i])
                    } else {
                        Ty::Any
                    },
            ),
        ),
        Value::DictEntry(k, v) => Ty::DictEntry(key_kind(type_of(*k)), Box::new(type_of(*v))),
    }
}

/// The kind of a value.
pub open spec fn class_of(v: Value) -> VariantClass {
    match v {
        Value::Boolean(_) => VariantClass::Boolean,
        Value::Byte(_) => VariantClass::Byte,
        Value::Int16(_) => VariantClass::Int16,
        Value::Uint16(_) => VariantClass::Uint16,
        Value::Int32(_) => VariantClass::Int32,
        Value::Uint32(_) => VariantClass::Uint32,
        Value::Int64(_) => VariantClass::Int64,
        Value::Uint64(_) => VariantClass::Uint64,
        Value::Handle(_) => VariantClass::Handle,
        Value::Double(_) => VariantClass::Double,
        Value::Str(_) => VariantClass::Str,
        Value::ObjectPath(_) => VariantClass::ObjectPath,
        Value::Signature(_) => VariantClass::Signature,
        Value::Boxed(_) => VariantClass::Variant,
        Value::Nothing(_) => VariantClass::Maybe,
        Value::Just(_) => VariantClass::Maybe,
        Value::Array(_, _) => VariantClass::Array,
        Value::Tuple(_) => VariantClass::Tuple,
        Value::DictEntry(_, _) => VariantClass::DictEntry,
    }
}

/// The children of a container, in order; a scalar has none.
pub open spec fn children(v: Value) -> Seq<Value> {
    match v {
        Value::Boxed(inner) => seq![*inner],
        Value::Just(inner) => seq![*inner],
        Value::Array(_, items) => items,
        Value::Tuple(items) => items,
        Value::DictEntry(k, v) => seq![*k, *v],
        _ => Seq::empty(),
    }
}

/// The invariants of the format: the children of an array all have its
/// element type, which is definite; a dictionary entry is keyed by a basic
/// value; and the same holds of every child.
pub open spec fn well_formed(v: Value) -> bool
    decreases v,
{
    match v {
        Value::Boxed(inner) => well_formed(*inner),
        Value::Nothing(t) => definite(t),
        Value::Just(inner) => well_formed(*inner),
        Value::Array(t, items) => definite(t) && forall|i: int|
            0 <= i < items.len() ==> well_formed(#[trigger] items[i]) && type_of(items[i]) == t,
        Value::Tuple(items) => forall|i: int|
            0 <= i < items.len() ==> well_formed(#[trigger] items[i]),
        Value::DictEntry(k, v) => well_formed(*k) && well_formed(*v) && type_of(*k) is Basic,
        _ => true,
    }
}

/// The members of a well-formed tuple are well formed, and a tuple of
/// well-formed members is.
pub proof fn lemma_tuple_well_formed(members: Seq<Value>)
    ensures
        well_formed(Value::Tuple(members)) ==> (forall|j: int|
            0 <= j < members.len() ==> well_formed(#[trigger] members[j])),
        (forall|j: int| 0 <= j < members.len() ==> well_formed(#[trigger] members[j]))
            ==> well_formed(Value::Tuple(members)),
{
    let v = Value::Tuple(members);
    if well_formed(v) {
        assert forall|j: int| 0 <= j < members.len() implies well_formed(
            #[trigger] members[j],
        ) by {
            assert(v->Tuple_0[j] == members[j]);
        }
    }
}

/// A well-formed value declares a definite type.
pub proof fn lemma_type_is_definite(v: Value)
    requires
        well_formed(v),
    ensures
        definite(type_of(v)),
    decreases v,
{
    match v {
        Value::Just(inner) => lemma_type_is_definite(*inner),
        Value::Tuple(items) => {
            let tys = type_of(v)->Tuple_0;
            assert forall|i: int| 0 <= i < tys.len() implies definite(#[trigger] tys[i]) by {
                lemma_type_is_definite(items[i]);
            }
        },
        Value::DictEntry(k, val) => {
            lemma_type_is_definite(*k);
            lemma_type_is_definite(*val);
        },
        _ => {},
    }
}

/// The model of an array or a tuple lists the models of its members.
pub proof fn lemma_variant_members(v: Variant)
    ensures
        v matches Variant::Array(t, items) ==> v@ == Value::Array(t@, values(items@)),
        v matches Variant::Tuple(items) ==> v@ == Value::Tuple(values(items@)),
{
    match v {
        Variant::Array(t, items) => {
            assert(v@->Array_1 =~= values(items@));
        },
        Variant::Tuple(items) => {
            assert(v@->Tuple_0 =~= values(items@));
        },
        _ => {},
    }
}

impl Clone for Variant {
    #[verifier::loop_isolation(false)]
    fn clone(&self) -> (r: Self)
        ensures
            r@ == self@,
        decreases self,
    {
        match self {
            Variant::Boolean(b) => Variant::Boolean(*b),
            Variant::Byte(n) => Variant::Byte(*n),
            Variant::Int16(n) => Variant::Int16(*n),
            Variant::Uint16(n) => Variant::Uint16(*n),
            Variant::Int32(n) => Variant::Int32(*n),
            Variant::Uint32(n) => Variant::Uint32(*n),
            Variant::Int64(n) => Variant::Int64(*n),
            Variant::Uint64(n) => Variant::Uint64(*n),
            Variant::Handle(n) => Variant::Handle(*n),
            Variant::Double(bits) => Variant::Double(*bits),
            Variant::Str(s) => Variant::Str(s.clone()),
            Variant::ObjectPath(s) => Variant::ObjectPath(s.clone()),
            Variant::Signature(s) => Variant::Signature(s.clone()),
            Variant::Boxed(inner) => Variant::Boxed(Box::new((**inner).clone())),
            Variant::Nothing(t) => Variant::Nothing(t.clone()),
            Variant::Just(inner) => Variant::Just(Box::new((**inner).clone())),
            Variant::Array(t, items) => {
                let mut out: Vec<Variant> = Vec::new();
                let mut i: usize = 0;
                while i < items.len()
                    invariant
                        i <= items.len(),
                        out.len() == i,
                        forall|j: int| 0 <= j < i ==> out[j]@ == items[j]@,
                    decreases items.len() - i,
                {
                    out.push(items[i].clone());
                    i += 1;
                }
                let r = Variant::Array(t.clone(), out);
                assert(r@->Array_1 =~= self@->Array_1);
                r
            },
            Variant::Tuple(items) => {
                let mut out: Vec<Variant> = Vec::new();
                let mut i: usize = 0;
                while i < items.len()
                    invariant
                        i <= items.len(),
                        out.len() == i,
                        forall|j: int| 0 <= j < i ==> out[j]@ == items[j]@,
                    decreases items.len() - i,
                {
                    out.push(items[i].clone());
                    i += 1;
                }
                let r = Variant::Tuple(out);
                assert(r@->Tuple_0 =~= self@->Tuple_0);
                r
            },
            Variant::DictEntry(k, v) => Variant::DictEntry(
                Box::new((**k).clone()),
                Box::new((**v).clone()),
            ),
        }
    }
}

impl Variant {
    /// The type that this value declares.
    #[verifier::loop_isolation(false)]
    pub fn type_(&self) -> (r: VariantTy)
        ensures
            r@ == type_of(self@),
        decreases self,
    {
        match self {
            Variant::Boolean(_) => VariantTy::Basic(BasicTy::Boolean),
            Variant::Byte(_) => VariantTy::Basic(BasicTy::Byte),
            Variant::Int16(_) => VariantTy::Basic(BasicTy::Int16),
            Variant::Uint16(_) => VariantTy::Basic(BasicTy::Uint16),
            Variant::Int32(_) => VariantTy::Basic(BasicTy::Int32),
            Variant::Uint32(_) => VariantTy::Basic(BasicTy::Uint32),
            Variant::Int64(_) => VariantTy::Basic(BasicTy::Int64),
            Variant::Uint64(_) => VariantTy::Basic(BasicTy::Uint64),
            Variant::Handle(_) => VariantTy::Basic(BasicTy::Handle),
            Variant::Double(_) => VariantTy::Basic(BasicTy::Double),
            Variant::Str(_) => VariantTy::Basic(BasicTy::Str),
            Variant::ObjectPath(_) => VariantTy::Basic(BasicTy::ObjectPath),
            Variant::Signature(_) => VariantTy::Basic(BasicTy::Signature),
            Variant::Boxed(_) => VariantTy::Variant,
            Variant::Nothing(t) => VariantTy::Maybe(Box::new(t.clone())),
            Variant::Just(inner) => VariantTy::Maybe(Box::new(inner.type_())),
            Variant::Array(t, _) => VariantTy::Array(Box::new(t.clone())),
            Variant::Tuple(items) => {
                let mut out: Vec<VariantTy> = Vec::new();
                let mut i: usize = 0;
                while i < items.len()
                    invariant
                        i <= items.len(),
                        out.len() == i,
                        forall|j: int| 0 <= j < i ==> out[j]@ == type_of(items[j]@),
                    decreases items.len() - i,
                {
                    out.push(items[i].type_());
                    i += 1;
                }
                let r = VariantTy::Tuple(out);
                assert(r@->Tuple_0 =~= type_of(self@)->Tuple_0);
                r
            },
            Variant::DictEntry(k, v) => {
                let key = match k.type_() {
                    VariantTy::Basic(b) => b,
                    _ => BasicTy::Wild,
                };
                VariantTy::DictEntry(key, Box::new(v.type_()))
            },
        }
    }

    /// The kind of this value.
    pub fn classify(&self) -> (r: VariantClass)
        ensures
            r == class_of(self@),
    {
        match self {
            Variant::Boolean(_) => VariantClass::Boolean,
            Variant::Byte(_) => VariantClass::Byte,
            Variant::Int16(_) => VariantClass::Int16,
            Variant::Uint16(_) => VariantClass::Uint16,
            Variant::Int32(_) => VariantClass::Int32,
            Variant::Uint32(_) => VariantClass::Uint32,
            Variant::Int64(_) => VariantClass::Int64,
            Variant::Uint64(_) => VariantClass::Uint64,
            Variant::Handle(_) => VariantClass::Handle,
            Variant::Double(_) => VariantClass::Double,
            Variant::Str(_) => VariantClass::Str,
            Variant::ObjectPath(_) => VariantClass::ObjectPath,
            Variant::Signature(_) => VariantClass::Signature,
            Variant::Boxed(_) => VariantClass::Variant,
            Variant::Nothing(_) => VariantClass::Maybe,
            Variant::Just(_) => VariantClass::Maybe,
            Variant::Array(_, _) => VariantClass::Array,
            Variant::Tuple(_) => VariantClass::Tuple,
            Variant::DictEntry(_, _) => VariantClass::DictEntry,
        }
    }

    /// The number of children of a container; a scalar has none.
    pub fn n_children(&self) -> (n: usize)
        ensures
            n == children(self@).len(),
    {
        match self {
            Variant::Boxed(_) => 1,
            Variant::Just(_) => 1,
            Variant::Array(_, items) => items.len(),
            Variant::Tuple(items) => items.len(),
            Variant::DictEntry(_, _) => 2,
            _ => 0,
        }
    }

    /// The child at `index`, or `None` where there is none.
    pub fn child(&self, index: usize) -> (r: Option<&Variant>)
        ensures
            index < children(self@).len() ==> (r matches Some(c) && c@ == children(self@)[index as int]),
            index >= children(self@).len() ==> r is None,
    {
        match self {
            Variant::Boxed(inner) => if index == 0 {
                Some(&**inner)
            } else {
                None
            },
            Variant::Just(inner) => if index == 0 {
                Some(&**inner)
            } else {
                None
            },
            Variant::Array(_, items) => if index < items.len() {
                Some(&items[index])
            } else {
                None
            },
            Variant::Tuple(items) => if index < items.len() {
                Some(&items[index])
            } else {
                None
            },
            Variant::DictEntry(k, v) => if index == 0 {
                Some(&**k)
            } else if index == 1 {
                Some(&**v)
            } else {
                None
            },
            _ => None,
        }
    }

    /// A copy of the child at `index`.
    pub fn child_value(&self, index: usize) -> (r: Variant)
        requires
            index < children(self@).len(),
        ensures
            r@ == children(self@)[index as int],
    {
        match self.child(index) {
            Some(c) => c.clone(),
            None => Variant::Tuple(Vec::new()),
        }
    }

    /// The payload of a boxed value.
    pub fn as_variant(&self) -> (r: Option<&Variant>)
        ensures
            match self@ {
                Value::Boxed(inner) => r matches Some(p) && p@ == *inner,
                _ => r is None,
            },
    {
        match self {
            Variant::Boxed(inner) => Some(&**inner),
            _ => None,
        }
    }

    /// The child of an optional value that is present.
    pub fn as_maybe(&self) -> (r: Option<&Variant>)
        ensures
            match self@ {
                Value::Just(inner) => r matches Some(p) && p@ == *inner,
                _ => r is None,
            },
    {
        match self {
            Variant::Just(inner) => Some(&**inner),
            _ => None,
        }
    }

    /// The text of a string, an object path or a signature.
    pub fn str(&self) -> (r: Option<&str>)
        ensures
            r matches Some(s) ==> text_of(self@) == Some(s@),
            r is None ==> text_of(self@) is None,
    {
        match self {
            Variant::Str(s) => Some(s.as_str()),
            Variant::ObjectPath(s) => Some(s.as_str()),
            Variant::Signature(s) => Some(s.as_str()),
            _ => None,
        }
    }

    /// Whether the value keeps the invariants of the format.
    #[verifier::loop_isolation(false)]
    pub fn is_well_formed(&self) -> (b: bool)
        ensures
            b == well_formed(self@),
        decreases self,
    {
        proof {
            lemma_variant_members(*self);
        }
        match self {
            Variant::Boxed(inner) => inner.is_well_formed(),
            Variant::Nothing(t) => t.is_definite(),
            Variant::Just(inner) => inner.is_well_formed(),
            Variant::Array(t, items) => {
                if !t.is_definite() {
                    return false;
                }
                let mut i: usize = 0;
                while i < items.len()
                    invariant
                        i <= items.len(),
                        forall|j: int|
                            0 <= j < i ==> well_formed(#[trigger] values(items@)[j]) && type_of(
                                values(items@)[j],
                            ) == t@,
                    decreases items.len() - i,
                {
                    if !items[i].is_well_formed() || !items[i].type_().equals(t) {
                        assert(self@ == Value::Array(t@, values(items@)));
                        assert(!(well_formed(values(items@)[i as int]) && type_of(
                            values(items@)[i as int],
                        ) == t@));
                        assert(!well_formed(self@));
                        return false;
                    }
                    i += 1;
                }
                true
            },
            Variant::Tuple(items) => {
                let mut i: usize = 0;
                while i < items.len()
                    invariant
                        i <= items.len(),
                        forall|j: int| 0 <= j < i ==> well_formed(#[trigger] values(items@)[j]),
                    decreases items.len() - i,
                {
                    if !items[i].is_well_formed() {
                        proof {
                            let members = values(items@);
                            assert(self@ == Value::Tuple(members));
                            assert(!well_formed(members[i as int]));
                            lemma_tuple_well_formed(members);
                        }
                        return false;
                    }
                    i += 1;
                }
                true
            },
            Variant::DictEntry(k, v) => k.is_well_formed() && v.is_well_formed()
                && k.type_().is_basic(),
            _ => true,
        }
    }

    /// This value in a box.
    pub fn from_variant(value: Variant) -> (r: Variant)
        ensures
            r@ == Value::Boxed(Box::new(value@)),
    {
        Variant::Boxed(Box::new(value))
    }

    /// The empty optional value of element type `ty`.
    pub fn from_none(ty: VariantTy) -> (r: Variant)
        ensures
            r@ == Value::Nothing(ty@),
    {
        Variant::Nothing(ty)
    }

    /// The optional value that holds `value`.
    pub fn from_some(value: Variant) -> (r: Variant)
        ensures
            r@ == Value::Just(Box::new(value@)),
    {
        Variant::Just(Box::new(value))
    }

    /// The tuple of `items`.
    pub fn tuple_from_iter(items: Vec<Variant>) -> (r: Variant)
        ensures
            r@ == Value::Tuple(values(items@)),
    {
        let r = Variant::Tuple(items);
        assert(r@->Tuple_0 =~= values(items@));
        r
    }

    /// The empty tuple.
    pub fn unit() -> (r: Variant)
        ensures
            r@ == Value::Tuple(Seq::empty()),
    {
        let r = Variant::Tuple(Vec::new());
        assert(r@->Tuple_0 =~= Seq::<Value>::empty());
        r
    }

    /// The array of `items`, whose element type is `ty`.
    pub fn array_from_iter_with_type(ty: VariantTy, items: Vec<Variant>) -> (r: Variant)
        requires
            all_of_type(values(items@), ty@),
        ensures
            r@ == Value::Array(ty@, values(items@)),
    {
        let r = Variant::Array(ty, items);
        assert(r@->Array_1 =~= values(items@));
        r
    }

    /// The array of the bytes of `bytes`.
    #[verifier::loop_isolation(false)]
    pub fn array_from_fixed_array(bytes: &[u8]) -> (r: Variant)
        ensures
            r@ == Value::Array(Ty::Basic(BasicTy::Byte), byte_values(bytes@)),
    {
        let mut out: Vec<Variant> = Vec::new();
        let mut i: usize = 0;
        while i < bytes.len()
            invariant
                i <= bytes.len(),
                out.len() == i,
                forall|j: int| 0 <= j < i ==> out[j]@ == Value::Byte(bytes[j]),
            decreases bytes.len() - i,
        {
            out.push(Variant::Byte(bytes[i]));
            i += 1;
        }
        let r = Variant::Array(VariantTy::Basic(BasicTy::Byte), out);
        assert(r@->Array_1 =~= byte_values(bytes@));
        r
    }

    /// The dictionary entry from `key` to `value`.
    pub fn from_dict_entry(key: Variant, value: Variant) -> (r: Variant)
        requires
            type_of(key@) is Basic,
        ensures
            r@ == Value::DictEntry(Box::new(key@), Box::new(value@)),
    {
        Variant::DictEntry(Box::new(key), Box::new(value))
    }
}

/// Whether every value of `items` declares the type `t`.
pub open spec fn all_of_type(items: Seq<Value>, t: Ty) -> bool {
    forall|i: int| 0 <= i < items.len() ==> type_of(#[trigger] items[i]) == t
}

/// The text of a string-like value.
pub open spec fn text_of(v: Value) -> Option<Seq<char>> {
    match v {
        Value::Str(s) => Some(s),
        Value::ObjectPath(s) => Some(s),
        Value::Signature(s) => Some(s),
        _ => None,
    }
}

/// The byte values that stand for `bytes`.
pub open spec fn byte_values(bytes: Seq<u8>) -> Seq<Value> {
    Seq::new(bytes.len(), |i: int| Value::Byte(bytes[i]))
}

/// What can be taken out of a value of one fixed type.
pub trait FromVariant: Sized {
    /// The type of the values that hold one of these.
    spec fn static_type() -> Ty;

    /// What `v` holds, where it is of that type.
    spec fn extract(v: Value) -> Option<Self>;

    fn static_variant_type() -> (t: VariantTy)
        ensures
            t@ == Self::static_type(),
    ;

    fn from_variant(v: &Variant) -> (r: Option<Self>)
        ensures
            r == Self::extract(v@),
    ;
}

impl FromVariant for bool {
    open spec fn static_type() -> Ty {
        Ty::Basic(BasicTy::Boolean)
    }

    open spec fn extract(v: Value) -> Option<Self> {
        match v {
            Value::Boolean(b) => Some(b),
            _ => None,
        }
    }

    fn static_variant_type() -> (t: VariantTy) {
        VariantTy::Basic(BasicTy::Boolean)
    }

    fn from_variant(v: &Variant) -> (r: Option<Self>) {
        match v {
            Variant::Boolean(b) => Some(*b),
            _ => None,
        }
    }
}

impl FromVariant for u8 {
    open spec fn static_type() -> Ty {
        Ty::Basic(BasicTy::Byte)
    }

    open spec fn extract(v: Value) -> Option<Self> {
        match v {
            Value::Byte(n) => Some(n),
            _ => None,
        }
    }

    fn static_variant_type() -> (t: VariantTy) {
        VariantTy::Basic(BasicTy::Byte)
    }

    fn from_variant(v: &Variant) -> (r: Option<Self>) {
        match v {
            Variant::Byte(n) => Some(*n),
            _ => None,
        }
    }
}

impl FromVariant for i16 {
    open spec fn static_type() -> Ty {
        Ty::Basic(BasicTy::Int16)
    }

    open spec fn extract(v: Value) -> Option<Self> {
        match v {
            Value::Int16(n) => Some(n),
            _ => None,
        }
    }

    fn static_variant_type() -> (t: VariantTy) {
        VariantTy::Basic(BasicTy::Int16)
    }

    fn from_variant(v: &Variant) -> (r: Option<Self>) {
        match v {
            Variant::Int16(n) => Some(*n),
            _ => None,
        }
    }
}

impl FromVariant for u16 {
    open spec fn static_type() -> Ty {
        Ty::Basic(BasicTy::Uint16)
    }

    open spec fn extract(v: Value) -> Option<Self> {
        match v {
            Value::Uint16(n) => Some(n),
            _ => None,
        }
    }

    fn static_variant_type() -> (t: VariantTy) {
        VariantTy::Basic(BasicTy::Uint16)
    }

    fn from_variant(v: &Variant) -> (r: Option<Self>) {
        match v {
            Variant::Uint16(n) => Some(*n),
            _ => None,
        }
    }
}

impl FromVariant for i32 {
    open spec fn static_type() -> Ty {
        Ty::Basic(BasicTy::Int32)
    }

    open spec fn extract(v: Value) -> Option<Self> {
        match v {
            Value::Int32(n) => Some(n),
            _ => None,
        }
    }

    fn static_variant_type() -> (t: VariantTy) {
        VariantTy::Basic(BasicTy::Int32)
    }

    fn from_variant(v: &Variant) -> (r: Option<Self>) {
        match v {
            Variant::Int32(n) => Some(*n),
            _ => None,
        }
    }
}

impl FromVariant for u32 {
    open spec fn static_type() -> Ty {
        Ty::Basic(BasicTy::Uint32)
    }

    open spec fn extract(v: Value) -> Option<Self> {
        match v {
            Value::Uint32(n) => Some(n),
            _ => None,
        }
    }

    fn static_variant_type() -> (t: VariantTy) {
        VariantTy::Basic(BasicTy::Uint32)
    }

    fn from_variant(v: &Variant) -> (r: Option<Self>) {
        match v {
            Variant::Uint32(n) => Some(*n),
            _ => None,
        }
    }
}

impl FromVariant for i64 {
    open spec fn static_type() -> Ty {
        Ty::Basic(BasicTy::Int64)
    }

    open spec fn extract(v: Value) -> Option<Self> {
        match v {
            Value::Int64(n) => Some(n),
            _ => None,
        }
    }

    fn static_variant_type() -> (t: VariantTy) {
        VariantTy::Basic(BasicTy::Int64)
    }

    fn from_variant(v: &Variant) -> (r: Option<Self>) {
        match v {
            Variant::Int64(n) => Some(*n),
            _ => None,
        }
    }
}

impl FromVariant for u64 {
    open spec fn static_type() -> Ty {
        Ty::Basic(BasicTy::Uint64)
    }

    open spec fn extract(v: Value) -> Option<Self> {
        match v {
            Value::Uint64(n) => Some(n),
            _ => None,
        }
    }

    fn static_variant_type() -> (t: VariantTy) {
        VariantTy::Basic(BasicTy::Uint64)
    }

    fn from_variant(v: &Variant) -> (r: Option<Self>) {
        match v {
            Variant::Uint64(n) => Some(*n),
            _ => None,
        }
    }
}

impl FromVariant for () {
    open spec fn static_type() -> Ty {
        Ty::Tuple(Seq::empty())
    }

    open spec fn extract(v: Value) -> Option<Self> {
        match v {
            Value::Tuple(items) => if items.len() == 0 {
                Some(())
            } else {
                None
            },
            _ => None,
        }
    }

    fn static_variant_type() -> (t: VariantTy) {
        VariantTy::unit()
    }

    fn from_variant(v: &Variant) -> (r: Option<Self>) {
        match v {
            Variant::Tuple(items) => if items.len() == 0 {
                Some(())
            } else {
                None
            },
            _ => None,
        }
    }
}

} // verus!

//! The generic structured-value model: what any serializable value presents.

use vstd::prelude::*;

verus! {

/// Mathematical model of a [`Datum`].
pub enum Data {
    Bool(bool),
    I8(i8),
    I16(i16),
    I32(i32),
    I64(i64),
    U8(u8),
    U16(u16),
    U32(u32),
    U64(u64),
    /// A double, by the bits of its IEEE 754 form.
    F64(u64),
    Char(char),
    Str(Seq<char>),
    Bytes(Seq<u8>),
    Absent,
    Present(Box<Data>),
    Unit,
    UnitStruct(Seq<char>),
    UnitVariant { name: Seq<char>, index: u32, variant: Seq<char> },
    Newtype(Seq<char>, Box<Data>),
    Sequence(Seq<Data>),
    Tuple(Seq<Data>),
    TupleStruct(Seq<char>, Seq<Data>),
    Mapping(Seq<(Data, Data)>),
    Struct(Seq<char>, Seq<(Seq<char>, Data)>),
}

/// A value of the generic model.
#[derive(Debug, PartialEq, Eq, Hash)]
pub enum Datum {
    Bool(bool),
    I8(i8),
    I16(i16),
    I32(i32),
    I64(i64),
    U8(u8),
    U16(u16),
    U32(u32),
    U64(u64),
    /// A double, by the bits of its IEEE 754 form.
    F64(u64),
    Char(char),
    Str(String),
    Bytes(Vec<u8>),
    /// An optional value that is absent.
    Absent,
    /// An optional value that is present.
    Present(Box<Datum>),
    Unit,
    /// A named aggregate without fields.
    UnitStruct(String),
    /// A bare discriminant of the enum `name`: its index and its symbolic name.
    UnitVariant { name: String, index: u32, variant: String },
    /// A named wrapper of one value.
    Newtype(String, Box<Datum>),
    /// An ordered sequence of any length.
    Sequence(Vec<Datum>),
    /// An ordered sequence of fixed arity.
    Tuple(Vec<Datum>),
    /// A named ordered sequence of fixed arity.
    TupleStruct(String, Vec<Datum>),
    /// An associative map, in insertion order.
    Mapping(Vec<(Datum, Datum)>),
    /// A named aggregate of named fields, in declared order.
    Struct(String, Vec<(String, Datum)>),
}

impl Datum {
    /// The mathematical model of this value.
    pub open spec fn model(self) -> Data
        decreases self,
    {
        match self {
            Datum::Bool(b) => Data::Bool(b),
            Datum::I8(n) => Data::I8(n),
            Datum::I16(n) => Data::I16(n),
            Datum::I32(n) => Data::I32(n),
            Datum::I64(n) => Data::I64(n),
            Datum::U8(n) => Data::U8(n),
            Datum::U16(n) => Data::U16(n),
            Datum::U32(n) => Data::U32(n),
            Datum::U64(n) => Data::U64(n),
            Datum::F64(bits) => Data::F64(bits),
            Datum::Char(c) => Data::Char(c),
            Datum::Str(s) => Data::Str(s@),
            Datum::Bytes(b) => Data::Bytes(b@),
            Datum::Absent => Data::Absent,
            Datum::Present(inner) => Data::Present(Box::new(inner.model())),
            Datum::Unit => Data::Unit,
            Datum::UnitStruct(name) => Data::UnitStruct(name@),
            Datum::UnitVariant { name, index, variant } => Data::UnitVariant {
                name: name@,
                index,
                variant: variant@,
            },
            Datum::Newtype(name, inner) => Data::Newtype(name@, Box::new(inner.model())),
            Datum::Sequence(items) => Data::Sequence(
                Seq::new(
                    items.len() as nat,
                    |i: int|
                        if 0 <= i < items.len() {
                            items[i].model()
                        } else {
                            Data::Unit
                        },
                ),
            ),
            Datum::Tuple(items) => Data::Tuple(
                Seq::new(
                    items.len() as nat,
                    |i: int|
                        if 0 <= i < items.len() {
                            items[i].model()
                        } else {
                            Data::Unit
                        },
                ),
            ),
            Datum::TupleStruct(name, items) => Data::TupleStruct(
                name@,
                Seq::new(
                    items.len() as nat,
                    |i: int|
                        if 0 <= i < items.len() {
                            items[i].model()
                        } else {
                            Data::Unit
                        },
                ),
            ),
            Datum::Mapping(entries) => Data::Mapping(
                Seq::new(
                    entries.len() as nat,
                    |i: int|
                        if 0 <= i < entries.len() {
                            (entries[i].0.model(), entries[i].1.model())
                        } else {
                            (Data::Unit, Data::Unit)
                        },
                ),
            ),
            Datum::Struct(name, fields) => Data::Struct(
                name@,
                Seq::new(
                    fields.len() as nat,
                    |i: int|
                        if 0 <= i < fields.len() {
                            (fields[i].0@, fields[i].1.model())
                        } else {
                            (Seq::empty(), Data::Unit)
                        },
                ),
            ),
        }
    }
}

impl View for Datum {
    type V = Data;

    open spec fn view(&self) -> Data {
        self.model()
    }
}

/// The models of a list of values.
pub open spec fn data_of(items: Seq<Datum>) -> Seq<Data> {
    Seq::new(items.len(), |i: int| items[i]@)
}

/// The models of a list of pairs.
pub open spec fn pairs_of(entries: Seq<(Datum, Datum)>) -> Seq<(Data, Data)> {
    Seq::new(entries.len(), |i: int| (entries[i].0@, entries[i].1@))
}

/// The models of a list of named fields.
pub open spec fn fields_of(fields: Seq<(String, Datum)>) -> Seq<(Seq<char>, Data)> {
    Seq::new(fields.len(), |i: int| (fields[i].0@, fields[i].1@))
}

/// The model of a sequence, a tuple, a map or a struct lists the models of its
/// members.
pub proof fn lemma_datum_members(d: Datum)
    ensures
        d matches Datum::Sequence(items) ==> d@ == Data::Sequence(data_of(items@)),
        d matches Datum::Tuple(items) ==> d@ == Data::Tuple(data_of(items@)),
        d matches Datum::TupleStruct(name, items) ==> d@ == Data::TupleStruct(
            name@,
            data_of(items@),
        ),
        d matches Datum::Mapping(entries) ==> d@ == Data::Mapping(pairs_of(entries@)),
        d matches Datum::Struct(name, fields) ==> d@ == Data::Struct(name@, fields_of(fields@)),
{
    match d {
        Datum::Sequence(items) => {
            assert(d@->Sequence_0 =~= data_of(items@));
        },
        Datum::Tuple(items) => {
            assert(d@->Tuple_0 =~= data_of(items@));
        },
        Datum::TupleStruct(name, items) => {
            assert(d@->TupleStruct_1 =~= data_of(items@));
        },
        Datum::Mapping(entries) => {
            assert(d@->Mapping_0 =~= pairs_of(entries@));
        },
        Datum::Struct(name, fields) => {
            assert(d@->Struct_1 =~= fields_of(fields@));
        },
        _ => {},
    }
}

impl Clone for Datum {
    fn clone(&self) -> (r: Self)
        ensures
            r@ == self@,
        decreases self, 1nat,
    {
        proof {
            lemma_datum_members(*self);
        }
        let r = match self {
            Datum::Bool(b) => Datum::Bool(*b),
            Datum::I8(n) => Datum::I8(*n),
            Datum::I16(n) => Datum::I16(*n),
            Datum::I32(n) => Datum::I32(*n),
            Datum::I64(n) => Datum::I64(*n),
            Datum::U8(n) => Datum::U8(*n),
            Datum::U16(n) => Datum::U16(*n),
            Datum::U32(n) => Datum::U32(*n),
            Datum::U64(n) => Datum::U64(*n),
            Datum::F64(bits) => Datum::F64(*bits),
            Datum::Char(c) => Datum::Char(*c),
            Datum::Str(s) => Datum::Str(s.clone()),
            Datum::Bytes(b) => Datum::Bytes(b.clone()),
            Datum::Absent => Datum::Absent,
            Datum::Present(inner) => Datum::Present(Box::new((**inner).clone())),
            Datum::Unit => Datum::Unit,
            Datum::UnitStruct(name) => Datum::UnitStruct(name.clone()),
            Datum::UnitVariant { name, index, variant } => Datum::UnitVariant {
                name: name.clone(),
                index: *index,
                variant: variant.clone(),
            },
            Datum::Newtype(name, inner) => Datum::Newtype(
                name.clone(),
                Box::new((**inner).clone()),
            ),
            Datum::Sequence(items) => Datum::Sequence(copy_members(items, Ghost(*self))),
            Datum::Tuple(items) => Datum::Tuple(copy_members(items, Ghost(*self))),
            Datum::TupleStruct(name, items) => Datum::TupleStruct(
                name.clone(),
                copy_members(items, Ghost(*self)),
            ),
            Datum::Mapping(entries) => {
                let mut out: Vec<(Datum, Datum)> = Vec::new();
                let mut i: usize = 0;
                while i < entries.len()
                    invariant
                        i <= entries.len(),
                        out.len() == i,
                        self matches Datum::Mapping(v) && v == *entries,
                        forall|j: int|
                            0 <= j < i ==> (#[trigger] out[j]).0@ == entries[j].0@ && out[j].1@
                                == entries[j].1@,
                    decreases entries.len() - i,
                {
                    out.push((entries[i].0.clone(), entries[i].1.clone()));
                    i += 1;
                }
                assert(pairs_of(out@) =~= pairs_of(entries@));
                Datum::Mapping(out)
            },
            Datum::Struct(name, fields) => {
                let mut out: Vec<(String, Datum)> = Vec::new();
                let mut i: usize = 0;
                while i < fields.len()
                    invariant
                        i <= fields.len(),
                        out.len() == i,
                        self matches Datum::Struct(_, v) && v == *fields,
                        forall|j: int|
                            0 <= j < i ==> (#[trigger] out[j]).0@ == fields[j].0@ && out[j].1@
                                == fields[j].1@,
                    decreases fields.len() - i,
                {
                    out.push((fields[i].0.clone(), fields[i].1.clone()));
                    i += 1;
                }
                assert(fields_of(out@) =~= fields_of(fields@));
                Datum::Struct(name.clone(), out)
            },
        };
        proof {
            lemma_datum_members(r);
        }
        r
    }
}

/// Whether `items` are the members of the sequence or tuple `parent`.
spec fn lists(parent: Datum, items: Vec<Datum>) -> bool {
    match parent {
        Datum::Sequence(v) => v == items,
        Datum::Tuple(v) => v == items,
        Datum::TupleStruct(_, v) => v == items,
        _ => false,
    }
}

/// Copies of `items`, in order.
fn copy_members(items: &Vec<Datum>, Ghost(parent): Ghost<Datum>) -> (r: Vec<Datum>)
    requires
        lists(parent, *items),
    ensures
        data_of(r@) == data_of(items@),
    decreases parent, 0nat,
{
    let mut out: Vec<Datum> = Vec::new();
    let mut i: usize = 0;
    while i < items.len()
        invariant
            i <= items.len(),
            out.len() == i,
            lists(parent, *items),
            forall|j: int| 0 <= j < i ==> (#[trigger] out[j])@ == items[j]@,
        decreases items.len() - i,
    {
        out.push(items[i].clone());
        i += 1;
    }
    assert(data_of(out@) =~= data_of(items@));
    out
}

} // verus!

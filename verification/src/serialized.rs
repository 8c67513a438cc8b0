//! The binary envelope: a type and the bytes of a value of that type, in
//! little-endian order whatever the host.

use crate::datum::{data_of, Data, Datum};
use crate::error::{Error, Failure};
use crate::variant_ty::{signature, Ty, VariantTy};
use crate::variant_type::{text_in, type_datum};
use vstd::prelude::*;

verus! {

/// The name of the envelope as a named tuple.
pub const NEWTYPE_NAME: &'static str = "SerializedVariant";

/// Mathematical model of a binary envelope.
pub struct Envelope {
    pub ty: Ty,
    pub bytes: Seq<u8>,
}

/// A binary envelope: a type and the payload of a value of that type. Nothing
/// checks that the payload is one of that type: whoever receives an envelope
/// from outside must validate it first.
#[derive(Debug, PartialEq, Eq)]
pub struct SerializedData {
    pub ty: VariantTy,
    pub bytes: Vec<u8>,
}

impl View for SerializedData {
    type V = Envelope;

    open spec fn view(&self) -> Envelope {
        Envelope { ty: self.ty@, bytes: self.bytes@ }
    }
}

/// What is to be done with a payload between the host and the wire.
#[derive(Clone, Copy, Debug, PartialEq, Eq, Structural)]
pub enum ByteOrder {
    /// The host is little-endian: the payload goes as it is.
    Keep,
    /// The host is big-endian: the payload is byte-swapped.
    Swap,
}

/// What is to be done with a payload on a host of the given byte order.
pub open spec fn wire_action(host_big_endian: bool) -> ByteOrder {
    if host_big_endian {
        ByteOrder::Swap
    } else {
        ByteOrder::Keep
    }
}

/// The payload after what is to be done with it, for a given way of swapping
/// bytes.
pub open spec fn normalized(
    action: ByteOrder,
    swap: spec_fn(Seq<u8>) -> Seq<u8>,
    bytes: Seq<u8>,
) -> Seq<u8> {
    match action {
        ByteOrder::Keep => bytes,
        ByteOrder::Swap => swap(bytes),
    }
}

/// The payload in the byte order of a host, from its little-endian form.
pub open spec fn native(
    host_big_endian: bool,
    swap: spec_fn(Seq<u8>) -> Seq<u8>,
    little_endian: Seq<u8>,
) -> Seq<u8> {
    if host_big_endian {
        swap(little_endian)
    } else {
        little_endian
    }
}

/// Whatever way of swapping bytes is used, as long as swapping twice gives
/// the payload back: a payload that leaves a host of either byte order is
/// little-endian on the wire, and a payload that arrives at a host of either
/// byte order is in the order of that host. So what is written on a host of
/// one order is read as the same payload on a host of the other.
pub proof fn lemma_wire_is_little_endian(
    swap: spec_fn(Seq<u8>) -> Seq<u8>,
    little_endian: Seq<u8>,
    writer_big_endian: bool,
    reader_big_endian: bool,
)
    requires
        forall|bytes: Seq<u8>| #[trigger] swap(swap(bytes)) == bytes,
    ensures
        normalized(
            wire_action(writer_big_endian),
            swap,
            native(writer_big_endian, swap, little_endian),
        ) == little_endian,
        normalized(wire_action(reader_big_endian), swap, little_endian) == native(
            reader_big_endian,
            swap,
            little_endian,
        ),
{
}

/// What is to be done with a payload on a host of the given byte order, on
/// the way to the wire and on the way back alike.
pub fn maybe_byteswap(host_big_endian: bool) -> (r: ByteOrder)
    ensures
        r == wire_action(host_big_endian),
{
    if host_big_endian {
        ByteOrder::Swap
    } else {
        ByteOrder::Keep
    }
}

/// What a binary envelope presents to the generic model.
pub open spec fn envelope_datum(e: Envelope) -> Data {
    Data::TupleStruct("SerializedVariant"@, seq![type_datum(e.ty), Data::Bytes(e.bytes)])
}

/// The fields of a tuple, through any wrapper.
pub open spec fn fields_in(d: Data) -> Option<Seq<Data>>
    decreases d,
{
    match d {
        Data::Newtype(_, inner) => fields_in(*inner),
        Data::Sequence(items) => Some(items),
        Data::Tuple(items) => Some(items),
        Data::TupleStruct(_, items) => Some(items),
        _ => None,
    }
}

/// The byte that a value of the generic model holds.
pub open spec fn byte_in(d: Data) -> Option<u8> {
    match d {
        Data::U8(b) => Some(b),
        _ => None,
    }
}

/// The bytes that a value of the generic model holds: a byte string, or a
/// sequence of bytes.
pub open spec fn bytes_in(d: Data) -> Option<Seq<u8>> {
    match d {
        Data::Bytes(b) => Some(b),
        Data::Sequence(items) => if forall|i: int|
            0 <= i < items.len() ==> byte_in(#[trigger] items[i]) is Some {
            Some(Seq::new(items.len(), |i: int| byte_in(items[i])->Some_0))
        } else {
            None
        },
        _ => None,
    }
}

/// The envelope that a value of the generic model holds: its first field is
/// the type, its second the payload.
pub open spec fn envelope_in(d: Data) -> Result<Envelope, Failure> {
    match fields_in(d) {
        None => Err(Failure::WrongShape),
        Some(fields) => if fields.len() == 0 {
            Err(Failure::InvalidLength(0))
        } else {
            match text_in(fields[0]) {
                None => Err(Failure::WrongShape),
                Some(s) => if forall|t: Ty| signature(t) != s {
                    Err(Failure::Syntax)
                } else if fields.len() == 1 {
                    Err(Failure::InvalidLength(1))
                } else {
                    match bytes_in(fields[1]) {
                        None => Err(Failure::WrongShape),
                        Some(bytes) => Ok(
                            Envelope { ty: choose|t: Ty| signature(t) == s, bytes },
                        ),
                    }
                },
            }
        },
    }
}

/// Presents a binary envelope to the generic model.
pub fn serialize(data: &SerializedData) -> (d: Datum)
    ensures
        d@ == envelope_datum(data@),
{
    let mut fields: Vec<Datum> = Vec::new();
    fields.push(crate::variant_type::serialize(&data.ty));
    fields.push(Datum::Bytes(data.bytes.clone()));
    let d = Datum::TupleStruct(String::from_str("SerializedVariant"), fields);
    proof {
        crate::datum::lemma_datum_members(d);
        assert(data_of(fields@) =~= seq![type_datum(data.ty@), Data::Bytes(data.bytes@)]);
    }
    d
}

/// The fields of `d`, through any wrapper.
fn fields_of_datum(d: &Datum) -> (r: Option<&Vec<Datum>>)
    ensures
        match fields_in(d@) {
            Some(fields) => r matches Some(x) && data_of(x@) == fields,
            None => r is None,
        },
    decreases d,
{
    proof {
        crate::datum::lemma_datum_members(*d);
    }
    match d {
        Datum::Newtype(_, inner) => fields_of_datum(inner),
        Datum::Sequence(items) => Some(items),
        Datum::Tuple(items) => Some(items),
        Datum::TupleStruct(_, items) => Some(items),
        _ => None,
    }
}

/// The bytes that `d` holds.
#[verifier::loop_isolation(false)]
fn bytes_of_datum(d: &Datum) -> (r: Option<Vec<u8>>)
    ensures
        match bytes_in(d@) {
            Some(bytes) => r matches Some(x) && x@ == bytes,
            None => r is None,
        },
{
    proof {
        crate::datum::lemma_datum_members(*d);
    }
    match d {
        Datum::Bytes(b) => Some(b.clone()),
        Datum::Sequence(items) => {
            let mut out: Vec<u8> = Vec::new();
            let mut i: usize = 0;
            while i < items.len()
                invariant
                    i <= items.len(),
                    out.len() == i,
                    forall|j: int| 0 <= j < i ==> byte_in(#[trigger] data_of(items@)[j]) == Some(out[j]),
                decreases items.len() - i,
            {
                match &items[i] {
                    Datum::U8(b) => {
                        out.push(*b);
                    },
                    _ => {
                        assert(byte_in(data_of(items@)[i as int]) is None);
                        return None;
                    },
                }
                i += 1;
            }
            assert(out@ =~= bytes_in(d@)->Some_0);
            Some(out)
        },
        _ => None,
    }
}

/// Reads a binary envelope from the generic model. The payload is taken as
/// it is: nothing checks it against the type.
pub fn deserialize(d: &Datum) -> (r: Result<SerializedData, Error>)
    ensures
        match envelope_in(d@) {
            Ok(e) => r matches Ok(x) && x@ == e,
            Err(f) => r matches Err(x) && x@ == f,
        },
{
    let fields = match fields_of_datum(d) {
        None => {
            return Err(Error::WrongShape);
        },
        Some(fields) => fields,
    };
    if fields.len() == 0 {
        return Err(Error::InvalidLength(0));
    }
    let ty = match crate::variant_type::deserialize(&fields[0]) {
        Err(e) => {
            return Err(e);
        },
        Ok(ty) => ty,
    };
    proof {
        let s = text_in(data_of(fields@)[0])->Some_0;
        let chosen = choose|t: Ty| signature(t) == s;
        crate::variant_ty::lemma_signature_injective(chosen, ty@);
    }
    if fields.len() == 1 {
        return Err(Error::InvalidLength(1));
    }
    match bytes_of_datum(&fields[1]) {
        None => Err(Error::WrongShape),
        Some(bytes) => Ok(SerializedData { ty, bytes }),
    }
}

/// A binary envelope that is presented to the generic model is read back as
/// itself.
pub proof fn lemma_envelope_round_trip(e: Envelope)
    ensures
        envelope_in(envelope_datum(e)) == Ok::<Envelope, Failure>(e),
{
    reveal_with_fuel(text_in, 2);
    let s = signature(e.ty);
    let chosen = choose|t: Ty| signature(t) == s;
    crate::variant_ty::lemma_signature_injective(chosen, e.ty);
    let fields = seq![type_datum(e.ty), Data::Bytes(e.bytes)];
    assert(fields_in(envelope_datum(e)) == Some(fields));
    assert(text_in(fields[0]) == Some(s));
}

} // verus!

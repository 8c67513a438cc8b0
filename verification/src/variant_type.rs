//! A type descriptor as the generic model sees it: a wrapper named
//! `VariantType` around its signature.

use crate::datum::{Data, Datum};
use crate::error::{Error, Failure};
use crate::variant_ty::{signature, Ty, VariantTy};
use vstd::prelude::*;

verus! {

/// The name of the wrapper.
pub const NEWTYPE_NAME: &'static str = "VariantType";

/// What a type presents to the generic model.
pub open spec fn type_datum(t: Ty) -> Data {
    Data::Newtype("VariantType"@, Box::new(Data::Str(signature(t))))
}

/// The text that a value of the generic model holds, through any wrapper.
pub open spec fn text_in(d: Data) -> Option<Seq<char>>
    decreases d,
{
    match d {
        Data::Str(s) => Some(s),
        Data::Newtype(_, inner) => text_in(*inner),
        _ => None,
    }
}

/// The text that `d` holds, through any wrapper.
pub fn text_of_datum(d: &Datum) -> (r: Option<&str>)
    ensures
        match text_in(d@) {
            Some(s) => r matches Some(x) && x@ == s,
            None => r is None,
        },
    decreases d,
{
    match d {
        Datum::Str(s) => Some(s.as_str()),
        Datum::Newtype(_, inner) => text_of_datum(inner),
        _ => None,
    }
}

/// Presents a type to the generic model.
pub fn serialize(ty: &VariantTy) -> (d: Datum)
    ensures
        d@ == type_datum(ty@),
{
    proof {
        reveal_with_fuel(Datum::model, 2);
    }
    Datum::Newtype(String::from_str("VariantType"), Box::new(Datum::Str(ty.signature())))
}

/// Reads a type from the generic model. Fails with `WrongShape` where `d`
/// holds no text, and with `Syntax` where the text is the signature of no
/// type.
pub fn deserialize(d: &Datum) -> (r: Result<VariantTy, Error>)
    ensures
        text_in(d@) is None ==> (r matches Err(e) && e@ == Failure::WrongShape),
        text_in(d@) matches Some(s) ==> (match r {
            Ok(t) => signature(t@) == s,
            Err(e) => e@ == Failure::Syntax && forall|t: Ty| signature(t) != s,
        }),
{
    match text_of_datum(d) {
        None => Err(Error::WrongShape),
        Some(text) => VariantTy::new(text),
    }
}

/// What a type presents holds its signature, which no other type has: it is
/// read back as the same type.
pub proof fn lemma_type_round_trip(t: Ty)
    ensures
        text_in(type_datum(t)) == Some(signature(t)),
        forall|u: Ty| signature(u) == signature(t) ==> u == t,
{
    reveal_with_fuel(text_in, 2);
    assert forall|u: Ty| signature(u) == signature(t) implies u == t by {
        crate::variant_ty::lemma_signature_injective(u, t);
    }
}

} // verus!

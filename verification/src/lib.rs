//! A codec between a generic structured-value model and the variant format.
//!
//! A value of the generic model ([`datum::Datum`]) is encoded to a value of
//! the variant format ([`variant::Variant`]) under an optional expected type
//! ([`variant_ty::VariantTy`]), and read back by the requests that the
//! generic model makes. The main interface is [`to_variant`] and
//! [`from_variant`].

pub mod any_variant;
pub mod canonical;
pub mod datum;
pub mod error;
pub mod pretty;
pub mod round_trip;
pub mod serialized;
pub mod traits;
pub mod util;
pub mod variant;
pub mod variant_dict;
pub mod variant_ty;
pub mod variant_type;
pub mod well_formed;
pub mod wire;

pub use crate::any_variant::AnyVariant;
pub use crate::error::Error;
pub use crate::variant_dict::VariantDict;

use crate::any_variant::deserializer::{decode_any, reading, Deserializer};
use crate::any_variant::serializer::{encode, outcome, Serializer};
use crate::datum::Datum;
use crate::variant::Variant;
use vstd::prelude::*;

verus! {

/// Encodes `value` with full inference, in human-readable mode.
pub fn to_variant(value: &Datum) -> (r: Result<Variant, Error>)
    ensures
        outcome(r) == encode(value@, None, true),
{
    value.serialize(&Serializer::default())
}

/// Reads `variant` as the generic model sees it where nothing in particular
/// is asked of it.
pub fn from_variant(variant: &Variant) -> (r: Result<Datum, Error>)
    ensures
        reading(r) == decode_any(variant@),
{
    Deserializer::new(variant).decode()
}

} // verus!

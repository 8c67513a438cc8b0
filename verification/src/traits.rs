//! Extension traits for values and for what converts to and from them.

use crate::any_variant::deserializer::{decode_any, Deserializer, Source};
use crate::any_variant::serializer::encode;
use crate::any_variant::AnyVariant;
use crate::datum::{Data, Datum};
use crate::error::Failure;
use crate::variant::{Value, Variant};
use std::borrow::Cow;
use vstd::prelude::*;

verus! {

/// What stands for a value of the variant format and can hand it to the codec.
pub trait GlibVariantExt {
    /// The value that this stands for.
    spec fn value(&self) -> Value;

    /// The dynamic value, which converts by its own shape.
    fn as_serializable(&self) -> (r: AnyVariant<'_>)
        ensures
            r@ == self.value(),
    ;

    /// The decoder of the value, in human-readable mode.
    fn into_deserializer(&self) -> (r: Deserializer<'_>)
        ensures
            r@ == (Source { value: self.value(), human: true }),
    ;
}

impl GlibVariantExt for Variant {
    open spec fn value(&self) -> Value {
        self@
    }

    fn as_serializable(&self) -> (r: AnyVariant<'_>) {
        AnyVariant::borrow(self)
    }

    fn into_deserializer(&self) -> (r: Deserializer<'_>) {
        Deserializer::new(self)
    }
}

/// What wraps a value of the variant format, owned or borrowed.
pub trait GlibVariantWrapper<'v>: Sized {
    /// The value that is wrapped.
    spec fn wrapped(&self) -> Value;

    fn variant_ref(&self) -> (r: &Variant)
        ensures
            r@ == self.wrapped(),
    ;

    /// The value itself; a copy of it where it was borrowed.
    fn into_variant(self) -> (r: Variant)
        ensures
            r@ == self.wrapped(),
    ;

    /// The value as it is held, owned or borrowed.
    fn variant_cow(self) -> (r: Cow<'v, Variant>)
        ensures
            r@ == self.wrapped(),
    ;
}

impl GlibVariantWrapper<'static> for Variant {
    open spec fn wrapped(&self) -> Value {
        self@
    }

    fn variant_ref(&self) -> (r: &Variant) {
        self
    }

    fn into_variant(self) -> (r: Variant) {
        self
    }

    fn variant_cow(self) -> (r: Cow<'static, Variant>) {
        Cow::Owned(self)
    }
}

impl<'a> GlibVariantWrapper<'a> for Cow<'a, Variant> {
    open spec fn wrapped(&self) -> Value {
        self@
    }

    fn variant_ref(&self) -> (r: &Variant) {
        match self {
            Cow::Borrowed(v) => v,
            Cow::Owned(v) => v,
        }
    }

    fn into_variant(self) -> (r: Variant) {
        match self {
            Cow::Borrowed(v) => v.clone(),
            Cow::Owned(v) => v,
        }
    }

    fn variant_cow(self) -> (r: Cow<'a, Variant>) {
        self
    }
}

impl<'a> GlibVariantWrapper<'a> for AnyVariant<'a> {
    open spec fn wrapped(&self) -> Value {
        self@
    }

    fn variant_ref(&self) -> (r: &Variant) {
        self.inner()
    }

    fn into_variant(self) -> (r: Variant) {
        AnyVariant::into_variant(self)
    }

    fn variant_cow(self) -> (r: Cow<'a, Variant>) {
        self.into_inner()
    }
}

/// What encodes itself with full inference.
pub trait ToVariantExt {
    /// Whether the encoding succeeds, and what it then gives.
    spec fn encoded(&self) -> Option<Value>;

    /// The encoding of this value. It must be one that can be encoded.
    fn serialize_to_variant(&self) -> (r: Variant)
        requires
            self.encoded() is Some,
        ensures
            Some(r@) == self.encoded(),
    ;
}

impl ToVariantExt for Datum {
    open spec fn encoded(&self) -> Option<Value> {
        match encode(self@, None, true) {
            Ok(v) => Some(v),
            Err(_) => None,
        }
    }

    fn serialize_to_variant(&self) -> (r: Variant) {
        match crate::to_variant(self) {
            Ok(v) => v,
            Err(_) => Variant::unit(),
        }
    }
}

/// What can be read from a value of the variant format.
pub trait FromVariantExt: Sized {
    /// Whether something is read from `v`.
    spec fn readable(v: Value) -> bool;

    /// Whether `out` is what is read from `v`.
    spec fn reads(v: Value, out: Self) -> bool;

    /// Reads a value; `None` where the reading fails.
    fn deserialize_from_variant(variant: &Variant) -> (r: Option<Self>)
        ensures
            r is Some == Self::readable(variant@),
            r matches Some(out) ==> Self::reads(variant@, out),
    ;
}

impl FromVariantExt for Datum {
    open spec fn readable(v: Value) -> bool {
        decode_any(v) is Ok
    }

    open spec fn reads(v: Value, out: Self) -> bool {
        decode_any(v) == Ok::<Data, Failure>(out@)
    }

    fn deserialize_from_variant(variant: &Variant) -> (r: Option<Self>) {
        match crate::from_variant(variant) {
            Ok(d) => Some(d),
            Err(_) => None,
        }
    }
}

} // verus!

//! The text envelope: a value as one canonical string, in a wrapper that
//! names it.

use crate::datum::{Data, Datum};
use crate::error::{Error, Failure};
use crate::variant_type::{text_in, text_of_datum};
use vstd::prelude::*;

verus! {

/// The name of the wrapper.
pub const NEWTYPE_NAME: &'static str = "glib_serde::PrettyVariant";

/// What the text envelope of `text` presents to the generic model.
pub open spec fn pretty_datum(text: Seq<char>) -> Data {
    Data::Newtype("glib_serde::PrettyVariant"@, Box::new(Data::Str(text)))
}

/// Presents the canonical text of a value to the generic model.
pub fn serialize(text: &str) -> (d: Datum)
    ensures
        d@ == pretty_datum(text@),
{
    proof {
        reveal_with_fuel(Datum::model, 2);
    }
    Datum::Newtype(
        String::from_str("glib_serde::PrettyVariant"),
        Box::new(Datum::Str(String::from_str(text))),
    )
}

/// Reads the canonical text of a value from the generic model. Fails with
/// `WrongShape` where `d` holds no text.
pub fn deserialize(d: &Datum) -> (r: Result<String, Error>)
    ensures
        match text_in(d@) {
            Some(s) => r matches Ok(x) && x@ == s,
            None => r matches Err(e) && e@ == Failure::WrongShape,
        },
{
    match text_of_datum(d) {
        Some(text) => Ok(String::from_str(text)),
        None => Err(Error::WrongShape),
    }
}

/// The text envelope is read back as the text that it was made of.
pub proof fn lemma_pretty_round_trip(text: Seq<char>)
    ensures
        text_in(pretty_datum(text)) == Some(text),
{
    reveal_with_fuel(text_in, 2);
}

} // verus!

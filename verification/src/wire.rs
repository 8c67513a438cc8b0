//! The two wire forms of a value, and the choice between them: canonical
//! text for a human-readable transport, a binary envelope for another. The
//! choice is made per call from the flag of the transport, never from
//! global state.

use crate::datum::{Data, Datum};
use crate::error::{Error, Failure};
use crate::pretty::pretty_datum;
use crate::serialized::{envelope_datum, envelope_in, Envelope, SerializedData};
use crate::variant_type::text_in;
use vstd::prelude::*;

verus! {

/// The form in which a value goes over a transport.
#[derive(Clone, Copy, Debug, PartialEq, Eq, Structural)]
pub enum WireForm {
    Text,
    Binary,
}

/// The form for a transport with the given flag.
pub fn wire_form(human_readable: bool) -> (r: WireForm)
    ensures
        r == (if human_readable {
            WireForm::Text
        } else {
            WireForm::Binary
        }),
{
    if human_readable {
        WireForm::Text
    } else {
        WireForm::Binary
    }
}

/// Mathematical model of a [`Wire`].
pub enum WireModel {
    Text(Seq<char>),
    Binary(Envelope),
}

/// A value in one of its wire forms.
#[derive(Debug, PartialEq, Eq)]
pub enum Wire {
    /// The canonical text of the value.
    Text(String),
    /// The binary envelope of the value.
    Binary(SerializedData),
}

impl View for Wire {
    type V = WireModel;

    open spec fn view(&self) -> WireModel {
        match self {
            Wire::Text(s) => WireModel::Text(s@),
            Wire::Binary(e) => WireModel::Binary(e@),
        }
    }
}

/// What a wire form presents to the generic model.
pub open spec fn wire_datum(w: WireModel) -> Data {
    match w {
        WireModel::Text(s) => pretty_datum(s),
        WireModel::Binary(e) => envelope_datum(e),
    }
}

/// The wire form that a value of the generic model holds, for a transport
/// with the given flag.
pub open spec fn wire_in(human_readable: bool, d: Data) -> Result<WireModel, Failure> {
    if human_readable {
        match text_in(d) {
            Some(s) => Ok(WireModel::Text(s)),
            None => Err(Failure::WrongShape),
        }
    } else {
        match envelope_in(d) {
            Ok(e) => Ok(WireModel::Binary(e)),
            Err(f) => Err(f),
        }
    }
}

/// Presents a wire form to the generic model.
pub fn serialize(wire: &Wire) -> (d: Datum)
    ensures
        d@ == wire_datum(wire@),
{
    match wire {
        Wire::Text(s) => crate::pretty::serialize(s.as_str()),
        Wire::Binary(e) => crate::serialized::serialize(e),
    }
}

/// Reads a wire form from the generic model: text from a human-readable
/// transport, a binary envelope from another.
pub fn deserialize(human_readable: bool, d: &Datum) -> (r: Result<Wire, Error>)
    ensures
        match wire_in(human_readable, d@) {
            Ok(w) => r matches Ok(x) && x@ == w,
            Err(f) => r matches Err(x) && x@ == f,
        },
{
    match wire_form(human_readable) {
        WireForm::Text => match crate::pretty::deserialize(d) {
            Ok(s) => Ok(Wire::Text(s)),
            Err(e) => Err(e),
        },
        WireForm::Binary => match crate::serialized::deserialize(d) {
            Ok(e) => Ok(Wire::Binary(e)),
            Err(e) => Err(e),
        },
    }
}

/// A wire form that goes over a transport is read back as itself from a
/// transport with the flag that it was chosen for.
pub proof fn lemma_wire_round_trip(w: WireModel)
    ensures
        wire_in(w is Text, wire_datum(w)) == Ok::<WireModel, Failure>(w),
{
    match w {
        WireModel::Text(s) => {
            crate::pretty::lemma_pretty_round_trip(s);
        },
        WireModel::Binary(e) => {
            crate::serialized::lemma_envelope_round_trip(e);
        },
    }
}

} // verus!

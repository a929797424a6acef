//! The faults the translation engine reports. Reading input bytes and
//! writing output are the application's business, so their failures are not
//! represented here.

use vstd::prelude::*;

verus! {

/// A fault found while translating an interface description.
#[derive(Debug)]
pub enum Error {
    /// An ABI item misses a required field, or the field has the wrong
    /// shape: the item's position in the input array and the field.
    MalformedAbi { item: usize, field: String },
    /// A semantic fault in Ink metadata, described in words.
    Metadata(String),
    /// A Solidity type string the type grammar rejects: the raw text, the
    /// ABI item it stands in and the position of the parameter.
    AbiTypeParse { raw: String, item: usize, index: usize },
    /// A circular chain of type references, in the order it was walked.
    CyclicType { ids: Vec<u32> },
}

/// The mathematical shape of an `Error`.
pub enum ErrorV {
    MalformedAbi { item: int, field: Seq<char> },
    Metadata(Seq<char>),
    AbiTypeParse { raw: Seq<char>, item: int, index: int },
    CyclicType { ids: Seq<u32> },
}

impl View for Error {
    type V = ErrorV;

    open spec fn view(&self) -> ErrorV {
        match *self {
            Error::MalformedAbi { item, field } => ErrorV::MalformedAbi {
                item: item as int,
                field: field@,
            },
            Error::Metadata(detail) => ErrorV::Metadata(detail@),
            Error::AbiTypeParse { raw, item, index } => ErrorV::AbiTypeParse {
                raw: raw@,
                item: item as int,
                index: index as int,
            },
            Error::CyclicType { ids } => ErrorV::CyclicType { ids: ids@ },
        }
    }
}

} // verus!

use vstd::prelude::*;

verus! {

/// Why a claim set could not be decoded or encoded.
#[derive(Debug, Clone, Copy, PartialEq, Eq, Structural)]
pub enum Error {
    /// The text is not base64, or the bytes it stands for are not UTF-8.
    Encoding,
    /// The text is not JSON that the reader takes, or its top-level value is
    /// not an object.
    Format,
    /// A registered claim is present with a value of the wrong type.
    Decode,
    /// The JSON writer failed to produce text. The writer that the library
    /// calls fails on no claim set, so no function returns this today.
    Serialization,
}

} // verus!

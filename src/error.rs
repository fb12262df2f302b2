use vstd::prelude::*;

verus! {

/// Why a file could not be converted.
#[derive(Copy, Clone, Debug, PartialEq, Eq, Structural)]
pub enum Error {
    /// The file is not a PNG this library can read, or its frames are malformed.
    Unsupported,
    /// The image is not 8-bit RGBA with alpha.
    UnsupportedColorMode,
    /// The quantizer refused its parameters or failed to build a palette.
    Quantization,
}

impl Error {
    /// The name under which the error is reported.
    pub fn as_str(&self) -> (r: &'static str)
        ensures
            *self == Error::Unsupported ==> r@ == "UNSUPPORTED"@,
            *self == Error::UnsupportedColorMode ==> r@ == "Unsupported_Color_Mode"@,
            *self == Error::Quantization ==> r@ == "Quantization_Failed"@,
    {
        match self {
            Error::Unsupported => "UNSUPPORTED",
            Error::UnsupportedColorMode => "Unsupported_Color_Mode",
            Error::Quantization => "Quantization_Failed",
        }
    }
}

} // verus!

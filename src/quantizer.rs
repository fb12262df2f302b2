//! The colour quantizer: declarations of imagequant's types and the calls
//! into it that the transcoding steps make.
use vstd::prelude::*;
use crate::pngquant::{Remapped, Rgba};

verus! {

#[verifier::external_type_specification]
#[verifier::external_body]
pub struct ExAttributes(imagequant::Attributes);

#[verifier::external_type_specification]
#[verifier::external_body]
pub struct ExImage<'pixels>(imagequant::Image<'pixels>);

#[verifier::external_type_specification]
#[verifier::external_body]
pub struct ExHistogram(imagequant::Histogram);

#[verifier::external_type_specification]
#[verifier::external_body]
pub struct ExQuantizationResult(imagequant::QuantizationResult);

#[verifier::external_type_specification]
#[verifier::external_body]
pub struct ExLiqError(imagequant::liq_error);

/// imagequant's `Attributes::set_speed` accepts exactly the speeds 1 to 10.
pub assume_specification[ imagequant::Attributes::set_speed ](
    attr: &mut imagequant::Attributes,
    value: i32,
) -> (r: Result<(), imagequant::liq_error>)
    ensures
        r is Ok <==> 1 <= value <= 10,
;

/// imagequant's `Attributes::set_quality` accepts a target of at most 100 that
/// is not below the minimum.
pub assume_specification[ imagequant::Attributes::set_quality ](
    attr: &mut imagequant::Attributes,
    minimum: u8,
    target: u8,
) -> (r: Result<(), imagequant::liq_error>)
    ensures
        r is Ok <==> (target <= 100 && minimum <= target),
;

/// imagequant's `Histogram::new`: an empty histogram for the given settings.
pub assume_specification[ imagequant::Histogram::new ](
    attr: &imagequant::Attributes,
) -> imagequant::Histogram;

/// imagequant's `Histogram::add_image`: counts the image's colours into the histogram.
pub assume_specification[ imagequant::Histogram::add_image ](
    hist: &mut imagequant::Histogram,
    attr: &imagequant::Attributes,
    image: &mut imagequant::Image,
) -> Result<(), imagequant::liq_error>;

/// imagequant's `Histogram::quantize`: one palette for every image counted so far.
pub assume_specification[ imagequant::Histogram::quantize ](
    hist: &mut imagequant::Histogram,
    attr: &imagequant::Attributes,
) -> Result<imagequant::QuantizationResult, imagequant::liq_error>;

/// imagequant's `Attributes::quantize`: a palette for a single image.
pub assume_specification[ imagequant::Attributes::quantize ](
    attr: &imagequant::Attributes,
    image: &mut imagequant::Image<'_>,
) -> Result<imagequant::QuantizationResult, imagequant::liq_error>;

/// Relies on imagequant's `QuantizationResult::remapped`: the palette it
/// returns is copied out of a table of at most 256 colours, and the indices
/// are one byte per pixel.
#[verifier::external_body]
pub(crate) fn remapped(
    res: &mut imagequant::QuantizationResult,
    image: &mut imagequant::Image,
) -> (r: Result<Remapped, imagequant::liq_error>)
    ensures
        r is Ok ==> r->Ok_0.palette@.len() <= 256,
{
    let (palette, indices) = res.remapped(image)?;
    let palette = palette.into_iter().map(|c| Rgba { r: c.r, g: c.g, b: c.b, a: c.a }).collect();
    Ok(Remapped { palette, indices })
}

} // verus!

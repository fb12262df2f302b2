//! Per-file transcoding: from a decoded RGBA image or animation to the
//! palette-indexed image that replaces it.
use vstd::prelude::*;
use crate::error::Error;
use crate::frame::{BlendOp, DisposeOp, Frame};
use crate::quantizer::remapped;

verus! {

/// Quality target used when no maximum is given.
pub const DEFAULT_QUALITY_MAX: u8 = 60;

/// Colour layout of a decoded PNG.
#[derive(Copy, Clone, Debug, PartialEq, Eq, Structural)]
pub enum ColorType {
    Grayscale,
    Rgb,
    Indexed,
    GrayscaleAlpha,
    Rgba,
}

/// Number of frames and of plays (0: forever) of an animation.
#[derive(Copy, Clone, Debug, PartialEq, Eq, Structural)]
pub struct AnimationControl {
    pub num_frames: u32,
    pub num_plays: u32,
}

/// Placement, timing and compositing of one animation frame.
#[derive(Copy, Clone, Debug, PartialEq, Eq, Structural)]
pub struct FrameControl {
    pub width: u32,
    pub height: u32,
    pub x_offset: u32,
    pub y_offset: u32,
    pub delay_num: u16,
    pub delay_den: u16,
    pub dispose_op: DisposeOp,
    pub blend_op: BlendOp,
}

/// The header of a decoded PNG.
#[derive(Copy, Clone, Debug, PartialEq, Eq, Structural)]
pub struct ImageInfo {
    pub width: u32,
    pub height: u32,
    pub color_type: ColorType,
    /// Present for an animated PNG.
    pub animation: Option<AnimationControl>,
}

/// One image read from a PNG, in file order, with the frame control that was
/// in force when it was read (none for a default image outside the animation).
#[derive(Debug)]
pub struct DecodedFrame {
    pub data: Vec<u8>,
    pub control: Option<FrameControl>,
}

/// An RGBA colour.
#[derive(Copy, Clone, Debug, PartialEq, Eq, Structural)]
pub struct Rgba {
    pub r: u8,
    pub g: u8,
    pub b: u8,
    pub a: u8,
}

/// What the quantizer made of one frame: a palette and one index per pixel.
#[derive(Debug)]
pub struct Remapped {
    pub palette: Vec<Rgba>,
    pub indices: Vec<u8>,
}

/// One frame of the indexed output.
#[derive(Debug)]
pub struct IndexedFrame {
    pub control: FrameControl,
    pub indices: Vec<u8>,
}

/// The palette-indexed image to be written in place of the source.
#[derive(Debug)]
pub struct IndexedPng {
    pub width: u32,
    pub height: u32,
    /// Three bytes (R, G, B) per palette entry.
    pub palette: Vec<u8>,
    /// One alpha byte per palette entry.
    pub trns: Vec<u8>,
    /// Present, and equal to the source's, for an animation.
    pub animation: Option<AnimationControl>,
    pub frames: Vec<IndexedFrame>,
}

/// A call into the quantizer, as the library records it.
#[derive(Copy, Clone, Debug, PartialEq, Eq, Structural)]
pub enum QuantCall {
    /// `Attributes::set_speed` with this speed.
    SetSpeed(u8),
    /// `Attributes::set_quality` with this minimum and target.
    SetQuality(u8, u8),
    /// `Histogram::add_image` on the image of this frame.
    Count(usize),
    /// `Histogram::quantize` on everything counted so far.
    QuantizeHistogram,
    /// `Attributes::quantize` on the image of this frame alone.
    QuantizeImage(usize),
    /// `QuantizationResult::remapped` on the image of this frame.
    Remap(usize),
}

/// The quantizer's settings and the record of the calls made on them.
pub struct Quantizer {
    pub attr: imagequant::Attributes,
    pub calls: Ghost<Seq<QuantCall>>,
}

impl Quantizer {
    /// Settings on which no call has been made yet.
    pub fn new(attr: imagequant::Attributes) -> (r: Quantizer)
        ensures
            r.calls@ == Seq::<QuantCall>::empty(),
    {
        Quantizer { attr, calls: Ghost(Seq::empty()) }
    }
}

/// A palette built by the quantizer, with the record of the calls that built
/// it and of the remaps made against it since.
pub struct Quantized {
    pub result: imagequant::QuantizationResult,
    pub calls: Ghost<Seq<QuantCall>>,
}

/// The settings calls: the speed, when one is given, then the quality bounds.
pub open spec fn setting_calls(speed: Option<u8>, quality: (u8, u8)) -> Seq<QuantCall> {
    match speed {
        Some(s) => seq![QuantCall::SetSpeed(s), QuantCall::SetQuality(quality.0, quality.1)],
        None => seq![QuantCall::SetQuality(quality.0, quality.1)],
    }
}

/// Counting the images of frames `0..n` into the histogram, in order.
pub open spec fn count_calls(n: nat) -> Seq<QuantCall> {
    Seq::new(n, |k: int| QuantCall::Count(k as usize))
}

/// The calls that build the palette of `n` frames: for an animation every
/// frame counted once into one histogram, then one quantization of it; for a
/// still image one quantization of its single image.
pub open spec fn quantize_calls(animated: bool, n: nat) -> Seq<QuantCall> {
    if animated {
        count_calls(n).push(QuantCall::QuantizeHistogram)
    } else {
        seq![QuantCall::QuantizeImage(0)]
    }
}

/// Remapping the images of frames `0..n`, in order, against one result.
pub open spec fn remap_calls(n: nat) -> Seq<QuantCall> {
    Seq::new(n, |k: int| QuantCall::Remap(k as usize))
}

impl Frame {
    pub open spec fn control(&self) -> FrameControl {
        FrameControl {
            width: self.width,
            height: self.height,
            x_offset: self.x_offset,
            y_offset: self.y_offset,
            delay_num: self.delay_num,
            delay_den: self.delay_den,
            dispose_op: self.dispose_op,
            blend_op: self.blend_op,
        }
    }
}

/// The frame control given to a still image: the whole canvas, shown at once.
pub open spec fn still_control(info: ImageInfo) -> FrameControl {
    FrameControl {
        width: info.width,
        height: info.height,
        x_offset: 0,
        y_offset: 0,
        delay_num: 0,
        delay_den: 1,
        dispose_op: DisposeOp::Keep,
        blend_op: BlendOp::Source,
    }
}

/// The frames of an animation: the decoded images that carry a frame control,
/// in order, as pixel data and control.
pub open spec fn animation_frames(decoded: Seq<DecodedFrame>) -> Seq<(Seq<u8>, FrameControl)>
    decreases decoded.len(),
{
    if decoded.len() == 0 {
        seq![]
    } else {
        let prev = animation_frames(decoded.drop_last());
        match decoded.last().control {
            Some(c) => prev.push((decoded.last().data@, c)),
            None => prev,
        }
    }
}

/// The frames to transcode: every frame of an animation, or the first image of
/// a still PNG over the whole canvas.
pub open spec fn source_frames(info: ImageInfo, decoded: Seq<DecodedFrame>) -> Seq<(Seq<u8>, FrameControl)> {
    if info.animation is Some {
        animation_frames(decoded)
    } else if decoded.len() > 0 {
        seq![(decoded[0].data@, still_control(info))]
    } else {
        seq![]
    }
}

/// An animation keeps as many frames as its animation control announces.
pub open spec fn frame_count_matches(info: ImageInfo, frames: Seq<(Seq<u8>, FrameControl)>) -> bool {
    info.animation matches Some(a) ==> a.num_frames == frames.len()
}

/// Every frame holds four bytes for each of its pixels.
pub open spec fn frames_well_formed(frames: Seq<(Seq<u8>, FrameControl)>) -> bool {
    forall|i: int|
        0 <= i < frames.len() ==> #[trigger] frames[i].0.len() == 4 * (frames[i].1.width as int) * (
        frames[i].1.height as int)
}

/// The quality bounds handed to the quantizer: a missing minimum is 0 and a
/// missing maximum is the default.
pub open spec fn resolved_quality(quality_min: Option<u8>, quality_max: Option<u8>, def_max: u8) -> (u8, u8) {
    (
        match quality_min {
            Some(q) => q,
            None => 0,
        },
        match quality_max {
            Some(q) => q,
            None => def_max,
        },
    )
}

/// The quantizer accepts these settings.
pub open spec fn settings_accepted(speed: Option<u8>, quality: (u8, u8)) -> bool {
    &&& speed matches Some(s) ==> 1 <= s <= 10
    &&& quality.1 <= 100
    &&& quality.0 <= quality.1
}

/// Red, green and blue of each palette entry, in order.
pub open spec fn rgb_of(palette: Seq<Rgba>) -> Seq<u8>
    decreases palette.len(),
{
    if palette.len() == 0 {
        seq![]
    } else {
        let c = palette.last();
        rgb_of(palette.drop_last()) + seq![c.r, c.g, c.b]
    }
}

/// Alpha of each palette entry, in order.
pub open spec fn alpha_of(palette: Seq<Rgba>) -> Seq<u8> {
    palette.map_values(|c: Rgba| c.a)
}

/// The quantizer's output fits the frames: one result per frame, a first
/// palette of at most 256 colours, and for each frame one index per pixel,
/// each naming a colour of that palette.
pub open spec fn remapped_fits(frames: Seq<Frame>, remapped: Seq<Remapped>) -> bool {
    &&& remapped.len() == frames.len()
    &&& remapped.len() > 0
    &&& remapped[0].palette@.len() <= 256
    &&& forall|i: int|
        0 <= i < remapped.len() ==> #[trigger] remapped[i].indices@.len() == (frames[i].width as int) * (
        frames[i].height as int)
    &&& forall|i: int, j: int|
        0 <= i < remapped.len() && 0 <= j < remapped[i].indices@.len() ==> #[trigger] remapped[i].indices@[j]
            < remapped[0].palette@.len()
}

/// `out` is the indexed image for these frames: same canvas and animation,
/// the first palette for every frame, and each frame's control and indices.
pub open spec fn indexed_output(
    width: u32,
    height: u32,
    animation: Option<AnimationControl>,
    frames: Seq<Frame>,
    remapped: Seq<Remapped>,
    out: IndexedPng,
) -> bool {
    &&& out.width == width
    &&& out.height == height
    &&& out.animation == animation
    &&& out.palette@ == rgb_of(remapped[0].palette@)
    &&& out.trns@ == alpha_of(remapped[0].palette@)
    &&& out.frames@.len() == frames.len()
    &&& forall|i: int|
        0 <= i < frames.len() ==> (#[trigger] out.frames@[i]).control == frames[i].control()
            && out.frames@[i].indices@ == remapped[i].indices@
}

/// Splits a palette into the PNG palette (R, G, B per entry) and the
/// transparency table (A per entry).
pub fn palette_to_png(palette: &Vec<Rgba>) -> (r: (Vec<u8>, Vec<u8>))
    ensures
        r.0@ == rgb_of(palette@),
        r.1@ == alpha_of(palette@),
{
    let mut rgb: Vec<u8> = Vec::new();
    let mut trns: Vec<u8> = Vec::new();
    let mut i: usize = 0;
    while i < palette.len()
        invariant
            i <= palette@.len(),
            rgb@ == rgb_of(palette@.subrange(0, i as int)),
            trns@ == alpha_of(palette@.subrange(0, i as int)),
        decreases palette@.len() - i,
    {
        let c = palette[i];
        rgb.push(c.r);
        rgb.push(c.g);
        rgb.push(c.b);
        trns.push(c.a);
        proof {
            let next = palette@.subrange(0, i + 1);
            assert(next.drop_last() =~= palette@.subrange(0, i as int));
            assert(rgb@ =~= rgb_of(next));
            assert(trns@ =~= alpha_of(next));
        }
        i = i + 1;
    }
    proof {
        assert(palette@.subrange(0, palette@.len() as int) =~= palette@);
    }
    (rgb, trns)
}


/// One file on its way through quantization.
pub struct Pngquant {
    /// The work item this file belongs to.
    pub id: usize,
    pub width: u32,
    pub height: u32,
    pub animation: Option<AnimationControl>,
    /// The frames to quantize, in output order.
    pub frames: Vec<Frame>,
    pub speed: Option<u8>,
    pub quality_min: Option<u8>,
    pub quality_max: Option<u8>,
    /// Quality target used when `quality_max` is not given.
    pub def_quality_max: u8,
    /// Size of the source file in bytes.
    pub original_size: Option<u64>,
    /// Size of the written output in bytes, once it is known.
    pub size: Option<u64>,
}

impl Pngquant {
    /// At least one frame, each with four bytes per pixel; a still image has one.
    pub open spec fn wf(&self) -> bool {
        &&& self.frames@.len() > 0
        &&& self.animation is None ==> self.frames@.len() == 1
        &&& forall|i: int| 0 <= i < self.frames@.len() ==> (#[trigger] self.frames@[i]).well_formed()
    }

    /// Built from this decoded PNG: same canvas and animation, and the frames
    /// that `source_frames` selects.
    pub open spec fn made_from(&self, info: ImageInfo, decoded: Seq<DecodedFrame>) -> bool {
        &&& self.wf()
        &&& self.frame_seq() == source_frames(info, decoded)
        &&& frame_count_matches(info, source_frames(info, decoded))
        &&& self.width == info.width
        &&& self.height == info.height
        &&& self.animation == info.animation
    }

    /// The frames as pixel data and frame control.
    pub open spec fn frame_seq(&self) -> Seq<(Seq<u8>, FrameControl)> {
        self.frames@.map_values(|f: Frame| (f.data@, f.control()))
    }

    /// Takes a decoded PNG for transcoding. Anything but RGBA is refused with
    /// `UnsupportedColorMode`; a PNG with no frame to transcode, with a frame
    /// whose data does not hold four bytes per pixel, or an animation with
    /// another number of frames than its control announces, with `Unsupported`.
    pub fn new(
        id: usize,
        original_size: u64,
        info: ImageInfo,
        decoded: Vec<DecodedFrame>,
        speed: Option<u8>,
        quality_min: Option<u8>,
        quality_max: Option<u8>,
    ) -> (r: Result<Pngquant, Error>)
        ensures
            info.color_type != ColorType::Rgba ==> r == Err::<Pngquant, Error>(
                Error::UnsupportedColorMode,
            ),
            info.color_type == ColorType::Rgba ==> {
                let src = source_frames(info, decoded@);
                if src.len() > 0 && frames_well_formed(src) && frame_count_matches(info, src) {
                    &&& r is Ok
                    &&& r->Ok_0.made_from(info, decoded@)
                    &&& r->Ok_0.id == id
                    &&& r->Ok_0.speed == speed
                    &&& r->Ok_0.quality_min == quality_min
                    &&& r->Ok_0.quality_max == quality_max
                    &&& r->Ok_0.def_quality_max == DEFAULT_QUALITY_MAX
                    &&& r->Ok_0.original_size == Some(original_size)
                    &&& r->Ok_0.size is None
                } else {
                    r == Err::<Pngquant, Error>(Error::Unsupported)
                }
            },
    {
        if info.color_type != ColorType::Rgba {
            return Err(Error::UnsupportedColorMode);
        }
        let frames = if info.animation.is_some() {
            Self::decoder_rgba_apng(decoded)
        } else {
            Self::decoder_rgba_png(info, decoded)
        };
        if frames.len() == 0 {
            return Err(Error::Unsupported);
        }
        if let Some(a) = info.animation {
            if a.num_frames as u64 != frames.len() as u64 {
                return Err(Error::Unsupported);
            }
        }
        let mut i: usize = 0;
        while i < frames.len()
            invariant
                i <= frames@.len(),
                info.color_type == ColorType::Rgba,
                frames@.map_values(|f: Frame| (f.data@, f.control())) == source_frames(info, decoded@),
                forall|k: int| 0 <= k < i ==> (#[trigger] frames@[k]).well_formed(),
            decreases frames@.len() - i,
        {
            let f = &frames[i];
            assert((f.width as u64) * (f.height as u64) <= u32::MAX as u64 * u32::MAX as u64) by (nonlinear_arith)
                requires
                    f.width <= u32::MAX,
                    f.height <= u32::MAX,
            ;
            let pixels: u64 = f.width as u64 * f.height as u64;
            let dlen = f.data.len();
            if pixels > (usize::MAX / 4) as u64 || dlen != 4 * (pixels as usize) {
                assert(f.data@.len() != 4 * (f.width as int) * (f.height as int)) by (nonlinear_arith)
                    requires
                        pixels as int == (f.width as int) * (f.height as int),
                        pixels > (usize::MAX / 4) as u64 || f.data@.len() != 4 * (pixels as int),
                        f.data@.len() == dlen,
                ;
                proof {
                    let src = source_frames(info, decoded@);
                    assert(frames@.map_values(|f: Frame| (f.data@, f.control()))[i as int] == src[i as int]);
                    assert(src[i as int].0.len() != 4 * (src[i as int].1.width as int) * (
                    src[i as int].1.height as int));
                    assert(!frames_well_formed(src));
                }
                return Err(Error::Unsupported);
            }
            assert(f.data@.len() == 4 * (f.width as int) * (f.height as int)) by (nonlinear_arith)
                requires
                    f.data@.len() == 4 * (pixels as int),
                    pixels as int == (f.width as int) * (f.height as int),
            ;
            i = i + 1;
        }
        proof {
            let src = source_frames(info, decoded@);
            assert forall|k: int| 0 <= k < src.len() implies #[trigger] src[k].0.len() == 4 * (
            src[k].1.width as int) * (src[k].1.height as int) by {
                assert(frames@.map_values(|f: Frame| (f.data@, f.control()))[k] == src[k]);
                assert(frames@[k].well_formed());
            }
        }
        Ok(Pngquant {
            id,
            width: info.width,
            height: info.height,
            animation: info.animation,
            frames,
            speed,
            quality_min,
            quality_max,
            def_quality_max: DEFAULT_QUALITY_MAX,
            original_size: Some(original_size),
            size: None,
        })
    }

    /// The quality bounds handed to the quantizer.
    pub fn quality_bounds(&self) -> (r: (u8, u8))
        ensures
            r == resolved_quality(self.quality_min, self.quality_max, self.def_quality_max),
    {
        let minimum = match self.quality_min {
            Some(q) => q,
            None => 0,
        };
        let target = match self.quality_max {
            Some(q) => q,
            None => self.def_quality_max,
        };
        (minimum, target)
    }

    /// Applies the speed, when one is given, and then the quality bounds to
    /// the quantizer's settings, and records both calls. Fails with
    /// `Quantization` exactly when the quantizer refuses one of them.
    pub fn configure(&self, q: &mut Quantizer) -> (r: Result<(), Error>)
        ensures
            r is Ok <==> settings_accepted(
                self.speed,
                resolved_quality(self.quality_min, self.quality_max, self.def_quality_max),
            ),
            r is Err ==> r == Err::<(), Error>(Error::Quantization),
            r is Ok ==> final(q).calls@ == old(q).calls@ + setting_calls(
                self.speed,
                resolved_quality(self.quality_min, self.quality_max, self.def_quality_max),
            ),
    {
        if let Some(speed) = self.speed {
            if q.attr.set_speed(speed as i32).is_err() {
                return Err(Error::Quantization);
            }
            proof {
                q.calls = Ghost(q.calls@.push(QuantCall::SetSpeed(speed)));
            }
        }
        let (minimum, target) = self.quality_bounds();
        match q.attr.set_quality(minimum, target) {
            Ok(()) => {
                proof {
                    q.calls = Ghost(q.calls@.push(QuantCall::SetQuality(minimum, target)));
                    assert(q.calls@ =~= old(q).calls@ + setting_calls(self.speed, (minimum, target)));
                }
                Ok(())
            },
            Err(_) => Err(Error::Quantization),
        }
    }

    /// Builds the palette. An animation's frames, one image each in `images`,
    /// are each counted once, in order, into one histogram, which is then
    /// quantized once, so that every frame shares the palette; a still image
    /// is quantized on its own. The result carries the record of the calls.
    pub fn quantize<'p>(
        &self,
        q: &Quantizer,
        images: &mut Vec<imagequant::Image<'p>>,
    ) -> (r: Result<Quantized, Error>)
        requires
            self.wf(),
            old(images)@.len() == self.frames@.len(),
        ensures
            final(images)@.len() == old(images)@.len(),
            r is Err ==> r == Err::<Quantized, Error>(Error::Quantization),
            r is Ok ==> r->Ok_0.calls@ == q.calls@ + quantize_calls(
                self.animation is Some,
                self.frames@.len(),
            ),
    {
        if self.animation.is_some() {
            let mut histogram = imagequant::Histogram::new(&q.attr);
            let ghost mut calls = q.calls@;
            let mut i: usize = 0;
            while i < images.len()
                invariant
                    i <= images@.len(),
                    images@.len() == old(images)@.len(),
                    calls == q.calls@ + count_calls(i as nat),
                decreases images@.len() - i,
            {
                if histogram.add_image(&q.attr, &mut images[i]).is_err() {
                    return Err(Error::Quantization);
                }
                proof {
                    calls = calls.push(QuantCall::Count(i));
                    assert(calls =~= q.calls@ + count_calls((i + 1) as nat));
                }
                i = i + 1;
            }
            proof {
                assert(calls.push(QuantCall::QuantizeHistogram) =~= q.calls@ + quantize_calls(
                    true,
                    self.frames@.len(),
                ));
            }
            match histogram.quantize(&q.attr) {
                Ok(result) => Ok(Quantized { result, calls: Ghost(calls.push(QuantCall::QuantizeHistogram)) }),
                Err(_) => Err(Error::Quantization),
            }
        } else {
            proof {
                assert(q.calls@.push(QuantCall::QuantizeImage(0)) =~= q.calls@ + quantize_calls(
                    false,
                    self.frames@.len(),
                ));
            }
            match q.attr.quantize(&mut images[0]) {
                Ok(result) => Ok(Quantized { result, calls: Ghost(q.calls@.push(QuantCall::QuantizeImage(0))) }),
                Err(_) => Err(Error::Quantization),
            }
        }
    }

    /// Maps every frame's image, in order, to indices into the palette of the
    /// one quantization result in `q`; result `k` comes from `images[k]`, and
    /// each remap is recorded after the calls that made the result.
    pub fn remap<'p>(
        &self,
        q: &mut Quantized,
        images: &mut Vec<imagequant::Image<'p>>,
    ) -> (r: Result<Vec<Remapped>, Error>)
        requires
            old(images)@.len() == self.frames@.len(),
        ensures
            final(images)@.len() == old(images)@.len(),
            r is Err ==> r == Err::<Vec<Remapped>, Error>(Error::Quantization),
            r is Ok ==> r->Ok_0@.len() == old(images)@.len(),
            r is Ok ==> final(q).calls@ == old(q).calls@ + remap_calls(old(images)@.len()),
            r is Ok ==> forall|i: int|
                0 <= i < r->Ok_0@.len() ==> (#[trigger] r->Ok_0@[i]).palette@.len() <= 256,
    {
        let mut out: Vec<Remapped> = Vec::new();
        let mut i: usize = 0;
        while i < images.len()
            invariant
                i <= images@.len(),
                images@.len() == old(images)@.len(),
                out@.len() == i,
                q.calls@ == old(q).calls@ + remap_calls(i as nat),
                forall|k: int| 0 <= k < i ==> (#[trigger] out@[k]).palette@.len() <= 256,
            decreases images@.len() - i,
        {
            match remapped(&mut q.result, &mut images[i]) {
                Ok(m) => out.push(m),
                Err(_) => {
                    return Err(Error::Quantization);
                },
            }
            proof {
                q.calls = Ghost(q.calls@.push(QuantCall::Remap(i)));
                assert(q.calls@ =~= old(q).calls@ + remap_calls((i + 1) as nat));
            }
            i = i + 1;
        }
        Ok(out)
    }

    /// Assembles the indexed image: the palette of the first frame, which all
    /// frames share, split into colour and transparency tables, and each
    /// frame's indices under its own frame control. Fails with `Quantization`
    /// exactly when `remapped` does not fit the frames.
    pub fn encoder(&self, remapped: Vec<Remapped>) -> (r: Result<IndexedPng, Error>)
        ensures
            r is Ok <==> remapped_fits(self.frames@, remapped@),
            r is Err ==> r == Err::<IndexedPng, Error>(Error::Quantization),
            r is Ok ==> indexed_output(
                self.width,
                self.height,
                self.animation,
                self.frames@,
                remapped@,
                r->Ok_0,
            ),
    {
        let n = remapped.len();
        if n != self.frames.len() || n == 0 {
            return Err(Error::Quantization);
        }
        let colors = remapped[0].palette.len();
        if colors > 256 {
            return Err(Error::Quantization);
        }
        let mut i: usize = 0;
        while i < n
            invariant
                n == remapped@.len(),
                n == self.frames@.len(),
                n > 0,
                colors == remapped@[0].palette@.len(),
                i <= n,
                forall|k: int|
                    0 <= k < i ==> #[trigger] remapped@[k].indices@.len() == (
                    self.frames@[k].width as int) * (self.frames@[k].height as int),
                forall|k: int, j: int|
                    0 <= k < i && 0 <= j < remapped@[k].indices@.len() ==> #[trigger] remapped@[k].indices@[j]
                        < colors,
            decreases n - i,
        {
            let indices = &remapped[i].indices;
            let f = &self.frames[i];
            assert((f.width as u64) * (f.height as u64) <= u32::MAX as u64 * u32::MAX as u64) by (nonlinear_arith)
                requires
                    f.width <= u32::MAX,
                    f.height <= u32::MAX,
            ;
            if indices.len() as u64 != f.width as u64 * f.height as u64 {
                assert(remapped@[i as int].indices@.len() != (self.frames@[i as int].width as int) * (
                self.frames@[i as int].height as int));
                return Err(Error::Quantization);
            }
            let mut j: usize = 0;
            while j < indices.len()
                invariant
                    j <= indices@.len(),
                    i < n,
                    n == remapped@.len(),
                    n == self.frames@.len(),
                    colors == remapped@[0].palette@.len(),
                    indices@ == remapped@[i as int].indices@,
                    forall|jj: int| 0 <= jj < j ==> #[trigger] indices@[jj] < colors,
                decreases indices@.len() - j,
            {
                if indices[j] as usize >= colors {
                    assert(remapped@[i as int].indices@[j as int] >= colors);
                    return Err(Error::Quantization);
                }
                j = j + 1;
            }
            assert forall|k: int, jj: int|
                0 <= k < i + 1 && 0 <= jj < remapped@[k].indices@.len() implies #[trigger] remapped@[k].indices@[jj]
                < colors by {
                if k == i {
                    assert(indices@[jj] < colors);
                }
            }
            i = i + 1;
        }
        let (palette, trns) = palette_to_png(&remapped[0].palette);
        let ghost all = remapped@;
        let mut rest = remapped;
        let mut frames: Vec<IndexedFrame> = Vec::new();
        let mut k: usize = 0;
        while k < n
            invariant
                n == all.len(),
                n == self.frames@.len(),
                k <= n,
                rest@ == all.subrange(k as int, n as int),
                frames@.len() == k,
                forall|m: int|
                    0 <= m < k ==> (#[trigger] frames@[m]).control == self.frames@[m].control()
                        && frames@[m].indices@ == all[m].indices@,
            decreases n - k,
        {
            let m = rest.remove(0);
            assert(m == all[k as int]);
            let f = &self.frames[k];
            let control = FrameControl {
                width: f.width,
                height: f.height,
                x_offset: f.x_offset,
                y_offset: f.y_offset,
                delay_num: f.delay_num,
                delay_den: f.delay_den,
                dispose_op: f.dispose_op,
                blend_op: f.blend_op,
            };
            frames.push(IndexedFrame { control, indices: m.indices });
            k = k + 1;
        }
        Ok(IndexedPng {
            width: self.width,
            height: self.height,
            palette,
            trns,
            animation: self.animation,
            frames,
        })
    }

    /// Records the size of the written output.
    pub fn set_size(&mut self, size: u64)
        ensures
            final(self).size == Some(size),
            final(self).id == old(self).id,
            final(self).width == old(self).width,
            final(self).height == old(self).height,
            final(self).animation == old(self).animation,
            final(self).frames == old(self).frames,
            final(self).speed == old(self).speed,
            final(self).quality_min == old(self).quality_min,
            final(self).quality_max == old(self).quality_max,
            final(self).def_quality_max == old(self).def_quality_max,
            final(self).original_size == old(self).original_size,
    {
        self.size = Some(size);
    }

    /// The one frame of a still image: its first decoded image over the whole canvas.
    fn decoder_rgba_png(info: ImageInfo, decoded: Vec<DecodedFrame>) -> (r: Vec<Frame>)
        requires
            info.animation is None,
        ensures
            r@.map_values(|f: Frame| (f.data@, f.control())) == source_frames(info, decoded@),
    {
        let ghost all = decoded@;
        let mut decoded = decoded;
        let mut frames: Vec<Frame> = Vec::new();
        if decoded.len() > 0 {
            let first = decoded.remove(0);
            frames.push(
                Frame::new(
                    first.data,
                    info.width,
                    info.height,
                    0,
                    0,
                    0,
                    1,
                    DisposeOp::Keep,
                    BlendOp::Source,
                ),
            );
            assert(frames@.map_values(|f: Frame| (f.data@, f.control())) =~= source_frames(info, all));
        } else {
            assert(frames@.map_values(|f: Frame| (f.data@, f.control())) =~= source_frames(info, all));
        }
        frames
    }

    /// The frames of an animation: every decoded image that carries a frame
    /// control, in order.
    fn decoder_rgba_apng(decoded: Vec<DecodedFrame>) -> (r: Vec<Frame>)
        ensures
            r@.map_values(|f: Frame| (f.data@, f.control())) == animation_frames(decoded@),
    {
        let ghost all = decoded@;
        let mut rest = decoded;
        let mut frames: Vec<Frame> = Vec::new();
        let n = rest.len();
        let mut k: usize = 0;
        while k < n
            invariant
                n == all.len(),
                k <= n,
                rest@ == all.subrange(k as int, n as int),
                frames@.map_values(|f: Frame| (f.data@, f.control())) == animation_frames(
                    all.subrange(0, k as int),
                ),
            decreases n - k,
        {
            let d = rest.remove(0);
            proof {
                assert(d == all[k as int]);
                assert(all.subrange(0, k + 1).drop_last() =~= all.subrange(0, k as int));
            }
            match d.control {
                Some(c) => {
                    let ghost before = frames@;
                    frames.push(
                        Frame::new(
                            d.data,
                            c.width,
                            c.height,
                            c.x_offset,
                            c.y_offset,
                            c.delay_num,
                            c.delay_den,
                            c.dispose_op,
                            c.blend_op,
                        ),
                    );
                    assert(frames@.map_values(|f: Frame| (f.data@, f.control())) =~= before.map_values(
                        |f: Frame| (f.data@, f.control()),
                    ).push((all[k as int].data@, c)));
                },
                None => {},
            }
            k = k + 1;
        }
        assert(all.subrange(0, n as int) =~= all);
        frames
    }
}


/// The colour table holds three bytes per palette entry.
pub proof fn lemma_rgb_of_len(palette: Seq<Rgba>)
    ensures
        rgb_of(palette).len() == 3 * palette.len(),
    decreases palette.len(),
{
    if palette.len() > 0 {
        lemma_rgb_of_len(palette.drop_last());
    }
}

/// A still RGBA image becomes one indexed frame over the same canvas, with no
/// animation control; its palette has at most 256 entries, given as a colour
/// table and a transparency table of matching length, and each of its pixels
/// is an index into that palette.
pub proof fn lemma_still_image_output(
    info: ImageInfo,
    decoded: Seq<DecodedFrame>,
    p: Pngquant,
    remapped: Seq<Remapped>,
    out: IndexedPng,
)
    requires
        info.animation is None,
        p.made_from(info, decoded),
        remapped_fits(p.frames@, remapped),
        indexed_output(p.width, p.height, p.animation, p.frames@, remapped, out),
    ensures
        out.width == info.width,
        out.height == info.height,
        out.animation is None,
        out.frames@.len() == 1,
        out.trns@.len() <= 256,
        out.palette@.len() == 3 * out.trns@.len(),
        out.frames@[0].indices@.len() == (info.width as int) * (info.height as int),
        forall|j: int|
            0 <= j < out.frames@[0].indices@.len() ==> #[trigger] out.frames@[0].indices@[j] < out.trns@.len(),
{
    lemma_rgb_of_len(remapped[0].palette@);
    assert(p.frame_seq()[0] == (p.frames@[0].data@, p.frames@[0].control()));
    assert(out.frames@[0].control == p.frames@[0].control());
    assert forall|j: int| 0 <= j < out.frames@[0].indices@.len() implies #[trigger] out.frames@[0].indices@[j]
        < out.trns@.len() by {
        assert(remapped[0].indices@[j] < remapped[0].palette@.len());
    }
}

/// An animated RGBA image keeps its animation control (frame count and loop
/// count), holds exactly as many frames as that count, and keeps, in order,
/// every frame with its exact dimensions, offsets, delay,
/// dispose and blend operations; every frame indexes the one shared palette of
/// at most 256 entries.
pub proof fn lemma_animation_output(
    info: ImageInfo,
    decoded: Seq<DecodedFrame>,
    p: Pngquant,
    remapped: Seq<Remapped>,
    out: IndexedPng,
)
    requires
        info.animation is Some,
        p.made_from(info, decoded),
        remapped_fits(p.frames@, remapped),
        indexed_output(p.width, p.height, p.animation, p.frames@, remapped, out),
    ensures
        out.animation == info.animation,
        out.frames@.len() == animation_frames(decoded).len(),
        out.frames@.len() == info.animation->Some_0.num_frames,
        forall|i: int|
            0 <= i < out.frames@.len() ==> (#[trigger] out.frames@[i]).control == animation_frames(
                decoded,
            )[i].1,
        out.trns@.len() <= 256,
        out.palette@.len() == 3 * out.trns@.len(),
        forall|i: int, j: int|
            0 <= i < out.frames@.len() && 0 <= j < out.frames@[i].indices@.len() ==> #[trigger] out.frames@[i].indices@[j]
                < out.trns@.len(),
{
    lemma_rgb_of_len(remapped[0].palette@);
    assert forall|i: int| 0 <= i < out.frames@.len() implies (#[trigger] out.frames@[i]).control
        == animation_frames(decoded)[i].1 by {
        assert(p.frame_seq()[i] == (p.frames@[i].data@, p.frames@[i].control()));
    }
    assert forall|i: int, j: int|
        0 <= i < out.frames@.len() && 0 <= j < out.frames@[i].indices@.len() implies #[trigger] out.frames@[i].indices@[j]
        < out.trns@.len() by {
        assert(remapped[i].indices@[j] < remapped[0].palette@.len());
    }
}


/// Configuring fresh settings, building the palette and remapping an
/// animation leave this record: the settings calls with the resolved speed and
/// bounds; then each frame counted once, in order, into one histogram; then
/// one quantization of that histogram and no other; then each frame remapped
/// once, in order, against that one result.
pub proof fn lemma_animation_calls(p: Pngquant, q0: Quantizer, q1: Quantizer, built: Quantized, done: Quantized)
    requires
        p.wf(),
        p.animation is Some,
        q0.calls@ == Seq::<QuantCall>::empty(),
        q1.calls@ == q0.calls@ + setting_calls(
            p.speed,
            resolved_quality(p.quality_min, p.quality_max, p.def_quality_max),
        ),
        built.calls@ == q1.calls@ + quantize_calls(true, p.frames@.len()),
        done.calls@ == built.calls@ + remap_calls(p.frames@.len()),
    ensures
        ({
            let settings = setting_calls(
                p.speed,
                resolved_quality(p.quality_min, p.quality_max, p.def_quality_max),
            );
            let (c, off, n) = (done.calls@, settings.len() as int, p.frames@.len() as int);
            &&& c.subrange(0, off) == settings
            &&& c.len() == off + 2 * n + 1
            &&& forall|k: int| 0 <= k < n ==> #[trigger] c[off + k] == QuantCall::Count(k as usize)
            &&& c[off + n] == QuantCall::QuantizeHistogram
            &&& forall|k: int| 0 <= k < n ==> #[trigger] c[off + n + 1 + k] == QuantCall::Remap(k as usize)
            &&& forall|i: int|
                0 <= i < c.len() && #[trigger] c[i] == QuantCall::QuantizeHistogram ==> i == off + n
            &&& forall|i: int| 0 <= i < c.len() ==> !(#[trigger] c[i] is QuantizeImage)
        }),
{
    let settings = setting_calls(p.speed, resolved_quality(p.quality_min, p.quality_max, p.def_quality_max));
    let (c, off, n) = (done.calls@, settings.len() as int, p.frames@.len() as int);
    assert(c =~= settings + count_calls(n as nat).push(QuantCall::QuantizeHistogram) + remap_calls(n as nat));
    assert(c.subrange(0, off) =~= settings);
    assert forall|k: int| 0 <= k < n implies #[trigger] c[off + k] == QuantCall::Count(k as usize) by {
        assert(count_calls(n as nat)[k] == QuantCall::Count(k as usize));
    }
    assert forall|k: int| 0 <= k < n implies #[trigger] c[off + n + 1 + k] == QuantCall::Remap(k as usize) by {
        assert(remap_calls(n as nat)[k] == QuantCall::Remap(k as usize));
    }
    assert forall|i: int| 0 <= i < c.len() implies !(#[trigger] c[i] is QuantizeImage) && (c[i]
        == QuantCall::QuantizeHistogram ==> i == off + n) by {
        if i < off {
            assert(c[i] == settings[i]);
        } else if i < off + n {
            assert(c[i] == count_calls(n as nat)[i - off]);
        } else if i > off + n {
            assert(c[i] == remap_calls(n as nat)[i - off - n - 1]);
        }
    }
}

/// Configuring fresh settings, building the palette and remapping a still
/// image leave this record: the settings calls with the resolved speed and
/// bounds, one quantization of its single image, and one remap of it.
pub proof fn lemma_still_image_calls(p: Pngquant, q0: Quantizer, q1: Quantizer, built: Quantized, done: Quantized)
    requires
        p.wf(),
        p.animation is None,
        q0.calls@ == Seq::<QuantCall>::empty(),
        q1.calls@ == q0.calls@ + setting_calls(
            p.speed,
            resolved_quality(p.quality_min, p.quality_max, p.def_quality_max),
        ),
        built.calls@ == q1.calls@ + quantize_calls(false, p.frames@.len()),
        done.calls@ == built.calls@ + remap_calls(p.frames@.len()),
    ensures
        done.calls@ == setting_calls(
            p.speed,
            resolved_quality(p.quality_min, p.quality_max, p.def_quality_max),
        ) + seq![QuantCall::QuantizeImage(0), QuantCall::Remap(0)],
{
    assert(remap_calls(1) =~= seq![QuantCall::Remap(0)]);
    assert(done.calls@ =~= setting_calls(
        p.speed,
        resolved_quality(p.quality_min, p.quality_max, p.def_quality_max),
    ) + seq![QuantCall::QuantizeImage(0), QuantCall::Remap(0)]);
}

} // verus!

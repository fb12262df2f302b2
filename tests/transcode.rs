use png_optimize::pngquant::palette_to_png;
use png_optimize::{
    AnimationControl, BlendOp, ColorType, DecodedFrame, DisposeOp, Error, FrameControl, ImageInfo,
    Pngquant, Quantizer, Remapped, Rgba,
};

const COLORS: [[u8; 4]; 4] = [[255, 0, 0, 255], [0, 255, 0, 255], [0, 0, 255, 128], [0, 0, 0, 0]];

fn pixels(width: u32, height: u32, shift: usize) -> Vec<u8> {
    let mut out = Vec::new();
    for i in 0..(width * height) as usize {
        out.extend_from_slice(&COLORS[(i / 3 + shift) % COLORS.len()]);
    }
    out
}

fn control(width: u32, height: u32, k: u16) -> FrameControl {
    FrameControl {
        width,
        height,
        x_offset: k as u32,
        y_offset: 2 * k as u32,
        delay_num: 10 + k,
        delay_den: 100,
        dispose_op: if k % 2 == 0 { DisposeOp::Background } else { DisposeOp::Previous },
        blend_op: if k % 2 == 0 { BlendOp::Over } else { BlendOp::Source },
    }
}

fn still_info(width: u32, height: u32, color_type: ColorType) -> ImageInfo {
    ImageInfo { width, height, color_type, animation: None }
}

fn animated_info(width: u32, height: u32, frames: u32) -> ImageInfo {
    ImageInfo {
        width,
        height,
        color_type: ColorType::Rgba,
        animation: Some(AnimationControl { num_frames: frames, num_plays: 3 }),
    }
}

fn animation(width: u32, height: u32, frames: u16) -> Vec<DecodedFrame> {
    (0..frames)
        .map(|k| DecodedFrame {
            data: pixels(width - k as u32, height, k as usize),
            control: Some(control(width - k as u32, height, k)),
        })
        .collect()
}

fn run_quantizer(p: &Pngquant) -> Result<Vec<Remapped>, Error> {
    let mut q = Quantizer::new(imagequant::new());
    p.configure(&mut q)?;
    let mut images: Vec<imagequant::Image> = p
        .frames
        .iter()
        .map(|f| {
            imagequant::Image::new_borrowed(
                &q.attr,
                rgb::FromSlice::as_rgba(&f.data[..]),
                f.width as usize,
                f.height as usize,
                0.0,
            )
            .unwrap()
        })
        .collect();
    let mut res = p.quantize(&q, &mut images)?;
    res.result.set_dithering_level(1.0).unwrap();
    p.remap(&mut res, &mut images)
}

#[test]
fn non_rgba_input_is_refused() {
    for color_type in
        [ColorType::Indexed, ColorType::Rgb, ColorType::Grayscale, ColorType::GrayscaleAlpha]
    {
        let decoded = vec![DecodedFrame { data: vec![0; 16], control: None }];
        let r = Pngquant::new(0, 16, still_info(2, 2, color_type), decoded, None, None, None);
        assert!(matches!(r, Err(Error::UnsupportedColorMode)));
    }
}

#[test]
fn malformed_frames_are_unsupported() {
    let short = vec![DecodedFrame { data: vec![0; 15], control: None }];
    let r = Pngquant::new(0, 16, still_info(2, 2, ColorType::Rgba), short, None, None, None);
    assert!(matches!(r, Err(Error::Unsupported)));
    let r = Pngquant::new(0, 16, still_info(2, 2, ColorType::Rgba), Vec::new(), None, None, None);
    assert!(matches!(r, Err(Error::Unsupported)));
    let uncontrolled = vec![DecodedFrame { data: vec![0; 16], control: None }];
    let r = Pngquant::new(0, 16, animated_info(2, 2, 1), uncontrolled, None, None, None);
    assert!(matches!(r, Err(Error::Unsupported)));
}

#[test]
fn animation_missing_frames_is_unsupported() {
    let r = Pngquant::new(0, 1, animated_info(6, 4, 4), animation(6, 4, 3), None, None, None);
    assert!(matches!(r, Err(Error::Unsupported)));
    let r = Pngquant::new(0, 1, animated_info(6, 4, 2), animation(6, 4, 3), None, None, None);
    assert!(matches!(r, Err(Error::Unsupported)));
    let r = Pngquant::new(0, 1, animated_info(6, 4, 3), animation(6, 4, 3), None, None, None);
    assert!(r.is_ok());
}

#[test]
fn still_image_takes_the_first_image_over_the_canvas() {
    let decoded = vec![
        DecodedFrame { data: pixels(3, 2, 0), control: None },
        DecodedFrame { data: vec![1, 2, 3], control: None },
    ];
    let p = Pngquant::new(7, 99, still_info(3, 2, ColorType::Rgba), decoded, Some(4), None, None)
        .unwrap();
    assert_eq!(p.id, 7);
    assert_eq!(p.original_size, Some(99));
    assert_eq!(p.size, None);
    assert_eq!(p.frames.len(), 1);
    assert_eq!(p.frames[0].data, pixels(3, 2, 0));
    assert_eq!((p.frames[0].width, p.frames[0].height), (3, 2));
    assert_eq!((p.frames[0].x_offset, p.frames[0].y_offset), (0, 0));
}

#[test]
fn animation_keeps_frames_with_control_in_order() {
    let mut decoded = animation(6, 4, 3);
    decoded.insert(0, DecodedFrame { data: pixels(6, 4, 9), control: None });
    let p = Pngquant::new(1, 10, animated_info(6, 4, 3), decoded, None, None, None).unwrap();
    assert_eq!(p.frames.len(), 3);
    for (k, f) in p.frames.iter().enumerate() {
        let c = control(6 - k as u32, 4, k as u16);
        assert_eq!(f.data, pixels(6 - k as u32, 4, k));
        assert_eq!((f.width, f.x_offset, f.y_offset), (c.width, c.x_offset, c.y_offset));
        assert_eq!((f.delay_num, f.delay_den), (c.delay_num, c.delay_den));
        assert_eq!((f.dispose_op, f.blend_op), (c.dispose_op, c.blend_op));
    }
}

#[test]
fn quality_bounds_fill_in_defaults() {
    let make = |min: Option<u8>, max: Option<u8>| {
        let decoded = vec![DecodedFrame { data: vec![0; 4], control: None }];
        Pngquant::new(0, 4, still_info(1, 1, ColorType::Rgba), decoded, None, min, max).unwrap()
    };
    assert_eq!(make(None, None).quality_bounds(), (0, 60));
    assert_eq!(make(Some(30), None).quality_bounds(), (30, 60));
    assert_eq!(make(None, Some(90)).quality_bounds(), (0, 90));
    assert_eq!(make(Some(40), Some(80)).quality_bounds(), (40, 80));
}

#[test]
fn configure_refuses_bad_settings() {
    let make = |speed: Option<u8>, min: Option<u8>, max: Option<u8>| {
        let decoded = vec![DecodedFrame { data: vec![0; 4], control: None }];
        Pngquant::new(0, 4, still_info(1, 1, ColorType::Rgba), decoded, speed, min, max).unwrap()
    };
    let mut q = Quantizer::new(imagequant::new());
    assert_eq!(make(Some(4), Some(40), Some(80)).configure(&mut q), Ok(()));
    assert_eq!(make(None, None, None).configure(&mut q), Ok(()));
    assert_eq!(make(Some(11), None, None).configure(&mut q), Err(Error::Quantization));
    assert_eq!(make(Some(0), None, None).configure(&mut q), Err(Error::Quantization));
    assert_eq!(make(None, Some(70), None).configure(&mut q), Err(Error::Quantization));
    assert_eq!(make(None, None, Some(101)).configure(&mut q), Err(Error::Quantization));
}

#[test]
fn palette_splits_into_colour_and_alpha_tables() {
    let palette = vec![Rgba { r: 1, g: 2, b: 3, a: 4 }, Rgba { r: 5, g: 6, b: 7, a: 8 }];
    let (rgb, trns) = palette_to_png(&palette);
    assert_eq!(rgb, vec![1, 2, 3, 5, 6, 7]);
    assert_eq!(trns, vec![4, 8]);
    let (rgb, trns) = palette_to_png(&Vec::new());
    assert!(rgb.is_empty() && trns.is_empty());
}

#[test]
fn still_rgba_image_becomes_one_indexed_frame() {
    let decoded = vec![DecodedFrame { data: pixels(16, 12, 0), control: None }];
    let p = Pngquant::new(0, 1, still_info(16, 12, ColorType::Rgba), decoded, None, None, None)
        .unwrap();
    let remapped = run_quantizer(&p).unwrap();
    assert_eq!(remapped.len(), 1);
    assert!(!remapped[0].palette.is_empty());
    assert_eq!(remapped[0].indices.len(), 16 * 12);
    let out = p.encoder(remapped).unwrap();
    assert_eq!((out.width, out.height), (16, 12));
    assert_eq!(out.animation, None);
    assert_eq!(out.frames.len(), 1);
    assert!(out.trns.len() <= 256 && !out.trns.is_empty());
    assert_eq!(out.palette.len(), 3 * out.trns.len());
    assert_eq!(out.frames[0].indices.len(), 16 * 12);
    assert!(out.frames[0].indices.iter().all(|&i| (i as usize) < out.trns.len()));
}

#[test]
fn apng_with_five_frames_keeps_frames_timing_and_one_palette() {
    let decoded = animation(12, 10, 5);
    let p = Pngquant::new(3, 1, animated_info(12, 10, 5), decoded, Some(4), Some(40), Some(80))
        .unwrap();
    let remapped = run_quantizer(&p).unwrap();
    assert_eq!(remapped.len(), 5);
    for r in &remapped {
        assert_eq!(r.palette, remapped[0].palette);
    }
    let out = p.encoder(remapped).unwrap();
    assert_eq!(out.animation, Some(AnimationControl { num_frames: 5, num_plays: 3 }));
    assert_eq!(out.frames.len(), 5);
    for (k, f) in out.frames.iter().enumerate() {
        assert_eq!(f.control, control(12 - k as u32, 10, k as u16));
        assert_eq!(f.indices.len(), ((12 - k) * 10) as usize);
        assert!(f.indices.iter().all(|&i| (i as usize) < out.trns.len()));
    }
}

#[test]
fn encoder_uses_the_first_palette_for_every_frame() {
    let p = Pngquant::new(0, 1, animated_info(2, 1, 2), animation(2, 1, 2), None, None, None)
        .unwrap();
    let first = vec![Rgba { r: 9, g: 8, b: 7, a: 6 }, Rgba { r: 1, g: 1, b: 1, a: 255 }];
    let remapped = vec![
        Remapped { palette: first.clone(), indices: vec![1, 0] },
        Remapped { palette: vec![Rgba { r: 0, g: 0, b: 0, a: 0 }; 2], indices: vec![0] },
    ];
    let out = p.encoder(remapped).unwrap();
    assert_eq!(out.palette, vec![9, 8, 7, 1, 1, 1]);
    assert_eq!(out.trns, vec![6, 255]);
    assert_eq!(out.frames[0].indices, vec![1, 0]);
    assert_eq!(out.frames[1].indices, vec![0]);
    assert_eq!(out.frames[1].control, control(1, 1, 1));
}

#[test]
fn encoder_refuses_results_that_do_not_fit() {
    let p = Pngquant::new(0, 1, animated_info(2, 1, 2), animation(2, 1, 2), None, None, None)
        .unwrap();
    let palette = vec![Rgba { r: 0, g: 0, b: 0, a: 0 }; 2];
    let fit = |a: Vec<u8>, b: Vec<u8>| {
        vec![
            Remapped { palette: palette.clone(), indices: a },
            Remapped { palette: palette.clone(), indices: b },
        ]
    };
    assert!(p.encoder(fit(vec![0, 1], vec![1])).is_ok());
    assert_eq!(p.encoder(fit(vec![0, 2], vec![1])).err(), Some(Error::Quantization));
    assert_eq!(p.encoder(fit(vec![0], vec![1])).err(), Some(Error::Quantization));
    assert_eq!(p.encoder(fit(vec![0, 1], vec![1, 1])).err(), Some(Error::Quantization));
    let one = vec![Remapped { palette: palette.clone(), indices: vec![0, 0] }];
    assert_eq!(p.encoder(one).err(), Some(Error::Quantization));
    let big = vec![Rgba { r: 0, g: 0, b: 0, a: 0 }; 257];
    let too_many = vec![
        Remapped { palette: big.clone(), indices: vec![0, 0] },
        Remapped { palette: big, indices: vec![0] },
    ];
    assert_eq!(p.encoder(too_many).err(), Some(Error::Quantization));
}

#[test]
fn set_size_records_the_output_size() {
    let decoded = vec![DecodedFrame { data: vec![0; 4], control: None }];
    let mut p =
        Pngquant::new(0, 4, still_info(1, 1, ColorType::Rgba), decoded, None, None, None).unwrap();
    p.set_size(321);
    assert_eq!(p.size, Some(321));
}

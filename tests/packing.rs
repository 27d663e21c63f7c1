use texpack::compose::{compose, copy_channel, prepare, ClampWarning, PackError};
use texpack::format::{narrow_f32_bits, read_element, ElementType, NativeEncoding, PixelFormat};
use texpack::jobs::JobLayout;
use texpack::mask::{parse_masks, MaskError, OutputChannelSpec};
use texpack::pack::{pack, Failure};
use texpack::sources::{SizeCheck, SlotSize, SourceError, SourceImage, SourceSet};

fn gray(width: u32, height: u32, data: Vec<u8>) -> SourceImage {
    SourceImage::new(width, height, NativeEncoding::L8, data).unwrap()
}

fn rgba(width: u32, height: u32, data: Vec<u8>) -> SourceImage {
    SourceImage::new(width, height, NativeEncoding::Rgba8, data).unwrap()
}

fn set_of(images: Vec<(usize, SourceImage)>) -> SourceSet {
    let mut set = SourceSet::new();
    for (slot, img) in images {
        set.insert(slot, img);
    }
    set
}

#[test]
fn valid_masks_of_every_length_parse() {
    for (mask, len) in [("0b", 2), ("wg1", 3), ("0123", 4), ("bbbw", 4), ("33", 2), ("g2w0", 4)] {
        let plan = parse_masks(mask, "rrrr").unwrap();
        assert_eq!(plan.channels.len(), len);
    }
}

#[test]
fn swizzle_characters_map_to_specs() {
    let plan = parse_masks("2bwg", "rgba").unwrap();
    assert_eq!(
        plan.channels,
        vec![
            OutputChannelSpec::FromSource { slot: 2, channel: 2 },
            OutputChannelSpec::Fill(0),
            OutputChannelSpec::Fill(255),
            OutputChannelSpec::Fill(128),
        ]
    );
}

#[test]
fn select_mask_is_indexed_by_slot() {
    let plan = parse_masks("30", "gbra").unwrap();
    assert_eq!(
        plan.channels,
        vec![
            OutputChannelSpec::FromSource { slot: 3, channel: 3 },
            OutputChannelSpec::FromSource { slot: 0, channel: 1 },
        ]
    );
}

#[test]
fn short_select_mask_reads_red() {
    let plan = parse_masks("03", "g").unwrap();
    assert_eq!(
        plan.channels,
        vec![
            OutputChannelSpec::FromSource { slot: 0, channel: 1 },
            OutputChannelSpec::FromSource { slot: 3, channel: 0 },
        ]
    );
}

#[test]
fn swizzle_shorter_than_two_is_too_short() {
    assert_eq!(parse_masks("0", "rrrr").unwrap_err(), MaskError::MaskTooShort { len: 1 });
    assert_eq!(parse_masks("", "rrrr").unwrap_err(), MaskError::MaskTooShort { len: 0 });
    // the length is checked before anything else
    assert_eq!(parse_masks("x", "zzzz").unwrap_err(), MaskError::MaskTooShort { len: 1 });
}

#[test]
fn swizzle_longer_than_four_is_refused() {
    assert_eq!(parse_masks("01230", "rrrr").unwrap_err(), MaskError::MaskTooLong { len: 5 });
}

#[test]
fn invalid_swizzle_character_names_char_and_position() {
    assert_eq!(
        parse_masks("0x1", "rrrr").unwrap_err(),
        MaskError::InvalidSwizzleChar { ch: 'x', position: 1 }
    );
    assert_eq!(
        parse_masks("4b", "rrrr").unwrap_err(),
        MaskError::InvalidSwizzleChar { ch: '4', position: 0 }
    );
    assert_eq!(
        parse_masks("bwé", "rrrr").unwrap_err(),
        MaskError::InvalidSwizzleChar { ch: 'é', position: 2 }
    );
}

#[test]
fn invalid_select_character_names_char_and_slot() {
    assert_eq!(
        parse_masks("0123", "rxrq").unwrap_err(),
        MaskError::InvalidSelectChar { ch: 'x', slot: 1 }
    );
    // the select mask is checked before the swizzle mask's characters
    assert_eq!(
        parse_masks("0z", "rrrR").unwrap_err(),
        MaskError::InvalidSelectChar { ch: 'R', slot: 3 }
    );
}

#[test]
fn mask_error_comes_before_sources() {
    let set = SourceSet::new();
    assert_eq!(pack("0", "rrrr", &set).unwrap_err(), Failure::Mask(MaskError::MaskTooShort { len: 1 }));
}

#[test]
fn encodings_map_to_formats() {
    let table = [
        (NativeEncoding::L8, ElementType::Uint8, 1, 1),
        (NativeEncoding::La8, ElementType::Uint8, 2, 2),
        (NativeEncoding::Rgb8, ElementType::Uint8, 3, 3),
        (NativeEncoding::Rgba8, ElementType::Uint8, 4, 4),
        (NativeEncoding::L16, ElementType::Uint16, 2, 1),
        (NativeEncoding::La16, ElementType::Uint16, 4, 2),
        (NativeEncoding::Rgb16, ElementType::Uint16, 6, 3),
        (NativeEncoding::Rgba16, ElementType::Uint16, 8, 4),
        (NativeEncoding::Rgb32F, ElementType::Float32, 12, 3),
        (NativeEncoding::Rgba32F, ElementType::Float32, 16, 4),
        (NativeEncoding::Other { bytes_per_pixel: 5, channel_count: 2 }, ElementType::Uint8, 5, 2),
    ];
    for (enc, element, bpp, cc) in table {
        assert_eq!(
            PixelFormat::from_encoding(enc),
            Some(PixelFormat { element, bytes_per_pixel: bpp, channel_count: cc })
        );
    }
    assert_eq!(PixelFormat::from_encoding(NativeEncoding::Other { bytes_per_pixel: 1, channel_count: 2 }), None);
    assert_eq!(PixelFormat::from_encoding(NativeEncoding::Other { bytes_per_pixel: 9, channel_count: 0 }), None);
    assert_eq!(PixelFormat::from_encoding(NativeEncoding::Other { bytes_per_pixel: 9, channel_count: 5 }), None);
}

#[test]
fn float_narrowing_matches_numeric_cast() {
    let values: [f32; 16] = [
        0.0, -0.0, 0.5, 0.99, 1.0, 1.5, 127.9, 128.0, 200.25, 255.0, 255.9, 256.0, 1e9, -1.0, -300.0,
        f32::MIN_POSITIVE,
    ];
    for v in values {
        assert_eq!(narrow_f32_bits(v.to_bits()), v as u8, "value {}", v);
    }
    assert_eq!(narrow_f32_bits(f32::NAN.to_bits()), 0);
    assert_eq!(narrow_f32_bits(f32::INFINITY.to_bits()), 255);
    assert_eq!(narrow_f32_bits(f32::NEG_INFINITY.to_bits()), 0);
    let mut x: f32 = 0.0;
    while x < 300.0 {
        assert_eq!(narrow_f32_bits(x.to_bits()), x as u8, "value {}", x);
        x += 0.37;
    }
}

#[test]
fn elements_are_read_at_their_offsets() {
    let f8 = PixelFormat::from_encoding(NativeEncoding::Rgb8).unwrap();
    let data8 = vec![1, 2, 3, 4, 5, 6];
    assert_eq!(read_element(&data8, f8, 1, 2), 6);
    assert_eq!(read_element(&data8, f8, 0, 1), 2);
    // 16-bit elements keep their low byte
    let f16 = PixelFormat::from_encoding(NativeEncoding::La16).unwrap();
    let data16: Vec<u8> = [0x1234u16, 0xABCD, 0x00FF, 0x0100].iter().flat_map(|v| v.to_le_bytes()).collect();
    assert_eq!(read_element(&data16, f16, 0, 1), 0xCD);
    assert_eq!(read_element(&data16, f16, 1, 0), 0xFF);
    assert_eq!(read_element(&data16, f16, 1, 1), 0x00);
    // float elements are truncated toward zero and saturated
    let f32f = PixelFormat::from_encoding(NativeEncoding::Rgb32F).unwrap();
    let dataf: Vec<u8> = [0.5f32, 42.75, 1000.0].iter().flat_map(|v| v.to_le_bytes()).collect();
    assert_eq!(read_element(&dataf, f32f, 0, 0), 0);
    assert_eq!(read_element(&dataf, f32f, 0, 1), 42);
    assert_eq!(read_element(&dataf, f32f, 0, 2), 255);
}

#[test]
fn source_image_checks_its_bytes() {
    assert!(SourceImage::new(2, 2, NativeEncoding::Rgb8, vec![0; 12]).is_ok());
    assert_eq!(
        SourceImage::new(2, 2, NativeEncoding::Rgb8, vec![0; 11]).unwrap_err(),
        SourceError::LengthMismatch { expected: Some(12), actual: 11 }
    );
    assert_eq!(
        SourceImage::new(1, 1, NativeEncoding::Other { bytes_per_pixel: 0, channel_count: 1 }, vec![]).unwrap_err(),
        SourceError::UnsupportedEncoding
    );
}

#[test]
fn identity_swizzle_copies_red_of_each_source() {
    let (w, h) = (3u32, 2u32);
    let s0 = gray(w, h, vec![10, 11, 12, 13, 14, 15]);
    let s1 = rgba(w, h, (0..24).map(|i| i as u8 * 3).collect());
    let s2data: Vec<u8> = (0..6u16).flat_map(|i| [i * 0x0101 + 7, 9, 9].into_iter().flat_map(|v| v.to_le_bytes()).collect::<Vec<u8>>()).collect();
    let s2 = SourceImage::new(w, h, NativeEncoding::Rgb16, s2data).unwrap();
    let s3data: Vec<u8> = (0..6).flat_map(|i| [i as f32 * 40.5, 1.0, 2.0, 3.0].into_iter().flat_map(|v| v.to_le_bytes()).collect::<Vec<u8>>()).collect();
    let s3 = SourceImage::new(w, h, NativeEncoding::Rgba32F, s3data).unwrap();
    let set = set_of(vec![(0, s0), (1, s1), (2, s2), (3, s3)]);
    let canvas = pack("0123", "rrrr", &set).unwrap();
    assert_eq!((canvas.width, canvas.height), (w, h));
    assert_eq!(canvas.pixels.len(), 24);
    for p in 0..6usize {
        let quad = &canvas.pixels[4 * p..4 * p + 4];
        assert_eq!(quad[0], 10 + p as u8);
        assert_eq!(quad[1], (4 * p) as u8 * 3);
        assert_eq!(quad[2], ((p as u16) * 0x0101 + 7) as u8);
        assert_eq!(quad[3], (p as f32 * 40.5) as u8);
    }
    assert!(canvas.warnings.is_empty());
}

#[test]
fn black_swizzle_gives_opaque_black() {
    let set = set_of(vec![(1, rgba(2, 1, vec![9, 8, 7, 6, 5, 4, 3, 2]))]);
    let canvas = pack("bbbw", "rrrr", &set).unwrap();
    assert_eq!(canvas.pixels, vec![0, 0, 0, 255, 0, 0, 0, 255]);
}

#[test]
fn grey_fill_and_short_plan_defaults() {
    let set = set_of(vec![(0, gray(2, 1, vec![5, 6]))]);
    let canvas = pack("g0", "rrrr", &set).unwrap();
    // channels past the plan stay black with full alpha
    assert_eq!(canvas.pixels, vec![128, 5, 0, 255, 128, 6, 0, 255]);
}

#[test]
fn mismatched_dimensions_list_every_source() {
    let set = set_of(vec![(0, gray(2, 2, vec![0; 4])), (2, gray(3, 1, vec![0; 3])), (3, gray(2, 2, vec![0; 4]))]);
    assert_eq!(
        set.check_sizes(),
        SizeCheck::Mismatched {
            sizes: vec![
                SlotSize { slot: 0, width: 2, height: 2 },
                SlotSize { slot: 2, width: 3, height: 1 },
                SlotSize { slot: 3, width: 2, height: 2 },
            ]
        }
    );
    let err = pack("02", "rrrr", &set).unwrap_err();
    assert_eq!(
        err,
        Failure::Compose(PackError::MismatchedDimensions {
            sizes: vec![
                SlotSize { slot: 0, width: 2, height: 2 },
                SlotSize { slot: 2, width: 3, height: 1 },
                SlotSize { slot: 3, width: 2, height: 2 },
            ]
        })
    );
}

#[test]
fn unreferenced_source_still_counts_for_size() {
    let set = set_of(vec![(0, gray(1, 1, vec![0])), (1, gray(2, 1, vec![0, 0]))]);
    assert!(matches!(pack("0b", "rrrr", &set), Err(Failure::Compose(PackError::MismatchedDimensions { .. }))));
}

#[test]
fn select_past_last_channel_is_clamped_with_warning() {
    let set = set_of(vec![(0, SourceImage::new(2, 1, NativeEncoding::La8, vec![1, 2, 3, 4]).unwrap())]);
    let canvas = pack("0b", "a", &set).unwrap();
    assert_eq!(canvas.pixels, vec![2, 0, 0, 255, 4, 0, 0, 255]);
    assert_eq!(canvas.warnings, vec![ClampWarning { position: 0, slot: 0, requested: 3, channel_count: 2 }]);
    let gray_set = set_of(vec![(1, gray(1, 1, vec![77]))]);
    let canvas = pack("w1", "rb", &gray_set).unwrap();
    assert_eq!(canvas.pixels, vec![255, 77, 0, 255]);
    assert_eq!(canvas.warnings, vec![ClampWarning { position: 1, slot: 1, requested: 2, channel_count: 1 }]);
}

#[test]
fn repeated_runs_give_identical_bytes() {
    let make = || set_of(vec![(0, rgba(2, 2, (0..16).collect())), (3, gray(2, 2, vec![4, 3, 2, 1]))]);
    let a = pack("30gw", "grrr", &make()).unwrap();
    let b = pack("30gw", "grrr", &make()).unwrap();
    assert_eq!(a.pixels, b.pixels);
    assert_eq!(a.pixels, vec![4, 1, 128, 255, 3, 5, 128, 255, 2, 9, 128, 255, 1, 13, 128, 255]);
}

#[test]
fn missing_source_is_reported() {
    let set = set_of(vec![(0, gray(1, 1, vec![0]))]);
    assert_eq!(
        pack("0w2", "rrrr", &set).unwrap_err(),
        Failure::Compose(PackError::MissingSource { slot: 2, position: 2 })
    );
}

#[test]
fn no_source_at_all_has_no_size() {
    let set = SourceSet::new();
    assert_eq!(set.check_sizes(), SizeCheck::Empty);
    assert_eq!(pack("bbbw", "rrrr", &set).unwrap_err(), Failure::Compose(PackError::NoSources));
}

#[test]
fn prepare_lists_jobs_and_constants() {
    let set = set_of(vec![(1, gray(1, 2, vec![1, 2]))]);
    let plan = parse_masks("w1", "ra").unwrap();
    let prep = prepare(&plan, &set).unwrap();
    assert_eq!(prep.pixels, vec![255, 0, 0, 255, 255, 0, 0, 255]);
    assert_eq!(prep.jobs.len(), 2);
    assert_eq!(prep.jobs[0], None);
    let job = prep.jobs[1].unwrap();
    assert_eq!((job.slot, job.channel, job.out_channel), (1, 0, 1));
    assert_eq!(prep.warnings.len(), 1);
}

#[test]
fn chunked_copy_matches_whole_copy() {
    let fmt = PixelFormat::from_encoding(NativeEncoding::Rgb8).unwrap();
    let pixels = 37usize;
    let src: Vec<u8> = (0..pixels * 3).map(|i| (i * 7) as u8).collect();
    let mut whole = vec![0u8; pixels * 4];
    copy_channel(&src, fmt, 1, &mut whole, 2, pixels);
    for p in 0..pixels {
        assert_eq!(whole[4 * p + 2], src[3 * p + 1]);
        assert_eq!(whole[4 * p], 0);
    }
    let layout = JobLayout::new(1, pixels, 3);
    assert_eq!(layout.chunk_count, 2);
    let mut chunked = vec![0u8; pixels * 4];
    for k in 0..layout.chunk_count {
        let (s, e) = layout.chunk(k);
        copy_channel(&src[s * 3..e * 3], fmt, 1, &mut chunked[s * 4..e * 4], 2, e - s);
    }
    assert_eq!(whole, chunked);
}

#[test]
fn job_layout_cuts_rows_into_chunks_and_waves() {
    let layout = JobLayout::new(10, 1000, 3);
    assert_eq!(layout.chunk_pixels, 320);
    assert_eq!(layout.chunk_count, 4);
    assert_eq!(layout.chunk(0), (0, 320));
    assert_eq!(layout.chunk(3), (960, 1000));
    assert_eq!(layout.wave_count(), 2);
    assert_eq!(layout.wave(0), (0, 3));
    assert_eq!(layout.wave(1), (3, 4));
    let exact = JobLayout::new(1, 64, 1);
    assert_eq!((exact.chunk_pixels, exact.chunk_count), (32, 2));
    let empty = JobLayout::new(0, 0, 4);
    assert_eq!((empty.chunk_pixels, empty.chunk_count), (1, 0));
    assert_eq!(empty.wave_count(), 0);
    let real = JobLayout::for_canvas(5, 100);
    assert!(real.workers >= 1);
    assert_eq!(real.chunk_pixels, 160);
}

#[test]
fn compose_uses_plan_directly() {
    let set = set_of(vec![(2, rgba(1, 1, vec![10, 20, 30, 40]))]);
    let plan = parse_masks("222", "rrb").unwrap();
    let canvas = compose(&plan, &set).unwrap();
    assert_eq!(canvas.pixels, vec![30, 30, 30, 255]);
}

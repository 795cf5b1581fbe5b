use photorust::buffer::{unpremultiply_pixel, Pixmap, Rect, Rgba8};
use photorust::focus::{crop_from, neighbourhood_range, sharpen, FocusMode, Source};
use photorust::gpu::{fallback_detail, tries_gpu, BackendKind, BackendPreference, CpuBackend, DeviceInfo};
use photorust::gradient::GradientType;
use photorust::layer::{BlendIf, LayerId, LayerKind};
use photorust::replace::{ColorReplacer, ReplaceLimits, ReplaceMode, ReplaceOptions, ReplaceSampling};
use photorust::magnetic::straight_line;
use photorust::resample::{resample_coverage_unfiltered, resample_unfiltered, sample_clamped, Resample};

#[test]
fn the_environment_override_is_read() {
    assert_eq!(BackendPreference::default(), BackendPreference::Auto);
}

#[test]
fn the_setting_names_a_preference() {
    assert_eq!(BackendPreference::from_setting(Some("cpu")), BackendPreference::ForceCpu);
    assert_eq!(BackendPreference::from_setting(Some("gpu")), BackendPreference::RequireGpu);
    assert_eq!(BackendPreference::from_setting(Some("GPU")), BackendPreference::Auto);
    assert_eq!(BackendPreference::from_setting(None), BackendPreference::Auto);
}

#[test]
fn a_backend_always_describes_itself() {
    let cpu = CpuBackend::with_detail("selected directly", 8);
    assert_eq!(cpu.info.kind, BackendKind::Cpu);
    assert_eq!(cpu.info.name, "8 threads");
    assert_eq!(cpu.info.summary(), "CPU — 8 threads");
    assert!(!cpu.info.detail.is_empty());
    let gpu = DeviceInfo {
        kind: BackendKind::Gpu,
        name: "Card".to_string(),
        api: "Vulkan".to_string(),
        detail: String::new(),
        max_texture_dimension: 16384,
    };
    assert_eq!(gpu.summary(), "GPU — Card (Vulkan)");
}

#[test]
fn the_fallback_records_why() {
    assert!(!tries_gpu(BackendPreference::ForceCpu));
    assert!(tries_gpu(BackendPreference::Auto));
    assert_eq!(
        fallback_detail(BackendPreference::ForceCpu, ""),
        "forced by PHOTORUST_BACKEND=cpu"
    );
    assert_eq!(
        fallback_detail(BackendPreference::Auto, "no adapter"),
        "no usable GPU (no adapter)"
    );
    assert_eq!(
        fallback_detail(BackendPreference::RequireGpu, "no adapter"),
        "PHOTORUST_BACKEND=gpu requested but unavailable: no adapter"
    );
}

#[test]
fn modes_round_trip_through_their_integers() {
    for (v, mode) in [
        (0, ReplaceMode::Hue),
        (1, ReplaceMode::Saturation),
        (2, ReplaceMode::Color),
        (3, ReplaceMode::Luminosity),
    ] {
        assert_eq!(ReplaceMode::from_i32(v), mode);
        assert_eq!(mode as i32, v);
        assert_eq!(mode.index(), v);
    }
    assert_eq!(ReplaceMode::from_i32(99), ReplaceMode::Color);
    assert_eq!(ReplaceSampling::from_i32(99), ReplaceSampling::Continuous);
    assert_eq!(ReplaceLimits::from_i32(99), ReplaceLimits::Contiguous);
}

#[test]
fn a_stroke_starts_with_its_options_and_nothing_done() {
    let options = ReplaceOptions { tolerance: 32, ..ReplaceOptions::default() };
    let r = ColorReplacer::new(4, 3, options, Some(Rgba8::black()));
    assert_eq!(r.options(), options);
    assert_eq!(r.options().mode, ReplaceMode::Color);
}

#[test]
fn gradient_shapes_round_trip_through_their_integers() {
    for v in 0..5 {
        assert_eq!(GradientType::from_i32(v).index(), v);
    }
    assert_eq!(GradientType::from_i32(-1), GradientType::Linear);
    assert_eq!(GradientType::default(), GradientType::Linear);
}

#[test]
fn the_resample_menu_collapses_onto_three_interpolators() {
    assert_eq!(Resample::from_i32(5), Resample::Nearest);
    assert_eq!(Resample::from_i32(6), Resample::Bilinear);
    assert_eq!(Resample::from_i32(0), Resample::Bicubic);
}

#[test]
fn focus_modes_read_from_integers() {
    assert_eq!(FocusMode::from_i32(1), FocusMode::Sharpen);
    assert_eq!(FocusMode::from_i32(0), FocusMode::Blur);
    assert_eq!(FocusMode::from_i32(7), FocusMode::Blur);
}

#[test]
fn layer_ids_and_kinds() {
    assert!(LayerId::none().is_none());
    assert!(!LayerId(3).is_none());
    assert!(LayerKind::SolidColor(Rgba8::white()).is_fill());
    assert!(LayerKind::Pattern.is_fill());
    assert!(!LayerKind::Raster.is_fill());
    assert!(!LayerKind::Group.is_fill());
}

#[test]
fn blend_if_starts_wide_open() {
    assert!(BlendIf::default().is_open());
    let gated = BlendIf { this_layer: [0, 30, 255, 255], ..BlendIf::default() };
    assert!(!gated.is_open());
}

#[test]
fn sharpening_reflects_through_the_average() {
    let dst = Rgba8::new(100, 100, 100, 200);
    let avg = Rgba8::new(80, 120, 100, 255);
    assert_eq!(sharpen(dst, avg, None), Rgba8::new(120, 80, 100, 200));
    let bounds = ([90, 90, 90], [110, 110, 110]);
    assert_eq!(sharpen(dst, avg, Some(bounds)), Rgba8::new(110, 90, 100, 200));
    assert_eq!(sharpen(Rgba8::new(250, 5, 0, 9), Rgba8::new(0, 255, 0, 0), None), Rgba8::new(255, 0, 0, 9));
}

#[test]
fn the_neighbourhood_range_clamps_at_the_edges() {
    let mut pm = Pixmap::filled(3, 3, Rgba8::opaque(50, 60, 70));
    pm.set(0, 0, Rgba8::opaque(10, 200, 70));
    let region = Rect::new(0, 0, 3, 3);
    let (low, high) = neighbourhood_range(&pm, region, 0, 0);
    assert_eq!(low, [10, 60, 70]);
    assert_eq!(high, [50, 200, 70]);
}

#[test]
fn a_crop_reads_through_the_source_origin() {
    let mut src = Pixmap::new(4, 4);
    src.set(2, 1, Rgba8::opaque(9, 9, 9));
    let source = Source { pixels: &src, origin: (1, 1) };
    let out = crop_from(&source, Rect::new(2, 1, 3, 2));
    assert_eq!(out.width(), 3);
    assert_eq!(out.get(1, 1), Rgba8::opaque(9, 9, 9));
    assert_eq!(out.get(2, 1), Rgba8::new(0, 0, 0, 0));
    let empty = crop_from(&source, Rect::new(0, 0, 0, 0));
    assert_eq!((empty.width(), empty.height()), (1, 1));
}

#[test]
fn an_unchanged_size_is_returned_verbatim() {
    let src = Pixmap::filled(4, 4, Rgba8::new(10, 20, 30, 255));
    for mode in [Resample::Nearest, Resample::Bilinear, Resample::Bicubic] {
        let out = resample_unfiltered(&src, 4, 4).expect("an unchanged size needs no filtering");
        assert_eq!(out.as_bytes(), src.as_bytes(), "{mode:?}");
    }
}

#[test]
fn a_zero_size_gives_an_empty_pixmap() {
    let src = Pixmap::filled(4, 4, Rgba8::white());
    let out = resample_unfiltered(&src, 0, 3).unwrap();
    assert_eq!((out.width(), out.height()), (0, 3));
    assert!(out.is_empty());
    assert!(resample_unfiltered(&src, 8, 8).is_none());
    let empty = Pixmap::new(0, 0);
    assert_eq!(resample_unfiltered(&empty, 2, 2).unwrap().get(1, 1), Rgba8::new(0, 0, 0, 0));
}

#[test]
fn a_zero_size_mask_is_all_zero() {
    assert_eq!(resample_coverage_unfiltered(4, 4, 0, 3), Some(vec![]));
    assert_eq!(resample_coverage_unfiltered(0, 4, 2, 3), Some(vec![0; 6]));
    assert_eq!(resample_coverage_unfiltered(4, 4, 2, 3), None);
}

#[test]
fn premultiplying_scales_colour_by_alpha_and_back() {
    let mut pm = Pixmap::new(2, 1);
    pm.set(0, 0, Rgba8::new(200, 100, 50, 128));
    pm.set(1, 0, Rgba8::new(9, 8, 7, 255));
    pm.premultiply();
    assert_eq!(pm.get(0, 0), Rgba8::new(100, 50, 25, 128));
    assert_eq!(pm.get(1, 0), Rgba8::new(9, 8, 7, 255));
    pm.unpremultiply();
    assert_eq!(pm.get(0, 0), Rgba8::new(199, 100, 50, 128));
    assert_eq!(pm.get(1, 0), Rgba8::new(9, 8, 7, 255));
    assert_eq!(unpremultiply_pixel(Rgba8::new(5, 5, 5, 0)), Rgba8::new(0, 0, 0, 0));
}

#[test]
fn sampling_clamps_to_the_edge() {
    let mut pm = Pixmap::new(2, 2);
    pm.set(1, 1, Rgba8::white());
    assert_eq!(sample_clamped(&pm, 5, 9), Rgba8::white());
    assert_eq!(sample_clamped(&pm, -3, -3), Rgba8::new(0, 0, 0, 0));
}

#[test]
fn a_straight_line_joins_its_ends() {
    let line = straight_line((0, 0), (5, 2));
    assert_eq!(line.first(), Some(&(0, 0)));
    assert_eq!(line.last(), Some(&(5, 2)));
    assert_eq!(line.len(), 6);
    for pair in line.windows(2) {
        assert!((pair[1].0 - pair[0].0).abs() <= 1 && (pair[1].1 - pair[0].1).abs() <= 1);
    }
    assert_eq!(straight_line((3, 3), (3, 3)), vec![(3, 3)]);
    assert_eq!(straight_line((2, 0), (0, -2)), vec![(2, 0), (1, -1), (0, -2)]);
    assert_eq!(line, vec![(0, 0), (1, 0), (2, 1), (3, 1), (4, 2), (5, 2)]);
    assert_eq!(straight_line((0, 0), (0, 3)), vec![(0, 0), (0, 1), (0, 2), (0, 3)]);
    assert_eq!(straight_line((0, 0), (-2, 5)).len(), 6);
}

#[test]
fn rectangles_meet_join_and_grow() {
    let a = Rect::new(0, 0, 10, 10);
    let b = Rect::new(5, -3, 10, 5);
    assert_eq!(a.intersect(&b), Rect::new(5, 0, 5, 2));
    assert_eq!(a.union(&b), Rect::new(0, -3, 15, 13));
    assert_eq!(a.intersect(&Rect::new(20, 20, 4, 4)), Rect::default());
    assert_eq!(Rect::default().union(&b), b);
    assert_eq!(a.inflate(2), Rect::new(-2, -2, 14, 14));
    assert_eq!((b.right(), b.bottom()), (15, 2));
    assert!(a.contains(9, 9));
    assert!(!a.contains(10, 9));
    assert!(Rect::new(3, 3, 0, 7).is_empty());
}

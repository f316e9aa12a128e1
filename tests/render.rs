use sway_mirror::capture::{CapturedFrame, DmabufPlane};
use sway_mirror::render::{
    compute_viewport, plan_render, DmabufImport, ScaleMode, ScaleModeArg, Viewport,
};

fn vp(x: i64, y: i64, width: u64, height: u64) -> Viewport {
    Viewport { x, y, width, height }
}

#[test]
fn fit_same_aspect_fills_destination() {
    assert_eq!(compute_viewport(ScaleMode::Fit, 1920, 1080, 1920, 1080), vp(0, 0, 1920, 1080));
}

#[test]
fn fit_narrower_source_is_pillarboxed() {
    assert_eq!(compute_viewport(ScaleMode::Fit, 1280, 1024, 1920, 1080), vp(285, 0, 1350, 1080));
}

#[test]
fn fit_wider_source_is_letterboxed() {
    // 2560x1080 into 1920x1080: height 1920*1080/2560 = 810, y = 135.
    assert_eq!(compute_viewport(ScaleMode::Fit, 2560, 1080, 1920, 1080), vp(0, 135, 1920, 810));
}

#[test]
fn fill_narrower_source_overflows_vertically() {
    // Covering 1920x1080 with a 1.25 source takes the full width and 1536 rows.
    assert_eq!(compute_viewport(ScaleMode::Fill, 1280, 1024, 1920, 1080), vp(0, -228, 1920, 1536));
}

#[test]
fn fill_wider_source_overflows_horizontally() {
    assert_eq!(compute_viewport(ScaleMode::Fill, 2560, 1080, 1920, 1080), vp(-320, 0, 2560, 1080));
}

#[test]
fn center_smaller_source() {
    assert_eq!(compute_viewport(ScaleMode::Center, 640, 480, 1920, 1080), vp(640, 300, 640, 480));
}

#[test]
fn center_larger_source_is_not_clamped() {
    assert_eq!(compute_viewport(ScaleMode::Center, 3841, 2160, 1920, 1080), vp(-960, -540, 3841, 2160));
}

#[test]
fn center_odd_difference_truncates() {
    assert_eq!(compute_viewport(ScaleMode::Center, 641, 481, 1920, 1080), vp(639, 299, 641, 481));
}

#[test]
fn stretch_always_full_destination() {
    for &(sw, sh) in [(1920u32, 1080u32), (1280, 1024), (640, 480), (1, 5000), (0, 0)].iter() {
        assert_eq!(compute_viewport(ScaleMode::Stretch, sw, sh, 1920, 1080), vp(0, 0, 1920, 1080));
    }
}

#[test]
fn zero_sized_source_scales_to_nothing() {
    assert_eq!(compute_viewport(ScaleMode::Fit, 0, 1080, 1920, 1080), vp(960, 0, 0, 1080));
    assert_eq!(compute_viewport(ScaleMode::Fit, 1920, 0, 1920, 1080), vp(0, 540, 1920, 0));
}

#[test]
fn huge_fill_does_not_overflow() {
    let v = compute_viewport(ScaleMode::Fill, u32::MAX, 1, u32::MAX, u32::MAX);
    assert_eq!(v.width, (u32::MAX as u64) * (u32::MAX as u64));
    assert_eq!(v.height, u32::MAX as u64);
}

#[test]
fn import_attributes_list() {
    let imp = DmabufImport { width: 1920, height: 1080, format: 0x34325258, fd: 17, offset: 0, stride: 7680 };
    assert_eq!(
        imp.attributes(),
        vec![
            0x3057, 1920, 0x3056, 1080, 0x3271, 0x34325258, 0x3272, 17, 0x3273, 0, 0x3274, 7680,
            0x3038
        ]
    );
}

#[test]
fn plan_imports_first_plane_only() {
    let frame = CapturedFrame {
        width: 1280,
        height: 1024,
        format: 0x34325241,
        planes: vec![
            DmabufPlane { fd: 7, offset: 16, stride: 5120, modifier: 0 },
            DmabufPlane { fd: 8, offset: 0, stride: 2560, modifier: 0 },
        ],
        fds: vec![7, 8],
    };
    let plan = plan_render(&frame, 1920, 1080, ScaleMode::Fit);
    assert_eq!(plan.clear, vp(0, 0, 1920, 1080));
    assert_eq!(plan.viewport, vp(285, 0, 1350, 1080));
    assert_eq!(
        plan.import,
        Some(DmabufImport { width: 1280, height: 1024, format: 0x34325241, fd: 7, offset: 16, stride: 5120 })
    );
}

#[test]
fn plan_without_planes_imports_nothing() {
    let frame = CapturedFrame { width: 640, height: 480, format: 1, planes: vec![], fds: vec![] };
    let plan = plan_render(&frame, 1920, 1080, ScaleMode::Center);
    assert_eq!(plan.import, None);
    assert_eq!(plan.clear, vp(0, 0, 1920, 1080));
    assert_eq!(plan.viewport, vp(640, 300, 640, 480));
}

#[test]
fn scale_mode_from_arg() {
    assert_eq!(ScaleMode::from(ScaleModeArg::Fit), ScaleMode::Fit);
    assert_eq!(ScaleMode::from(ScaleModeArg::Fill), ScaleMode::Fill);
    assert_eq!(ScaleMode::from(ScaleModeArg::Stretch), ScaleMode::Stretch);
    assert_eq!(ScaleMode::from(ScaleModeArg::Center), ScaleMode::Center);
    assert_eq!(ScaleMode::default(), ScaleMode::Fit);
}

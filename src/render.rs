use vstd::prelude::*;

use crate::capture::{CapturedFrame, DmabufPlane};

verus! {

/// How a captured frame is placed inside a destination surface.
#[derive(Clone, Copy, Debug, Default, PartialEq, Eq, Structural)]
pub enum ScaleMode {
    /// Preserve aspect ratio, fit within the destination (letterbox/pillarbox).
    #[default]
    Fit,
    /// Preserve aspect ratio, cover the destination completely (crops edges).
    Fill,
    /// Cover the destination exactly, ignoring aspect ratio.
    Stretch,
    /// Native pixel size, centered, no scaling.
    Center,
}

/// A rectangle in destination pixel coordinates; the origin may lie outside
/// the destination and the size may exceed it.
#[derive(Clone, Copy, Debug, PartialEq, Eq, Structural)]
pub struct Viewport {
    pub x: i64,
    pub y: i64,
    pub width: u64,
    pub height: u64,
}

impl View for Viewport {
    type V = (int, int, int, int);

    open spec fn view(&self) -> (int, int, int, int) {
        (self.x as int, self.y as int, self.width as int, self.height as int)
    }
}

/// `len * num / den`, truncated; a zero `den` (a source without an aspect
/// ratio) scales to nothing.
pub open spec fn scaled(len: int, num: int, den: int) -> int {
    if den == 0 {
        0
    } else {
        len * num / den
    }
}

/// Offset that centers `inner` within `outer`, halving with truncation
/// toward zero, so a one-pixel asymmetry always falls the same way.
pub open spec fn centered(outer: int, inner: int) -> int {
    if inner <= outer {
        (outer - inner) / 2
    } else {
        -((inner - outer) / 2)
    }
}

/// The source's aspect ratio `sw / sh` exceeds the destination's `dw / dh`.
pub open spec fn source_is_wider(sw: int, sh: int, dw: int, dh: int) -> bool {
    sw * dh > dw * sh
}

/// The viewport for a `sw`×`sh` source drawn into a `dw`×`dh` destination.
pub open spec fn viewport_of(mode: ScaleMode, sw: int, sh: int, dw: int, dh: int) -> (
    int,
    int,
    int,
    int,
) {
    match mode {
        ScaleMode::Stretch => (0, 0, dw, dh),
        ScaleMode::Fit => if source_is_wider(sw, sh, dw, dh) {
            let h = scaled(dw, sh, sw);
            (0, centered(dh, h), dw, h)
        } else {
            let w = scaled(dh, sw, sh);
            (centered(dw, w), 0, w, dh)
        },
        ScaleMode::Fill => if source_is_wider(sw, sh, dw, dh) {
            let w = scaled(dh, sw, sh);
            (centered(dw, w), 0, w, dh)
        } else {
            let h = scaled(dw, sh, sw);
            (0, centered(dh, h), dw, h)
        },
        ScaleMode::Center => (centered(dw, sw), centered(dh, sh), sw, sh),
    }
}

fn wide_mul(a: u32, b: u32) -> (r: u64)
    ensures
        r as int == a as int * b as int,
{
    proof {
        assert(a as int * b as int <= 0xffff_ffff * 0xffff_ffff) by (nonlinear_arith)
            requires
                a <= 0xffff_ffff,
                b <= 0xffff_ffff,
        ;
    }
    (a as u64) * (b as u64)
}

fn scale_extent(len: u32, num: u32, den: u32) -> (r: u64)
    ensures
        r as int == scaled(len as int, num as int, den as int),
{
    if den == 0 {
        0
    } else {
        wide_mul(len, num) / (den as u64)
    }
}

fn center_offset(outer: u64, inner: u64) -> (r: i64)
    ensures
        r as int == centered(outer as int, inner as int),
{
    if inner <= outer {
        ((outer - inner) / 2) as i64
    } else {
        -(((inner - outer) / 2) as i64)
    }
}

/// Computes where a `src_w`×`src_h` frame is drawn inside a `dst_w`×`dst_h`
/// destination under `mode`.
pub fn compute_viewport(mode: ScaleMode, src_w: u32, src_h: u32, dst_w: u32, dst_h: u32) -> (r:
    Viewport)
    ensures
        r@ == viewport_of(mode, src_w as int, src_h as int, dst_w as int, dst_h as int),
{
    let wider = wide_mul(src_w, dst_h) > wide_mul(dst_w, src_h);
    match mode {
        ScaleMode::Stretch => Viewport { x: 0, y: 0, width: dst_w as u64, height: dst_h as u64 },
        ScaleMode::Fit => if wider {
            let h = scale_extent(dst_w, src_h, src_w);
            Viewport { x: 0, y: center_offset(dst_h as u64, h), width: dst_w as u64, height: h }
        } else {
            let w = scale_extent(dst_h, src_w, src_h);
            Viewport { x: center_offset(dst_w as u64, w), y: 0, width: w, height: dst_h as u64 }
        },
        ScaleMode::Fill => if wider {
            let w = scale_extent(dst_h, src_w, src_h);
            Viewport { x: center_offset(dst_w as u64, w), y: 0, width: w, height: dst_h as u64 }
        } else {
            let h = scale_extent(dst_w, src_h, src_w);
            Viewport { x: 0, y: center_offset(dst_h as u64, h), width: dst_w as u64, height: h }
        },
        ScaleMode::Center => Viewport {
            x: center_offset(dst_w as u64, src_w as u64),
            y: center_offset(dst_h as u64, src_h as u64),
            width: src_w as u64,
            height: src_h as u64,
        },
    }
}

/// The scaling policy as chosen on the command line.
#[derive(Clone, Copy, Debug, Default, PartialEq, Eq, Structural)]
pub enum ScaleModeArg {
    /// Preserve aspect ratio, fit within the destination (letterbox/pillarbox).
    #[default]
    Fit,
    /// Preserve aspect ratio, cover the destination completely (crops edges).
    Fill,
    /// Cover the destination exactly, ignoring aspect ratio.
    Stretch,
    /// Native pixel size, centered, no scaling.
    Center,
}

pub open spec fn mode_of(arg: ScaleModeArg) -> ScaleMode {
    match arg {
        ScaleModeArg::Fit => ScaleMode::Fit,
        ScaleModeArg::Fill => ScaleMode::Fill,
        ScaleModeArg::Stretch => ScaleMode::Stretch,
        ScaleModeArg::Center => ScaleMode::Center,
    }
}

impl From<ScaleModeArg> for ScaleMode {
    fn from(arg: ScaleModeArg) -> (r: ScaleMode) {
        match arg {
            ScaleModeArg::Fit => ScaleMode::Fit,
            ScaleModeArg::Fill => ScaleMode::Fill,
            ScaleModeArg::Stretch => ScaleMode::Stretch,
            ScaleModeArg::Center => ScaleMode::Center,
        }
    }
}

impl vstd::std_specs::convert::FromSpecImpl<ScaleModeArg> for ScaleMode {
    open spec fn obeys_from_spec() -> bool {
        true
    }

    open spec fn from_spec(arg: ScaleModeArg) -> ScaleMode {
        mode_of(arg)
    }
}

/// Attribute names of the dma-buf image import extension.
pub const EGL_WIDTH: i32 = 0x3057;
pub const EGL_HEIGHT: i32 = 0x3056;
pub const EGL_NONE: i32 = 0x3038;
pub const EGL_LINUX_DMA_BUF_EXT: u32 = 0x3270;
pub const EGL_LINUX_DRM_FOURCC_EXT: i32 = 0x3271;
pub const EGL_DMA_BUF_PLANE0_FD_EXT: i32 = 0x3272;
pub const EGL_DMA_BUF_PLANE0_OFFSET_EXT: i32 = 0x3273;
pub const EGL_DMA_BUF_PLANE0_PITCH_EXT: i32 = 0x3274;

/// What the zero-copy import of a single-plane buffer needs.
#[derive(Clone, Copy, Debug, PartialEq, Eq, Structural)]
pub struct DmabufImport {
    pub width: u32,
    pub height: u32,
    /// Four-character pixel format code.
    pub format: u32,
    pub fd: i32,
    pub offset: u32,
    pub stride: u32,
}

impl DmabufImport {
    /// The attribute list for the image import, terminated by `EGL_NONE`.
    /// Values travel as the 32-bit words the interface takes.
    pub open spec fn spec_attributes(self) -> Seq<i32> {
        seq![
            EGL_WIDTH,
            self.width as i32,
            EGL_HEIGHT,
            self.height as i32,
            EGL_LINUX_DRM_FOURCC_EXT,
            self.format as i32,
            EGL_DMA_BUF_PLANE0_FD_EXT,
            self.fd,
            EGL_DMA_BUF_PLANE0_OFFSET_EXT,
            self.offset as i32,
            EGL_DMA_BUF_PLANE0_PITCH_EXT,
            self.stride as i32,
            EGL_NONE,
        ]
    }

    pub fn attributes(&self) -> (r: Vec<i32>)
        ensures
            r@ == self.spec_attributes(),
    {
        let r = vec![
            EGL_WIDTH,
            self.width as i32,
            EGL_HEIGHT,
            self.height as i32,
            EGL_LINUX_DRM_FOURCC_EXT,
            self.format as i32,
            EGL_DMA_BUF_PLANE0_FD_EXT,
            self.fd,
            EGL_DMA_BUF_PLANE0_OFFSET_EXT,
            self.offset as i32,
            EGL_DMA_BUF_PLANE0_PITCH_EXT,
            self.stride as i32,
            EGL_NONE,
        ];
        assert(r@ =~= self.spec_attributes());
        r
    }
}

/// How one frame is drawn into one destination: clear `clear` to opaque
/// black, then draw into `viewport` the image that `import` describes, if
/// any. Only the first plane is imported: multi-planar formats are not
/// supported.
#[derive(Clone, Copy, Debug, PartialEq, Eq, Structural)]
pub struct RenderPlan {
    pub clear: Viewport,
    pub viewport: Viewport,
    pub import: Option<DmabufImport>,
}

pub open spec fn import_of(width: u32, height: u32, format: u32, plane: DmabufPlane) -> DmabufImport {
    DmabufImport { width, height, format, fd: plane.fd, offset: plane.offset, stride: plane.stride }
}

/// Plans the drawing of `frame` into a `dst_w`×`dst_h` destination.
pub fn plan_render(frame: &CapturedFrame, dst_w: u32, dst_h: u32, mode: ScaleMode) -> (r:
    RenderPlan)
    ensures
        r.clear@ == (0int, 0int, dst_w as int, dst_h as int),
        r.viewport@ == viewport_of(
            mode,
            frame.width as int,
            frame.height as int,
            dst_w as int,
            dst_h as int,
        ),
        r.import == (if frame.planes@.len() == 0 {
            None
        } else {
            Some(import_of(frame.width, frame.height, frame.format, frame.planes@[0]))
        }),
{
    let clear = Viewport { x: 0, y: 0, width: dst_w as u64, height: dst_h as u64 };
    let viewport = compute_viewport(mode, frame.width, frame.height, dst_w, dst_h);
    let import = if frame.planes.len() == 0 {
        None
    } else {
        let plane = frame.planes[0];
        Some(
            DmabufImport {
                width: frame.width,
                height: frame.height,
                format: frame.format,
                fd: plane.fd,
                offset: plane.offset,
                stride: plane.stride,
            },
        )
    };
    RenderPlan { clear, viewport, import }
}

/// Stretch always covers exactly the whole destination.
pub proof fn lemma_stretch_fills(sw: int, sh: int, dw: int, dh: int)
    ensures
        viewport_of(ScaleMode::Stretch, sw, sh, dw, dh) == (0int, 0int, dw, dh),
{
}

/// Center draws at the source's own size, centered.
pub proof fn lemma_center_native(sw: int, sh: int, dw: int, dh: int)
    ensures
        viewport_of(ScaleMode::Center, sw, sh, dw, dh) == (
            centered(dw, sw),
            centered(dh, sh),
            sw,
            sh,
        ),
{
}

/// Fit stays inside the destination and spans it fully along one axis.
pub proof fn lemma_fit_contained(sw: int, sh: int, dw: int, dh: int)
    requires
        sw > 0,
        sh > 0,
        dw >= 0,
        dh >= 0,
    ensures
        ({
            let (x, y, w, h) = viewport_of(ScaleMode::Fit, sw, sh, dw, dh);
            &&& 0 <= x && x + w <= dw
            &&& 0 <= y && y + h <= dh
            &&& (w == dw || h == dh)
        }),
{
    if source_is_wider(sw, sh, dw, dh) {
        assert(dw * sh / sw <= dh) by {
            assert(dw * sh < dh * sw) by (nonlinear_arith)
                requires
                    sw * dh > dw * sh,
            ;
            vstd::arithmetic::div_mod::lemma_div_is_ordered(dw * sh, dh * sw, sw);
            vstd::arithmetic::div_mod::lemma_div_multiples_vanish(dh, sw);
        }
        assert(dw * sh / sw >= 0) by (nonlinear_arith)
            requires
                dw >= 0,
                sh > 0,
                sw > 0,
        ;
    } else {
        assert(dh * sw / sh <= dw) by {
            assert(dh * sw <= dw * sh) by (nonlinear_arith)
                requires
                    sw * dh <= dw * sh,
            ;
            vstd::arithmetic::div_mod::lemma_div_is_ordered(dh * sw, dw * sh, sh);
            vstd::arithmetic::div_mod::lemma_div_multiples_vanish(dw, sh);
        }
        assert(dh * sw / sh >= 0) by (nonlinear_arith)
            requires
                dh >= 0,
                sh > 0,
                sw > 0,
        ;
    }
}

/// Fill covers the whole destination and spans it exactly along one axis.
pub proof fn lemma_fill_covers(sw: int, sh: int, dw: int, dh: int)
    requires
        sw > 0,
        sh > 0,
        dw >= 0,
        dh >= 0,
    ensures
        ({
            let (x, y, w, h) = viewport_of(ScaleMode::Fill, sw, sh, dw, dh);
            &&& x <= 0 && dw <= x + w
            &&& y <= 0 && dh <= y + h
            &&& (w == dw || h == dh)
        }),
{
    if source_is_wider(sw, sh, dw, dh) {
        assert(dh * sw / sh >= dw) by {
            assert(dh * sw > dw * sh) by (nonlinear_arith)
                requires
                    sw * dh > dw * sh,
            ;
            vstd::arithmetic::div_mod::lemma_div_is_ordered(dw * sh, dh * sw, sh);
            vstd::arithmetic::div_mod::lemma_div_multiples_vanish(dw, sh);
        }
    } else {
        assert(dw * sh / sw >= dh) by {
            assert(dw * sh >= dh * sw) by (nonlinear_arith)
                requires
                    sw * dh <= dw * sh,
            ;
            vstd::arithmetic::div_mod::lemma_div_is_ordered(dh * sw, dw * sh, sw);
            vstd::arithmetic::div_mod::lemma_div_multiples_vanish(dh, sw);
        }
    }
}

} // verus!

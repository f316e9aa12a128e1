use vstd::prelude::*;

verus! {

/// The geometry state of one destination surface: the configuration the
/// compositor last sent, and the size last applied to the rendering target.
/// Configuration events write the first part; the render loop reads it and
/// owns the second.
#[derive(Clone, Copy, Debug)]
pub struct SurfaceData {
    /// At least one configuration event has arrived.
    pub configured: bool,
    /// The size the compositor asks for.
    pub pending_size: (u32, u32),
    /// The size of the rendering target.
    pub width: u32,
    pub height: u32,
}

impl SurfaceData {
    /// The state after a configuration of `width`×`height`; a zero in either
    /// means "no preference" and keeps the pending size.
    pub open spec fn configured_with(self, width: u32, height: u32) -> SurfaceData {
        SurfaceData {
            configured: true,
            pending_size: if width > 0 && height > 0 {
                (width, height)
            } else {
                self.pending_size
            },
            ..self
        }
    }

    /// The rendering target does not have the pending size.
    pub open spec fn needs_resize(self) -> bool {
        self.pending_size != (self.width, self.height)
    }

    /// The state once the rendering target has the pending size.
    pub open spec fn resized(self) -> SurfaceData {
        SurfaceData { width: self.pending_size.0, height: self.pending_size.1, ..self }
    }

    /// A surface created at `width`×`height`, not yet configured.
    pub fn new(width: u32, height: u32) -> (r: SurfaceData)
        ensures
            r == (SurfaceData {
                configured: false,
                pending_size: (width, height),
                width,
                height,
            }),
    {
        SurfaceData { configured: false, pending_size: (width, height), width, height }
    }

    /// Records a configuration event (the caller acknowledges its serial).
    pub fn configure(&mut self, width: u32, height: u32)
        ensures
            *final(self) == old(self).configured_with(width, height),
    {
        if width > 0 && height > 0 {
            self.pending_size = (width, height);
        }
        self.configured = true;
    }

    pub fn is_configured(&self) -> (r: bool)
        ensures
            r == self.configured,
    {
        self.configured
    }

    /// Adopts the pending size if it differs from the current one; returns
    /// whether it did, in which case the caller resizes the rendering target
    /// to `width`×`height`.
    pub fn resize_if_needed(&mut self) -> (r: bool)
        ensures
            r == old(self).needs_resize(),
            *final(self) == old(self).resized(),
    {
        let (w, h) = self.pending_size;
        if w != self.width || h != self.height {
            self.width = w;
            self.height = h;
            true
        } else {
            false
        }
    }
}

/// Resizing twice with no configuration in between resizes at most once:
/// after the first call the size is current, so the second reports no
/// change and changes nothing.
pub proof fn lemma_resize_idempotent(s: SurfaceData)
    ensures
        !s.resized().needs_resize(),
        s.resized().resized() == s.resized(),
{
}

/// A configuration with a new non-zero size makes the next resize happen,
/// to exactly that size; one with a zero dimension never does by itself.
pub proof fn lemma_configure_then_resize(s: SurfaceData, width: u32, height: u32)
    ensures
        width > 0 && height > 0 && (width, height) != (s.width, s.height) ==> s.configured_with(
            width,
            height,
        ).needs_resize() && s.configured_with(width, height).resized().width == width
            && s.configured_with(width, height).resized().height == height,
        (width == 0 || height == 0) ==> s.configured_with(width, height).needs_resize()
            == s.needs_resize(),
        s.configured_with(width, height).configured,
{
}

} // verus!

use vstd::prelude::*;

verus! {

/// Descriptor value of a plane slot that no plane event has filled yet.
pub const NO_FD: i32 = -1;

/// One plane of a GPU buffer: the descriptor it lives in, where it starts in
/// that buffer and how many bytes one row takes.
#[derive(Clone, Copy, Debug, PartialEq, Eq, Structural)]
pub struct DmabufPlane {
    pub fd: i32,
    pub offset: u32,
    pub stride: u32,
    pub modifier: u64,
}

/// The placeholder standing in a plane slot below the highest index seen.
pub open spec fn empty_plane() -> DmabufPlane {
    DmabufPlane { fd: NO_FD, offset: 0, stride: 0, modifier: 0 }
}

/// `planes` grown with placeholders until `index` is a valid slot, then
/// with `plane` stored in that slot.
pub open spec fn placed(planes: Seq<DmabufPlane>, index: int, plane: DmabufPlane) -> Seq<
    DmabufPlane,
> {
    let grown = if index < planes.len() {
        planes
    } else {
        planes + Seq::new((index + 1 - planes.len()) as nat, |_i: int| empty_plane())
    };
    grown.update(index, plane)
}

/// A completed capture. It owns `fds`, which must stay open until the frame
/// has been imported and are then the caller's to close.
#[derive(Debug)]
pub struct CapturedFrame {
    pub width: u32,
    pub height: u32,
    pub format: u32,
    pub planes: Vec<DmabufPlane>,
    pub fds: Vec<i32>,
}

pub struct FrameView {
    pub width: u32,
    pub height: u32,
    pub format: u32,
    pub planes: Seq<DmabufPlane>,
    pub fds: Seq<i32>,
}

impl View for CapturedFrame {
    type V = FrameView;

    open spec fn view(&self) -> FrameView {
        FrameView {
            width: self.width,
            height: self.height,
            format: self.format,
            planes: self.planes@,
            fds: self.fds@,
        }
    }
}

pub open spec fn frame_view(f: Option<CapturedFrame>) -> Option<FrameView> {
    match f {
        Some(f) => Some(f@),
        None => None,
    }
}

/// A message of the capture protocol about one capture request.
#[derive(Clone, Copy, Debug, PartialEq, Eq, Structural)]
pub enum CaptureEvent {
    /// Buffer metadata: size, four-character pixel format and plane count.
    Frame { width: u32, height: u32, format: u32, num_objects: u32 },
    /// One plane, with a descriptor that is handed over to this process.
    Object { index: u32, fd: i32, offset: u32, stride: u32 },
    /// The buffer holds a complete frame.
    Ready,
    /// The compositor gave up on this capture.
    Cancel,
}

impl CaptureEvent {
    /// The descriptor an event hands over, if any.
    pub open spec fn received(self) -> Seq<i32> {
        match self {
            CaptureEvent::Object { fd, .. } => seq![fd],
            _ => Seq::empty(),
        }
    }

    pub open spec fn is_terminal(self) -> bool {
        self is Ready || self is Cancel
    }
}

/// What the caller must do after an event: destroy the one-shot protocol
/// object, and close the descriptors the capture no longer owns.
pub struct CaptureAction {
    pub destroy: bool,
    pub released: Vec<i32>,
}

/// The fields of one capture session.
pub struct FrameCaptureState {
    pub frame: Option<CapturedFrame>,
    pub width: u32,
    pub height: u32,
    pub format: u32,
    pub num_objects: u32,
    pub planes: Vec<DmabufPlane>,
    pub fds: Vec<i32>,
    pub done: bool,
    pub cancelled: bool,
}

pub struct CaptureStateView {
    pub frame: Option<FrameView>,
    pub width: u32,
    pub height: u32,
    pub format: u32,
    pub num_objects: u32,
    pub planes: Seq<DmabufPlane>,
    pub fds: Seq<i32>,
    pub done: bool,
    pub cancelled: bool,
}

impl View for FrameCaptureState {
    type V = CaptureStateView;

    open spec fn view(&self) -> CaptureStateView {
        CaptureStateView {
            frame: frame_view(self.frame),
            width: self.width,
            height: self.height,
            format: self.format,
            num_objects: self.num_objects,
            planes: self.planes@,
            fds: self.fds@,
            done: self.done,
            cancelled: self.cancelled,
        }
    }
}

impl CaptureStateView {
    pub open spec fn initial() -> CaptureStateView {
        CaptureStateView {
            frame: None,
            width: 0,
            height: 0,
            format: 0,
            num_objects: 0,
            planes: Seq::empty(),
            fds: Seq::empty(),
            done: false,
            cancelled: false,
        }
    }

    pub open spec fn is_done(self) -> bool {
        self.done || self.cancelled
    }

    /// Descriptors held by the produced frame that nobody has taken yet.
    pub open spec fn frame_fds(self) -> Seq<i32> {
        match self.frame {
            Some(f) => f.fds,
            None => Seq::empty(),
        }
    }

    /// Every descriptor this session owns.
    pub open spec fn open_fds(self) -> Seq<i32> {
        self.fds + self.frame_fds()
    }

    /// A frame exists only once the session is ready; a finished session
    /// owns no loose descriptors; a cancelled one produced no frame.
    pub open spec fn wf(self) -> bool {
        &&& (self.frame is Some ==> self.done)
        &&& (self.done ==> self.fds.len() == 0)
        &&& (self.cancelled ==> self.fds.len() == 0 && self.frame is None)
    }

    /// The frame that a Ready event would produce now.
    pub open spec fn accumulated(self) -> FrameView {
        FrameView {
            width: self.width,
            height: self.height,
            format: self.format,
            planes: self.planes,
            fds: self.fds,
        }
    }

    /// The session after `ev`. Once the session is done, events change nothing.
    pub open spec fn applied(self, ev: CaptureEvent) -> CaptureStateView {
        if self.is_done() {
            self
        } else {
            match ev {
                CaptureEvent::Frame { width, height, format, num_objects } => CaptureStateView {
                    width,
                    height,
                    format,
                    num_objects,
                    ..self
                },
                CaptureEvent::Object { index, fd, offset, stride } => CaptureStateView {
                    planes: placed(
                        self.planes,
                        index as int,
                        DmabufPlane { fd, offset, stride, modifier: 0 },
                    ),
                    fds: self.fds.push(fd),
                    ..self
                },
                CaptureEvent::Ready => CaptureStateView {
                    frame: Some(self.accumulated()),
                    planes: Seq::empty(),
                    fds: Seq::empty(),
                    done: true,
                    ..self
                },
                CaptureEvent::Cancel => CaptureStateView {
                    planes: Seq::empty(),
                    fds: Seq::empty(),
                    cancelled: true,
                    ..self
                },
            }
        }
    }

    /// Descriptors that `ev` leaves for the caller to close: those of a
    /// cancelled session, and any handed over after the session ended.
    pub open spec fn released_by(self, ev: CaptureEvent) -> Seq<i32> {
        if self.is_done() {
            ev.received()
        } else {
            match ev {
                CaptureEvent::Cancel => self.fds,
                _ => Seq::empty(),
            }
        }
    }
}

impl FrameCaptureState {
    pub fn new() -> (r: FrameCaptureState)
        ensures
            r@ == CaptureStateView::initial(),
    {
        FrameCaptureState {
            frame: None,
            width: 0,
            height: 0,
            format: 0,
            num_objects: 0,
            planes: Vec::new(),
            fds: Vec::new(),
            done: false,
            cancelled: false,
        }
    }

    /// Clears every field; returns the descriptors the session owned,
    /// including those of a frame nobody took, for the caller to close.
    pub fn reset(&mut self) -> (released: Vec<i32>)
        ensures
            final(self)@ == CaptureStateView::initial(),
            released@ == old(self)@.open_fds(),
    {
        let mut released: Vec<i32> = Vec::new();
        std::mem::swap(&mut released, &mut self.fds);
        match self.frame.take() {
            Some(f) => {
                let mut frame_fds = f.fds;
                released.append(&mut frame_fds);
            },
            None => {},
        }
        self.width = 0;
        self.height = 0;
        self.format = 0;
        self.num_objects = 0;
        self.planes.clear();
        self.done = false;
        self.cancelled = false;
        proof {
            assert(self@.planes =~= Seq::<DmabufPlane>::empty());
        }
        released
    }

    fn place_plane(&mut self, index: u32, plane: DmabufPlane)
        ensures
            final(self)@ == (CaptureStateView {
                planes: placed(old(self)@.planes, index as int, plane),
                ..old(self)@
            }),
    {
        let ghost start = self.planes@;
        while self.planes.len() <= index as usize
            invariant
                start.len() <= self.planes@.len(),
                self.planes@.len() <= index as int + 1 || self.planes@.len() == start.len(),
                self.planes@ =~= start + Seq::new(
                    (self.planes@.len() - start.len()) as nat,
                    |_i: int| empty_plane(),
                ),
                self@ == (CaptureStateView { planes: self.planes@, ..old(self)@ }),
            decreases index as int + 1 - self.planes@.len(),
        {
            self.planes.push(empty_plane_value());
        }
        let i = index as usize;
        self.planes[i] = plane;
        proof {
            if (index as int) < start.len() {
                assert(self.planes@.len() == start.len());
            }
            assert(self@.planes =~= placed(start, index as int, plane));
        }
    }

    /// Applies one event of this session.
    pub fn apply(&mut self, ev: CaptureEvent) -> (released: Vec<i32>)
        ensures
            final(self)@ == old(self)@.applied(ev),
            released@ == old(self)@.released_by(ev),
            old(self)@.wf() ==> final(self)@.wf(),
    {
        if self.done || self.cancelled {
            let mut released: Vec<i32> = Vec::new();
            match ev {
                CaptureEvent::Object { fd, .. } => {
                    released.push(fd);
                },
                _ => {},
            }
            proof {
                assert(released@ =~= ev.received());
            }
            return released;
        }
        match ev {
            CaptureEvent::Frame { width, height, format, num_objects } => {
                self.width = width;
                self.height = height;
                self.format = format;
                self.num_objects = num_objects;
                Vec::new()
            },
            CaptureEvent::Object { index, fd, offset, stride } => {
                self.place_plane(index, DmabufPlane { fd, offset, stride, modifier: 0 });
                self.fds.push(fd);
                Vec::new()
            },
            CaptureEvent::Ready => {
                let mut planes: Vec<DmabufPlane> = Vec::new();
                let mut fds: Vec<i32> = Vec::new();
                std::mem::swap(&mut planes, &mut self.planes);
                std::mem::swap(&mut fds, &mut self.fds);
                self.frame = Some(
                    CapturedFrame {
                        width: self.width,
                        height: self.height,
                        format: self.format,
                        planes,
                        fds,
                    },
                );
                self.done = true;
                proof {
                    assert(self@.planes =~= Seq::<DmabufPlane>::empty());
                    assert(self@.fds =~= Seq::<i32>::empty());
                }
                Vec::new()
            },
            CaptureEvent::Cancel => {
                let mut released: Vec<i32> = Vec::new();
                std::mem::swap(&mut released, &mut self.fds);
                self.planes.clear();
                self.cancelled = true;
                proof {
                    assert(self@.planes =~= Seq::<DmabufPlane>::empty());
                    assert(self@.fds =~= Seq::<i32>::empty());
                }
                released
            },
        }
    }
}

/// The token of the session that follows the one tagged `current`.
pub open spec fn next_session(current: Option<u64>) -> u64 {
    match current {
        None => 0,
        Some(t) => if t == u64::MAX {
            0
        } else {
            (t + 1) as u64
        },
    }
}

/// What the caller needs to issue a capture request.
pub struct CaptureRequest {
    /// Token that tags every event of the new session.
    pub session: u64,
    /// The capture-option word: 1 to include the cursor, 0 otherwise.
    pub overlay_cursor: i32,
    /// Descriptors of the previous session, for the caller to close.
    pub released: Vec<i32>,
}

/// Capture of one frame at a time from a source output. Events are
/// attributed by the session token handed out at request time.
pub struct DmabufCapture {
    pub capture_state: FrameCaptureState,
    pub session: Option<u64>,
}

pub struct CaptureView {
    pub session: Option<u64>,
    pub state: CaptureStateView,
}

impl View for DmabufCapture {
    type V = CaptureView;

    open spec fn view(&self) -> CaptureView {
        CaptureView { session: self.session, state: self.capture_state@ }
    }
}

impl CaptureView {
    pub open spec fn wf(self) -> bool {
        self.state.wf()
    }

    pub open spec fn is_done(self) -> bool {
        self.state.is_done()
    }

    pub open spec fn open_fds(self) -> Seq<i32> {
        self.state.open_fds()
    }

    /// The capture after a new request: a fresh token and an empty session.
    pub open spec fn requested(self) -> CaptureView {
        CaptureView { session: Some(next_session(self.session)), state: CaptureStateView::initial() }
    }

    /// Whether an event tagged `session` belongs to the active session.
    pub open spec fn accepts(self, session: u64) -> bool {
        self.session == Some(session)
    }

    /// The capture after an event tagged `session`; events of any other
    /// session are ignored.
    pub open spec fn after(self, session: u64, ev: CaptureEvent) -> CaptureView {
        if self.accepts(session) {
            CaptureView { state: self.state.applied(ev), ..self }
        } else {
            self
        }
    }

    /// Descriptors the caller must close after an event tagged `session`.
    pub open spec fn released_after(self, session: u64, ev: CaptureEvent) -> Seq<i32> {
        if self.accepts(session) {
            self.state.released_by(ev)
        } else {
            ev.received()
        }
    }

    /// The capture once its frame has been handed out.
    pub open spec fn taken(self) -> CaptureView {
        CaptureView { state: CaptureStateView { frame: None, ..self.state }, ..self }
    }
}

impl DmabufCapture {
    pub fn new() -> (r: DmabufCapture)
        ensures
            r@ == (CaptureView { session: None, state: CaptureStateView::initial() }),
            r@.wf(),
    {
        DmabufCapture { capture_state: FrameCaptureState::new(), session: None }
    }

    /// Starts a new session: clears the previous one, whose descriptors are
    /// returned for closing, and hands out the token of the new one.
    pub fn request_frame(&mut self, include_cursor: bool) -> (r: CaptureRequest)
        ensures
            final(self)@ == old(self)@.requested(),
            final(self)@.wf(),
            final(self)@.session == Some(r.session),
            r.overlay_cursor == (if include_cursor {
                1i32
            } else {
                0i32
            }),
            r.released@ == old(self)@.open_fds(),
    {
        let released = self.capture_state.reset();
        let session: u64 = match self.session {
            None => 0,
            Some(t) => if t == u64::MAX {
                0
            } else {
                t + 1
            },
        };
        self.session = Some(session);
        let overlay_cursor: i32 = if include_cursor {
            1
        } else {
            0
        };
        CaptureRequest { session, overlay_cursor, released }
    }

    /// Handles one protocol event tagged with the token of the session it
    /// belongs to.
    pub fn handle_event(&mut self, session: u64, ev: CaptureEvent) -> (r: CaptureAction)
        ensures
            final(self)@ == old(self)@.after(session, ev),
            r.released@ == old(self)@.released_after(session, ev),
            r.destroy == ev.is_terminal(),
            old(self)@.wf() ==> final(self)@.wf(),
    {
        let destroy = match ev {
            CaptureEvent::Ready => true,
            CaptureEvent::Cancel => true,
            _ => false,
        };
        let accepted = match self.session {
            Some(t) => t == session,
            None => false,
        };
        if accepted {
            let released = self.capture_state.apply(ev);
            CaptureAction { destroy, released }
        } else {
            let mut released: Vec<i32> = Vec::new();
            match ev {
                CaptureEvent::Object { fd, .. } => {
                    released.push(fd);
                },
                _ => {},
            }
            proof {
                assert(released@ =~= ev.received());
            }
            CaptureAction { destroy, released }
        }
    }

    /// The session has reached Ready or Cancelled.
    pub fn is_done(&self) -> (r: bool)
        ensures
            r == self@.is_done(),
    {
        self.capture_state.done || self.capture_state.cancelled
    }

    /// Hands out the produced frame once; afterwards nothing until the next
    /// session is ready.
    pub fn take_frame(&mut self) -> (r: Option<CapturedFrame>)
        ensures
            frame_view(r) == old(self)@.state.frame,
            final(self)@ == old(self)@.taken(),
            old(self)@.wf() ==> final(self)@.wf(),
    {
        self.capture_state.frame.take()
    }
}

fn empty_plane_value() -> (r: DmabufPlane)
    ensures
        r == empty_plane(),
{
    DmabufPlane { fd: NO_FD, offset: 0, stride: 0, modifier: 0 }
}

} // verus!

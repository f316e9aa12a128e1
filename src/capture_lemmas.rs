use vstd::prelude::*;
use vstd::seq_lib::*;
use vstd::multiset::*;

use crate::capture::{empty_plane, CaptureEvent, CaptureStateView, CaptureView, DmabufPlane, NO_FD};

verus! {

broadcast use {group_to_multiset_ensures, group_multiset_axioms};

impl CaptureStateView {
    /// The session after each of `evs` in turn.
    pub open spec fn run(self, evs: Seq<CaptureEvent>) -> CaptureStateView
        decreases evs.len(),
    {
        if evs.len() == 0 {
            self
        } else {
            self.run(evs.drop_last()).applied(evs.last())
        }
    }
}

impl CaptureView {
    /// The capture after each of the tagged events `evs` in turn.
    pub open spec fn run(self, evs: Seq<(u64, CaptureEvent)>) -> CaptureView
        decreases evs.len(),
    {
        if evs.len() == 0 {
            self
        } else {
            let (t, ev) = evs.last();
            self.run(evs.drop_last()).after(t, ev)
        }
    }

    /// All descriptors left for the caller to close while handling `evs`.
    pub open spec fn released_run(self, evs: Seq<(u64, CaptureEvent)>) -> Seq<i32>
        decreases evs.len(),
    {
        if evs.len() == 0 {
            Seq::empty()
        } else {
            let (t, ev) = evs.last();
            self.released_run(evs.drop_last()) + self.run(evs.drop_last()).released_after(t, ev)
        }
    }
}

/// Every descriptor handed over by the tagged events `evs`.
pub open spec fn received_all(evs: Seq<(u64, CaptureEvent)>) -> Seq<i32>
    decreases evs.len(),
{
    if evs.len() == 0 {
        Seq::empty()
    } else {
        received_all(evs.drop_last()) + evs.last().1.received()
    }
}

/// The events of `evs` tagged with `session`, in order, without their tag.
pub open spec fn events_of(evs: Seq<(u64, CaptureEvent)>, session: u64) -> Seq<CaptureEvent>
    decreases evs.len(),
{
    if evs.len() == 0 {
        Seq::empty()
    } else if evs.last().0 == session {
        events_of(evs.drop_last(), session).push(evs.last().1)
    } else {
        events_of(evs.drop_last(), session)
    }
}

pub proof fn lemma_applied_wf(st: CaptureStateView, ev: CaptureEvent)
    requires
        st.wf(),
    ensures
        st.applied(ev).wf(),
{
}

/// One event neither creates nor loses a descriptor: what the session owned
/// plus what the event handed over is what it owns now plus what it released.
pub proof fn lemma_applied_accounting(st: CaptureStateView, ev: CaptureEvent)
    requires
        st.wf(),
    ensures
        st.applied(ev).open_fds().to_multiset().add(st.released_by(ev).to_multiset())
            =~= st.open_fds().to_multiset().add(ev.received().to_multiset()),
{
    let n = st.applied(ev);
    if st.is_done() {
    } else {
        assert(st.frame_fds() =~= Seq::<i32>::empty());
        assert(st.open_fds() =~= st.fds);
        match ev {
            CaptureEvent::Object { fd, .. } => {
                assert(n.open_fds() =~= st.fds.push(fd));
                assert(ev.received() =~= seq![fd]);
                assert(seq![fd].to_multiset() =~= Multiset::<i32>::empty().insert(fd)) by {
                    assert(seq![fd] =~= Seq::<i32>::empty().push(fd));
                }
            },
            CaptureEvent::Ready => {
                assert(n.open_fds() =~= st.fds);
            },
            CaptureEvent::Cancel => {
                assert(n.open_fds() =~= Seq::<i32>::empty());
            },
            CaptureEvent::Frame { .. } => {},
        }
    }
}

pub proof fn lemma_after_wf(c: CaptureView, t: u64, ev: CaptureEvent)
    requires
        c.wf(),
    ensures
        c.after(t, ev).wf(),
{
    lemma_applied_wf(c.state, ev);
}

pub proof fn lemma_after_accounting(c: CaptureView, t: u64, ev: CaptureEvent)
    requires
        c.wf(),
    ensures
        c.after(t, ev).open_fds().to_multiset().add(c.released_after(t, ev).to_multiset())
            =~= c.open_fds().to_multiset().add(ev.received().to_multiset()),
{
    if c.accepts(t) {
        lemma_applied_accounting(c.state, ev);
    }
}

pub proof fn lemma_run_wf(c: CaptureView, evs: Seq<(u64, CaptureEvent)>)
    requires
        c.wf(),
    ensures
        c.run(evs).wf(),
        c.run(evs).session == c.session,
    decreases evs.len(),
{
    if evs.len() > 0 {
        lemma_run_wf(c, evs.drop_last());
        lemma_after_wf(c.run(evs.drop_last()), evs.last().0, evs.last().1);
    }
}

/// A session's events alone decide its state: events tagged with any other
/// token leave no trace.
pub proof fn lemma_run_only_own_events(c: CaptureView, evs: Seq<(u64, CaptureEvent)>)
    requires
        c.session is Some,
    ensures
        c.run(evs).session == c.session,
        c.run(evs).state == c.state.run(events_of(evs, c.session->0)),
    decreases evs.len(),
{
    if evs.len() > 0 {
        let tok = c.session->0;
        lemma_run_only_own_events(c, evs.drop_last());
        let pre = events_of(evs.drop_last(), tok);
        if evs.last().0 == tok {
            assert(events_of(evs, tok).drop_last() =~= pre);
        }
    }
}

/// Descriptor accounting over any run of events: every descriptor handed
/// over is, at the end, either still owned by the capture or released to
/// the caller, and nothing else is.
pub proof fn lemma_run_accounting(c: CaptureView, evs: Seq<(u64, CaptureEvent)>)
    requires
        c.wf(),
    ensures
        c.run(evs).open_fds().to_multiset().add(c.released_run(evs).to_multiset())
            =~= c.open_fds().to_multiset().add(received_all(evs).to_multiset()),
    decreases evs.len(),
{
    if evs.len() > 0 {
        let pre = evs.drop_last();
        let (t, ev) = evs.last();
        lemma_run_accounting(c, pre);
        lemma_run_wf(c, pre);
        let mid = c.run(pre);
        lemma_after_accounting(mid, t, ev);
        let r1 = c.released_run(pre);
        let r2 = mid.released_after(t, ev);
        let x = received_all(pre);
        let y = ev.received();
        lemma_multiset_commutative(r1, r2);
        lemma_multiset_commutative(x, y);
        assert(c.released_run(evs) == r1 + r2);
        assert(received_all(evs) == x + y);
        assert(c.run(evs) == mid.after(t, ev));
        let n = mid.after(t, ev).open_fds().to_multiset();
        let a = mid.open_fds().to_multiset();
        let o = c.open_fds().to_multiset();
        assert(n.add(r1.to_multiset().add(r2.to_multiset())) =~= n.add(r2.to_multiset()).add(
            r1.to_multiset(),
        ));
        assert(a.add(y.to_multiset()).add(r1.to_multiset()) =~= a.add(r1.to_multiset()).add(
            y.to_multiset(),
        ));
        assert(o.add(x.to_multiset()).add(y.to_multiset()) =~= o.add(
            x.to_multiset().add(y.to_multiset()),
        ));
    }
}

/// Every descriptor handed over by `evs`.
pub open spec fn received_of(evs: Seq<CaptureEvent>) -> Seq<i32>
    decreases evs.len(),
{
    if evs.len() == 0 {
        Seq::empty()
    } else {
        received_of(evs.drop_last()) + evs.last().received()
    }
}

/// `evs`, each tagged with `session`.
pub open spec fn tagged_with(evs: Seq<CaptureEvent>, session: u64) -> Seq<(u64, CaptureEvent)> {
    evs.map_values(|ev: CaptureEvent| (session, ev))
}

proof fn lemma_tagged_with(own: Seq<CaptureEvent>, tok: u64)
    ensures
        events_of(tagged_with(own, tok), tok) == own,
        received_all(tagged_with(own, tok)) == received_of(own),
    decreases own.len(),
{
    let tagged = tagged_with(own, tok);
    if own.len() == 0 {
        assert(tagged.len() == 0);
        assert(events_of(tagged, tok) =~= own);
    } else {
        lemma_tagged_with(own.drop_last(), tok);
        assert(tagged.drop_last() =~= tagged_with(own.drop_last(), tok));
        assert(events_of(tagged, tok) =~= own);
    }
}

/// A new request discards the previous session: it owns nothing, its token
/// differs from the previous one, and every descriptor that was owned is
/// released (see `DmabufCapture::request_frame`). Whatever events follow,
/// the new session's state, and so any frame it produces, is decided by the
/// events tagged with its own token alone, and every descriptor it owns was
/// handed over by one of those events.
pub proof fn lemma_single_active_session(c: CaptureView, evs: Seq<(u64, CaptureEvent)>)
    requires
        c.wf(),
    ensures
        c.requested().open_fds() == Seq::<i32>::empty(),
        c.requested().session != c.session,
        c.requested().run(evs).state == CaptureStateView::initial().run(
            events_of(evs, c.requested().session->0),
        ),
        c.requested().run(evs).open_fds().to_multiset().subset_of(
            received_of(events_of(evs, c.requested().session->0)).to_multiset(),
        ),
{
    let s = c.requested();
    let tok = s.session->0;
    assert(s.open_fds() =~= Seq::<i32>::empty());
    lemma_run_only_own_events(s, evs);
    let own = events_of(evs, tok);
    let tagged = tagged_with(own, tok);
    lemma_tagged_with(own, tok);
    lemma_run_only_own_events(s, tagged);
    lemma_run_accounting(s, tagged);
    let held = s.run(tagged).open_fds().to_multiset();
    let rel = s.released_run(tagged).to_multiset();
    assert(s.run(evs).open_fds() == s.run(tagged).open_fds());
    assert(held.add(rel) =~= received_of(own).to_multiset());
    assert forall|x: i32| held.count(x) <= received_of(own).to_multiset().count(x) by {
        assert(held.add(rel).count(x) == held.count(x) + rel.count(x));
    }
}

/// Once a session is done, no event changes the capture.
pub proof fn lemma_done_is_final(c: CaptureView, evs: Seq<(u64, CaptureEvent)>)
    requires
        c.is_done(),
    ensures
        c.run(evs) == c,
    decreases evs.len(),
{
    if evs.len() > 0 {
        lemma_done_is_final(c, evs.drop_last());
    }
}

/// Descriptor accounting over one capture cycle: the request releases all
/// that was owned before, every descriptor handed over afterwards is either
/// still owned or released, and once the session is done the only
/// descriptors owned are those of the produced frame that nobody has taken
/// yet; once it is taken (and closed by its taker after import) the capture
/// owns none, so repeated cycles never accumulate descriptors.
pub proof fn lemma_descriptor_accounting(c: CaptureView, evs: Seq<(u64, CaptureEvent)>)
    requires
        c.wf(),
    ensures
        c.requested().open_fds() == Seq::<i32>::empty(),
        c.requested().run(evs).open_fds().to_multiset().add(
            c.requested().released_run(evs).to_multiset(),
        ) =~= received_all(evs).to_multiset(),
        c.requested().run(evs).is_done() ==> c.requested().run(evs).open_fds()
            == c.requested().run(evs).state.frame_fds(),
        c.requested().run(evs).is_done() ==> c.requested().run(evs).taken().open_fds()
            == Seq::<i32>::empty(),
{
    let s = c.requested();
    assert(s.open_fds() =~= Seq::<i32>::empty());
    lemma_run_accounting(s, evs);
    lemma_run_wf(s, evs);
    let e = s.run(evs);
    if e.is_done() {
        assert(e.open_fds() =~= e.state.frame_fds());
        assert(e.taken().open_fds() =~= Seq::<i32>::empty());
    }
}

proof fn lemma_no_ready(evs: Seq<CaptureEvent>)
    requires
        !evs.contains(CaptureEvent::Ready),
    ensures
        CaptureStateView::initial().run(evs).frame is None,
        !CaptureStateView::initial().run(evs).done,
        CaptureStateView::initial().run(evs).cancelled == evs.contains(CaptureEvent::Cancel),
    decreases evs.len(),
{
    if evs.len() > 0 {
        let pre = evs.drop_last();
        assert(!pre.contains(CaptureEvent::Ready)) by {
            if pre.contains(CaptureEvent::Ready) {
                let i = choose|i: int| 0 <= i < pre.len() && pre[i] == CaptureEvent::Ready;
                assert(evs[i] == CaptureEvent::Ready);
            }
        }
        lemma_no_ready(pre);
        assert(evs.last() != CaptureEvent::Ready) by {
            assert(evs[evs.len() - 1] == evs.last());
        }
        if pre.contains(CaptureEvent::Cancel) {
            let i = choose|i: int| 0 <= i < pre.len() && pre[i] == CaptureEvent::Cancel;
            assert(evs[i] == CaptureEvent::Cancel);
        } else if evs.last() == CaptureEvent::Cancel {
            assert(evs[evs.len() - 1] == CaptureEvent::Cancel);
        } else {
            assert(!evs.contains(CaptureEvent::Cancel)) by {
                if evs.contains(CaptureEvent::Cancel) {
                    let i = choose|i: int| 0 <= i < evs.len() && evs[i] == CaptureEvent::Cancel;
                    if i < evs.len() - 1 {
                        assert(pre[i] == CaptureEvent::Cancel);
                    }
                }
            }
        }
    }
}

/// When a session receives a Cancel and no Ready, it is done and has no
/// frame to hand out.
pub proof fn lemma_cancel_yields_no_frame(c: CaptureView, evs: Seq<(u64, CaptureEvent)>)
    requires
        c.wf(),
        events_of(evs, c.requested().session->0).contains(CaptureEvent::Cancel),
        !events_of(evs, c.requested().session->0).contains(CaptureEvent::Ready),
    ensures
        c.requested().run(evs).is_done(),
        c.requested().run(evs).state.frame is None,
{
    let s = c.requested();
    lemma_run_only_own_events(s, evs);
    lemma_no_ready(events_of(evs, s.session->0));
}

/// A Ready event on an active session produces the accumulated frame; it is
/// handed out once, and afterwards no event yields another frame until a
/// new request.
pub proof fn lemma_ready_yields_one_frame(
    c: CaptureView,
    session: u64,
    evs: Seq<(u64, CaptureEvent)>,
)
    requires
        c.wf(),
        c.accepts(session),
        !c.is_done(),
    ensures
        c.after(session, CaptureEvent::Ready).is_done(),
        c.after(session, CaptureEvent::Ready).state.frame == Some(c.state.accumulated()),
        c.after(session, CaptureEvent::Ready).taken().run(evs).state.frame is None,
        c.after(session, CaptureEvent::Ready).taken().run(evs).taken() == c.after(
            session,
            CaptureEvent::Ready,
        ).taken(),
{
    let d = c.after(session, CaptureEvent::Ready).taken();
    lemma_done_is_final(d, evs);
}

/// The slot index that a plane event names.
pub open spec fn index_of(ev: CaptureEvent) -> int {
    match ev {
        CaptureEvent::Object { index, .. } => index as int,
        _ => 0,
    }
}

/// The plane that a plane event describes.
pub open spec fn plane_of(ev: CaptureEvent) -> DmabufPlane {
    match ev {
        CaptureEvent::Object { fd, offset, stride, .. } => DmabufPlane {
            fd,
            offset,
            stride,
            modifier: 0,
        },
        _ => empty_plane(),
    }
}

/// Some event of `evs` names slot `i`.
pub open spec fn names_slot(evs: Seq<CaptureEvent>, i: int) -> bool {
    exists|j: int| 0 <= j < evs.len() && index_of(#[trigger] evs[j]) == i
}

/// One past the highest slot index named in `evs`.
pub open spec fn span(evs: Seq<CaptureEvent>) -> int
    decreases evs.len(),
{
    if evs.len() == 0 {
        0
    } else if span(evs.drop_last()) > index_of(evs.last()) {
        span(evs.drop_last())
    } else {
        index_of(evs.last()) + 1
    }
}

proof fn lemma_planes_placed(evs: Seq<CaptureEvent>)
    requires
        forall|j: int| 0 <= j < evs.len() ==> (#[trigger] evs[j]) is Object,
        forall|j: int, k: int|
            0 <= j < k < evs.len() ==> index_of(#[trigger] evs[j]) != index_of(#[trigger] evs[k]),
    ensures
        !CaptureStateView::initial().run(evs).is_done(),
        CaptureStateView::initial().run(evs).planes.len() == span(evs),
        forall|j: int|
            0 <= j < evs.len() ==> CaptureStateView::initial().run(evs).planes[index_of(
                #[trigger] evs[j],
            )] == plane_of(evs[j]),
        forall|j: int| 0 <= j < evs.len() ==> 0 <= index_of(#[trigger] evs[j]) < span(evs),
    decreases evs.len(),
{
    if evs.len() > 0 {
        let pre = evs.drop_last();
        assert forall|j: int| 0 <= j < pre.len() implies (#[trigger] pre[j]) is Object by {
            assert(pre[j] == evs[j]);
        }
        assert forall|j: int, k: int| 0 <= j < k < pre.len() implies index_of(
            #[trigger] pre[j],
        ) != index_of(#[trigger] pre[k]) by {
            assert(pre[j] == evs[j] && pre[k] == evs[k]);
        }
        lemma_planes_placed(pre);
        let last = evs.last();
        assert(last == evs[evs.len() - 1]);
        let before = CaptureStateView::initial().run(pre);
        let after = CaptureStateView::initial().run(evs);
        assert(after == before.applied(last));
        assert forall|j: int| 0 <= j < evs.len() implies after.planes[index_of(#[trigger] evs[j])]
            == plane_of(evs[j]) && 0 <= index_of(evs[j]) < span(evs) by {
            if j < evs.len() - 1 {
                assert(evs[j] == pre[j]);
                assert(index_of(evs[j]) != index_of(last));
            }
        }
    }
}

/// Plane events fill the slots their indices name, whatever order they
/// arrive in: when a session receives plane events whose indices are
/// exactly 0 to n-1, each once, it holds n planes, and the plane in slot i
/// is the one that the event with index i described.
pub proof fn lemma_plane_indexing(evs: Seq<CaptureEvent>)
    requires
        forall|j: int| 0 <= j < evs.len() ==> (#[trigger] evs[j]) is Object,
        forall|j: int| 0 <= j < evs.len() ==> index_of(#[trigger] evs[j]) < evs.len(),
        forall|j: int, k: int|
            0 <= j < k < evs.len() ==> index_of(#[trigger] evs[j]) != index_of(#[trigger] evs[k]),
        forall|i: int| 0 <= i < evs.len() ==> #[trigger] names_slot(evs, i),
    ensures
        CaptureStateView::initial().run(evs).planes.len() == evs.len(),
        forall|j: int|
            0 <= j < evs.len() ==> CaptureStateView::initial().run(evs).planes[index_of(
                #[trigger] evs[j],
            )] == plane_of(evs[j]),
{
    lemma_planes_placed(evs);
    lemma_span_bounded(evs, evs.len() as int);
    if evs.len() > 0 {
        let i = evs.len() - 1;
        assert(names_slot(evs, i));
        let j = choose|j: int| 0 <= j < evs.len() && index_of(#[trigger] evs[j]) == i;
        assert(index_of(evs[j]) < span(evs));
    }
}

proof fn lemma_span_bounded(evs: Seq<CaptureEvent>, bound: int)
    requires
        bound >= 0,
        forall|j: int| 0 <= j < evs.len() ==> index_of(#[trigger] evs[j]) < bound,
    ensures
        span(evs) <= bound,
    decreases evs.len(),
{
    if evs.len() > 0 {
        let pre = evs.drop_last();
        assert forall|j: int| 0 <= j < pre.len() implies index_of(#[trigger] pre[j]) < bound by {
            assert(pre[j] == evs[j]);
        }
        lemma_span_bounded(pre, bound);
        assert(evs.last() == evs[evs.len() - 1]);
    }
}

impl CaptureStateView {
    /// Every plane slot names a descriptor the session owns, or none; the
    /// same holds of the frame it produced.
    pub open spec fn planes_owned(self) -> bool {
        &&& forall|i: int|
            0 <= i < self.planes.len() ==> (#[trigger] self.planes[i]).fd == NO_FD
                || self.fds.contains(self.planes[i].fd)
        &&& self.frame matches Some(f) ==> forall|i: int|
            0 <= i < f.planes.len() ==> (#[trigger] f.planes[i]).fd == NO_FD || f.fds.contains(
                f.planes[i].fd,
            )
    }
}

pub proof fn lemma_applied_planes_owned(st: CaptureStateView, ev: CaptureEvent)
    requires
        st.planes_owned(),
    ensures
        st.applied(ev).planes_owned(),
{
    if !st.is_done() {
        match ev {
            CaptureEvent::Object { index, fd, offset, stride } => {
                let p = DmabufPlane { fd, offset, stride, modifier: 0 };
                let n = st.applied(ev);
                assert forall|i: int| 0 <= i < n.planes.len() implies (#[trigger] n.planes[i]).fd
                    == NO_FD || n.fds.contains(n.planes[i].fd) by {
                    if i == index as int {
                        assert(n.fds[st.fds.len() as int] == fd);
                    } else if i < st.planes.len() {
                        assert(n.planes[i] == st.planes[i]);
                        if st.planes[i].fd != NO_FD {
                            let k = choose|k: int|
                                0 <= k < st.fds.len() && st.fds[k] == st.planes[i].fd;
                            assert(n.fds[k] == st.fds[k]);
                        }
                    } else {
                        assert(n.planes[i] == empty_plane());
                    }
                }
            },
            _ => {},
        }
    }
}

proof fn lemma_run_planes_owned(st: CaptureStateView, evs: Seq<CaptureEvent>)
    requires
        st.planes_owned(),
    ensures
        st.run(evs).planes_owned(),
    decreases evs.len(),
{
    if evs.len() > 0 {
        lemma_run_planes_owned(st, evs.drop_last());
        lemma_applied_planes_owned(st.run(evs.drop_last()), evs.last());
    }
}

/// A frame produced after a request holds only descriptors handed over by
/// events tagged with that request's token, and each of its plane slots
/// names one of the frame's own descriptors or none. So no descriptor of an
/// earlier session, stale events included, ever reaches it.
pub proof fn lemma_frame_from_own_session(c: CaptureView, evs: Seq<(u64, CaptureEvent)>)
    requires
        c.wf(),
    ensures
        c.requested().run(evs).state.frame matches Some(f) ==> {
            &&& f.fds.to_multiset().subset_of(
                received_of(events_of(evs, c.requested().session->0)).to_multiset(),
            )
            &&& forall|i: int|
                0 <= i < f.planes.len() ==> (#[trigger] f.planes[i]).fd == NO_FD || f.fds.contains(
                    f.planes[i].fd,
                )
        },
{
    let s = c.requested();
    let tok = s.session->0;
    lemma_single_active_session(c, evs);
    lemma_run_only_own_events(s, evs);
    lemma_run_planes_owned(CaptureStateView::initial(), events_of(evs, tok));
    let e = s.run(evs);
    if let Some(f) = e.state.frame {
        lemma_multiset_commutative(e.state.fds, f.fds);
        assert(e.open_fds() == e.state.fds + f.fds);
        let held = e.open_fds().to_multiset();
        assert forall|x: i32| f.fds.to_multiset().count(x) <= received_of(
            events_of(evs, tok),
        ).to_multiset().count(x) by {
            assert(held.count(x) == e.state.fds.to_multiset().count(x) + f.fds.to_multiset().count(
                x,
            ));
        }
    }
}

/// The capture after whole cycles, each a request, the events that follow
/// it, and the hand-out of whatever frame it produced.
pub open spec fn after_cycles(c: CaptureView, cycles: Seq<Seq<(u64, CaptureEvent)>>) -> CaptureView
    decreases cycles.len(),
{
    if cycles.len() == 0 {
        c
    } else {
        after_cycles(c, cycles.drop_last()).requested().run(cycles.last()).taken()
    }
}

/// Descriptors never pile up over repeated cycles: after any number of
/// them, the capture owns at most what the last cycle handed over, and
/// nothing at all once that cycle was cancelled or its frame handed out.
pub proof fn lemma_no_growth_over_cycles(c: CaptureView, cycles: Seq<Seq<(u64, CaptureEvent)>>)
    requires
        c.wf(),
    ensures
        after_cycles(c, cycles).wf(),
        cycles.len() > 0 ==> after_cycles(c, cycles).open_fds().len() <= received_all(
            cycles.last(),
        ).len(),
        cycles.len() > 0 && after_cycles(c, cycles).is_done() ==> after_cycles(c, cycles).open_fds()
            == Seq::<i32>::empty(),
    decreases cycles.len(),
{
    if cycles.len() > 0 {
        lemma_no_growth_over_cycles(c, cycles.drop_last());
        let prev = after_cycles(c, cycles.drop_last());
        let s = prev.requested();
        lemma_descriptor_accounting(prev, cycles.last());
        lemma_run_wf(s, cycles.last());
        let e = s.run(cycles.last());
        let r = e.taken();
        assert(r.open_fds() =~= e.state.fds);
        assert(e.open_fds() == e.state.fds + e.state.frame_fds());
        lemma_multiset_commutative(e.state.fds, e.state.frame_fds());
        lemma_multiset_commutative(e.open_fds(), s.released_run(cycles.last()));
        let both = e.open_fds() + s.released_run(cycles.last());
        let recv = received_all(cycles.last());
        assert(both.to_multiset() =~= recv.to_multiset());
        to_multiset_len(both);
        to_multiset_len(recv);
        assert(both.len() == recv.len());
        if r.is_done() {
            assert(r.open_fds() =~= Seq::<i32>::empty());
        }
    }
}

} // verus!

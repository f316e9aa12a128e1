use sway_mirror::capture::{CaptureEvent, DmabufCapture, DmabufPlane, FrameCaptureState, NO_FD};

fn object(index: u32, fd: i32) -> CaptureEvent {
    CaptureEvent::Object { index, fd, offset: index * 100, stride: 7680 + index }
}

fn metadata() -> CaptureEvent {
    CaptureEvent::Frame { width: 1920, height: 1080, format: 0x34325258, num_objects: 3 }
}

fn plane(index: u32, fd: i32) -> DmabufPlane {
    DmabufPlane { fd, offset: index * 100, stride: 7680 + index, modifier: 0 }
}

#[test]
fn plane_indexing_every_permutation() {
    let orders: [[u32; 3]; 6] =
        [[0, 1, 2], [0, 2, 1], [1, 0, 2], [1, 2, 0], [2, 0, 1], [2, 1, 0]];
    for order in orders.iter() {
        let mut cap = DmabufCapture::new();
        let req = cap.request_frame(true);
        for &i in order.iter() {
            let a = cap.handle_event(req.session, object(i, 40 + i as i32));
            assert!(!a.destroy);
            assert!(a.released.is_empty());
        }
        let a = cap.handle_event(req.session, metadata());
        assert!(a.released.is_empty());
        let a = cap.handle_event(req.session, CaptureEvent::Ready);
        assert!(a.destroy);
        let frame = cap.take_frame().expect("frame after ready");
        assert_eq!(frame.planes.len(), 3);
        for i in 0..3u32 {
            assert_eq!(frame.planes[i as usize], plane(i, 40 + i as i32));
        }
        assert_eq!(frame.fds.len(), 3);
    }
}

#[test]
fn plane_gap_is_filled_with_placeholder() {
    let mut cap = DmabufCapture::new();
    let req = cap.request_frame(false);
    cap.handle_event(req.session, object(2, 9));
    cap.handle_event(req.session, CaptureEvent::Ready);
    let frame = cap.take_frame().unwrap();
    assert_eq!(frame.planes.len(), 3);
    assert_eq!(frame.planes[0].fd, NO_FD);
    assert_eq!(frame.planes[1], DmabufPlane { fd: -1, offset: 0, stride: 0, modifier: 0 });
    assert_eq!(frame.planes[2], plane(2, 9));
    assert_eq!(frame.fds, vec![9]);
}

#[test]
fn cancel_yields_no_frame() {
    let mut cap = DmabufCapture::new();
    let req = cap.request_frame(true);
    assert!(!cap.is_done());
    cap.handle_event(req.session, metadata());
    cap.handle_event(req.session, object(0, 11));
    cap.handle_event(req.session, object(1, 12));
    let a = cap.handle_event(req.session, CaptureEvent::Cancel);
    assert!(a.destroy);
    assert_eq!(a.released, vec![11, 12]);
    assert!(cap.is_done());
    assert!(cap.take_frame().is_none());
    assert!(cap.capture_state.fds.is_empty());
}

#[test]
fn ready_yields_exactly_one_frame() {
    let mut cap = DmabufCapture::new();
    let req = cap.request_frame(true);
    cap.handle_event(req.session, metadata());
    cap.handle_event(req.session, object(0, 5));
    cap.handle_event(req.session, CaptureEvent::Ready);
    assert!(cap.is_done());
    let frame = cap.take_frame().expect("one frame");
    assert_eq!((frame.width, frame.height, frame.format), (1920, 1080, 0x34325258));
    assert_eq!(frame.planes, vec![plane(0, 5)]);
    assert_eq!(frame.fds, vec![5]);
    assert!(cap.take_frame().is_none());
    assert!(cap.take_frame().is_none());
}

#[test]
fn new_request_discards_incomplete_session() {
    let mut cap = DmabufCapture::new();
    let first = cap.request_frame(true);
    cap.handle_event(first.session, object(0, 21));
    cap.handle_event(first.session, object(1, 22));
    let second = cap.request_frame(true);
    assert_ne!(first.session, second.session);
    assert_eq!(second.released, vec![21, 22]);
    // A late event of the first session is ignored and its descriptor released.
    let stale = cap.handle_event(first.session, object(0, 23));
    assert_eq!(stale.released, vec![23]);
    let stale_ready = cap.handle_event(first.session, CaptureEvent::Ready);
    assert!(stale_ready.destroy);
    assert!(!cap.is_done());
    cap.handle_event(second.session, object(0, 31));
    cap.handle_event(second.session, CaptureEvent::Ready);
    let frame = cap.take_frame().unwrap();
    assert_eq!(frame.fds, vec![31]);
    assert_eq!(frame.planes, vec![plane(0, 31)]);
}

#[test]
fn request_releases_frame_nobody_took() {
    let mut cap = DmabufCapture::new();
    let req = cap.request_frame(false);
    assert_eq!(req.overlay_cursor, 0);
    assert!(req.released.is_empty());
    cap.handle_event(req.session, object(0, 3));
    cap.handle_event(req.session, CaptureEvent::Ready);
    let next = cap.request_frame(true);
    assert_eq!(next.overlay_cursor, 1);
    assert_eq!(next.released, vec![3]);
    assert!(cap.take_frame().is_none());
}

#[test]
fn descriptor_accounting_over_many_cycles() {
    let mut cap = DmabufCapture::new();
    let mut open: Vec<i32> = Vec::new();
    let mut next_fd = 100;
    for cycle in 0..50 {
        let req = cap.request_frame(true);
        open.retain(|fd| !req.released.contains(fd));
        for i in 0..2u32 {
            cap.handle_event(req.session, object(i, next_fd));
            open.push(next_fd);
            next_fd += 1;
        }
        if cycle % 2 == 0 {
            let a = cap.handle_event(req.session, CaptureEvent::Cancel);
            open.retain(|fd| !a.released.contains(fd));
            assert!(open.is_empty());
        } else {
            cap.handle_event(req.session, CaptureEvent::Ready);
            let frame = cap.take_frame().unwrap();
            assert_eq!(frame.fds, open);
            // The frame is imported, then its descriptors are closed.
            open.retain(|fd| !frame.fds.contains(fd));
            assert!(open.is_empty());
        }
    }
    assert!(open.is_empty());
}

#[test]
fn events_after_done_are_ignored() {
    let mut cap = DmabufCapture::new();
    let req = cap.request_frame(true);
    cap.handle_event(req.session, CaptureEvent::Cancel);
    let late = cap.handle_event(req.session, object(0, 8));
    assert_eq!(late.released, vec![8]);
    cap.handle_event(req.session, CaptureEvent::Ready);
    assert!(cap.take_frame().is_none());
    assert!(cap.capture_state.cancelled);
    assert!(!cap.capture_state.done);
}

#[test]
fn events_before_any_request_are_ignored() {
    let mut cap = DmabufCapture::new();
    let a = cap.handle_event(0, object(0, 4));
    assert_eq!(a.released, vec![4]);
    assert!(!cap.is_done());
    assert!(cap.capture_state.planes.is_empty());
}

#[test]
fn frame_state_reset_returns_everything_owned() {
    let mut st = FrameCaptureState::new();
    st.apply(object(0, 50));
    st.apply(metadata());
    assert_eq!(st.width, 1920);
    assert_eq!(st.num_objects, 3);
    let released = st.reset();
    assert_eq!(released, vec![50]);
    assert_eq!(st.width, 0);
    assert!(st.planes.is_empty());
    assert!(!st.done && !st.cancelled);
}

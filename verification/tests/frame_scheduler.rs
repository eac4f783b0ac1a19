use codeswarm::frame_scheduler::{
    Frame, FrameScheduler, RenderLoop, RenderWork, ResizeCoalescer, TerminalSize,
};

const MILLI: u64 = 1_000_000;
const START: u64 = 7_000_000_000;

#[test]
fn stale_deltas_are_dropped_until_a_complete_repaint() {
    let mut scheduler = FrameScheduler::default();
    assert!(scheduler.submit_delta(b"first".to_vec()));
    let first = scheduler.take_next().expect("first frame");
    assert_eq!(first.bytes, b"first");
    assert!(!scheduler.submit_delta(b"stale-1".to_vec()));
    assert!(!scheduler.submit_delta(b"stale-2".to_vec()));
    assert!(scheduler.needs_repaint());
    scheduler.finish_write();
    assert!(scheduler.take_next().is_none());
    assert!(scheduler.submit_complete(b"complete".to_vec()));
    assert!(!scheduler.needs_repaint());
    assert_eq!(scheduler.take_next().expect("repaint").bytes, b"complete");
}

#[test]
fn a_refused_delta_leaves_what_waits_and_asks_for_a_repaint() {
    let mut scheduler = FrameScheduler::default();
    assert!(scheduler.submit_delta(b"waiting".to_vec()));
    assert!(!scheduler.submit_delta(b"refused".to_vec()));
    assert!(scheduler.needs_repaint() && scheduler.has_pending_frame());
    let frame = scheduler.take_next().expect("the frame that waited");
    assert_eq!(frame, Frame { bytes: b"waiting".to_vec(), complete: false });
    scheduler.finish_write();
    assert!(scheduler.needs_repaint());
    assert!(!scheduler.has_in_flight_write() && !scheduler.has_pending_frame());
    assert!(!scheduler.submit_delta(b"still refused".to_vec()));
    assert!(scheduler.submit_complete(b"all".to_vec()));
    assert!(scheduler.take_next().is_some());
    scheduler.finish_write();
    assert!(scheduler.submit_delta(b"again".to_vec()));
}

#[test]
fn only_one_frame_can_be_in_flight() {
    let mut scheduler = FrameScheduler::default();
    assert!(scheduler.submit_delta(b"frame".to_vec()));
    assert!(scheduler.take_next().is_some());
    assert!(scheduler.take_next().is_none());
    assert!(scheduler.has_in_flight_write());
}

#[test]
fn resize_coalescer_emits_only_final_geometry() {
    let mut resize = ResizeCoalescer::new(100 * MILLI);
    resize.push(80, 24, START);
    resize.push(90, 30, START + 50 * MILLI);
    assert_eq!(
        resize.take_settled(START + 149 * MILLI),
        None
    );
    assert_eq!(
        resize.take_settled(START + 150 * MILLI),
        Some((90, 30))
    );
}

#[test]
fn render_loop_coalesces_resize_into_one_complete_repaint() {
    let mut render_loop = RenderLoop::new(80, 24, 100 * MILLI);
    render_loop.resize(100, 30, START);
    render_loop.resize(120, 40, START + 50 * MILLI);

    assert_eq!(
        render_loop.size(),
        TerminalSize {
            width: 80,
            height: 24
        }
    );
    assert_eq!(render_loop.next(START + 149 * MILLI), None);
    assert_eq!(
        render_loop.next(START + 150 * MILLI),
        Some(RenderWork::Repaint {
            size: TerminalSize {
                width: 120,
                height: 40,
            },
        })
    );
    assert_eq!(
        render_loop.size(),
        TerminalSize {
            width: 120,
            height: 40
        }
    );
    assert_eq!(render_loop.next(START + 150 * MILLI), None);

    assert!(!render_loop.submit_delta(b"stale".to_vec()));
    assert!(render_loop.submit_complete(b"complete".to_vec()));
    assert_eq!(
        render_loop.next(START + 151 * MILLI),
        Some(RenderWork::Write(Frame {
            bytes: b"complete".to_vec(),
            complete: true,
        }))
    );
}

#[test]
fn resize_repaint_waits_for_an_in_flight_write() {
    let mut render_loop = RenderLoop::new(80, 24, 10 * MILLI);
    assert!(render_loop.submit_delta(b"old".to_vec()));
    assert!(matches!(
        render_loop.next(START),
        Some(RenderWork::Write(Frame {
            complete: false,
            ..
        }))
    ));

    render_loop.resize(100, 30, START);
    assert_eq!(
        render_loop.next(START + 10 * MILLI),
        Some(RenderWork::Repaint {
            size: TerminalSize {
                width: 100,
                height: 30,
            },
        })
    );
    assert!(render_loop.submit_complete(b"new".to_vec()));
    assert_eq!(render_loop.next(START + 10 * MILLI), None);
    render_loop.finish_write();
    assert_eq!(
        render_loop.next(START + 11 * MILLI),
        Some(RenderWork::Write(Frame {
            bytes: b"new".to_vec(),
            complete: true,
        }))
    );
}

#[test]
fn dropped_delta_announces_repaint_once_and_recovers() {
    let mut render_loop = RenderLoop::new(80, 24, 0);
    assert!(render_loop.submit_delta(b"first".to_vec()));
    assert!(render_loop.next(START).is_some());
    assert!(!render_loop.submit_delta(b"dropped".to_vec()));
    assert_eq!(
        render_loop.next(START),
        Some(RenderWork::Repaint {
            size: TerminalSize {
                width: 80,
                height: 24,
            },
        })
    );
    assert_eq!(render_loop.next(START), None);
    assert!(render_loop.submit_complete(b"repaint".to_vec()));
    render_loop.finish_write();
    assert_eq!(
        render_loop.next(START),
        Some(RenderWork::Write(Frame {
            bytes: b"repaint".to_vec(),
            complete: true,
        }))
    );
}

#[test]
fn delta_that_waited_for_a_resize_is_not_written_over_the_repaint() {
    let mut render_loop = RenderLoop::new(80, 24, 0);
    assert!(render_loop.submit_delta(b"waiting".to_vec()));
    assert!(render_loop.has_pending_frame());
    render_loop.request_repaint();
    assert!(render_loop.needs_repaint());
    assert_eq!(
        render_loop.next(START),
        Some(RenderWork::Repaint { size: TerminalSize { width: 80, height: 24 } })
    );
    assert_eq!(render_loop.next(START), None);
    assert!(!render_loop.has_in_flight_write());
    assert!(render_loop.submit_complete(b"whole".to_vec()));
    assert_eq!(
        render_loop.next(START),
        Some(RenderWork::Write(Frame { bytes: b"whole".to_vec(), complete: true }))
    );
}

use std::cell::RefCell;
use std::rc::Rc;

use camera_control::device::PixelFormat;
use camera_control::session::{
    device_id_from_c, stop_all, HANDLES_EXHAUSTED, stop_session, Frame, FrameCallback, FrameSink, FrameSource, SessionTable, NO_SESSIONS, OPEN_FAILED,
    OPEN_INVALID_ID, OPEN_NULL_ID, PANICKED, UNKNOWN_HANDLE,
};

type Delivery = (Vec<u8>, i32, i32, i32, i32, i64);

/// Records every frame handed to it.
#[derive(Clone, Default)]
struct Recorder {
    frames: Rc<RefCell<Vec<Delivery>>>,
    count: u64,
    last: (usize, i32, i32, i32, i32, i64),
}

impl FrameCallback for Recorder {
    fn expects(&self, _data: Vec<u8>, _length: i32, _width: i32, _height: i32, _pixel_format: i32, _timestamp_us: i64) -> bool {
        true
    }

    fn delivery_count(&self) -> u64 {
        self.count
    }

    fn last_delivery(&self) -> (usize, i32, i32, i32, i32, i64) {
        self.last
    }

    fn deliver(&mut self, data: Vec<u8>, length: i32, width: i32, height: i32, pixel_format: i32, timestamp_us: i64) {
        self.count = self.count.wrapping_add(1);
        self.last = (data.len(), length, width, height, pixel_format, timestamp_us);
        self.frames.borrow_mut().push((data, length, width, height, pixel_format, timestamp_us));
    }
}

/// A capture session that logs what it was asked to do, and emits one frame
/// when started.
struct FakeSession {
    name: &'static str,
    log: Rc<RefCell<Vec<String>>>,
    running: bool,
}

impl FrameSource<Recorder> for FakeSession {
    fn streaming(&self) -> bool {
        self.running
    }

    fn start(&mut self, mut sink: FrameSink<Recorder>) {
        self.running = true;
        self.log.borrow_mut().push(format!("start {}", self.name));
        sink.emit(Frame { data: vec![1, 2, 3, 4], width: 1, height: 1, pixel_format: PixelFormat::Bgra8888, timestamp_us: 42 });
    }

    fn stop(&mut self) {
        self.running = false;
        self.log.borrow_mut().push(format!("stop {}", self.name));
    }
}

fn session(name: &'static str, log: &Rc<RefCell<Vec<String>>>) -> FakeSession {
    FakeSession { name, log: log.clone(), running: false }
}

#[test]
fn device_id_errors_carry_their_codes() {
    assert_eq!(device_id_from_c(None), Err(OPEN_NULL_ID));
    assert_eq!(device_id_from_c(Some(&[0xff, 0x00][..1])), Err(OPEN_INVALID_ID));
    assert_eq!(device_id_from_c(Some(b"/dev/video0")), Ok("/dev/video0".to_string()));
    assert_eq!(device_id_from_c(Some(b"")), Ok(String::new()));
    assert_eq!((OPEN_NULL_ID, OPEN_INVALID_ID, OPEN_FAILED, HANDLES_EXHAUSTED), (-1, -2, -3, -4));
    assert_eq!((NO_SESSIONS, UNKNOWN_HANDLE, PANICKED), (-2, -3, -100));
}

#[test]
fn stream_calls_before_any_open_report_no_sessions() {
    let mut table: SessionTable<FakeSession> = SessionTable::new();
    let sink = FrameSink { callback: Recorder::default() };
    assert_eq!(table.start_stream(1, sink), NO_SESSIONS);
    assert_eq!(table.stop_stream::<Recorder>(1), NO_SESSIONS);
    assert!(table.close(1).is_none());
}

#[test]
fn opens_hand_out_increasing_handles_from_one() {
    let log = Rc::new(RefCell::new(Vec::new()));
    let mut table = SessionTable::new();
    assert_eq!(table.open(Ok(session("a", &log))), 1);
    assert_eq!(table.open(Ok(session("b", &log))), 2);
    assert_eq!(table.open(Err(())), OPEN_FAILED);
    assert_eq!(table.open(Ok(session("c", &log))), 3);
}

#[test]
fn streams_reach_the_session_and_its_frames_reach_the_callback() {
    let log = Rc::new(RefCell::new(Vec::new()));
    let mut table = SessionTable::new();
    let handle = table.open(Ok(session("a", &log)));
    let recorder = Recorder::default();
    assert_eq!(table.start_stream(handle, FrameSink { callback: recorder.clone() }), 0);
    assert_eq!(table.start_stream(handle + 7, FrameSink { callback: recorder.clone() }), UNKNOWN_HANDLE);
    assert_eq!(table.stop_stream::<Recorder>(handle), 0);
    assert_eq!(table.stop_stream::<Recorder>(handle + 7), UNKNOWN_HANDLE);
    assert_eq!(*log.borrow(), vec!["start a".to_string(), "stop a".to_string()]);
    assert_eq!(*recorder.frames.borrow(), vec![(vec![1, 2, 3, 4], 4, 1, 1, 1, 42)]);
}

#[test]
fn a_closed_handle_is_unknown_and_others_stay_open() {
    let log = Rc::new(RefCell::new(Vec::new()));
    let mut table = SessionTable::new();
    let first = table.open(Ok(session("a", &log)));
    let second = table.open(Ok(session("b", &log)));
    let removed = table.close(first).expect("first is open");
    assert_eq!(removed.name, "a");
    assert!(table.close(first).is_none());
    assert_eq!(table.stop_stream::<Recorder>(first), UNKNOWN_HANDLE);
    assert_eq!(table.stop_stream::<Recorder>(second), 0);
}

#[test]
fn close_all_hands_back_every_session_and_handles_keep_counting() {
    let log = Rc::new(RefCell::new(Vec::new()));
    let mut table = SessionTable::new();
    table.open(Ok(session("a", &log)));
    table.open(Ok(session("b", &log)));
    let all = table.close_all().expect("sessions were opened");
    let mut names: Vec<(i32, &str)> = all.iter().map(|(h, s)| (*h, s.name)).collect();
    names.sort();
    assert_eq!(names, vec![(1, "a"), (2, "b")]);
    assert_eq!(table.stop_stream::<Recorder>(1), NO_SESSIONS);
    assert!(table.close_all().is_none());
    assert_eq!(table.open(Ok(session("c", &log))), 3);
    assert_eq!(table.stop_stream::<Recorder>(3), 0);
}

#[test]
fn emit_delivers_the_buffer_with_its_length_and_wire_code() {
    let recorder = Recorder::default();
    let mut sink = FrameSink { callback: recorder.clone() };
    sink.emit(Frame { data: vec![9; 8], width: 2, height: 1, pixel_format: PixelFormat::Yuyv422, timestamp_us: -5 });
    sink.emit(Frame { data: Vec::new(), width: 0, height: 0, pixel_format: PixelFormat::Mjpeg, timestamp_us: 0 });
    assert_eq!(*recorder.frames.borrow(), vec![(vec![9; 8], 8, 2, 1, 2, -5), (Vec::new(), 0, 0, 0, 3, 0)]);
}

#[test]
fn stream_calls_start_and_stop_the_session() {
    let log = Rc::new(RefCell::new(Vec::new()));
    let mut table = SessionTable::new();
    let handle = table.open(Ok(session("a", &log)));
    assert_eq!(table.start_stream(handle, FrameSink { callback: Recorder::default() }), 0);
    let mut taken = table.close(handle).expect("open");
    assert!(taken.streaming());
    taken.stop();
    assert!(!taken.streaming());
}

#[test]
fn a_closed_session_is_stopped() {
    let log = Rc::new(RefCell::new(Vec::new()));
    let mut table = SessionTable::new();
    let handle = table.open(Ok(session("a", &log)));
    assert_eq!(table.start_stream(handle, FrameSink { callback: Recorder::default() }), 0);
    let stopped = stop_session::<Recorder, FakeSession>(table.close(handle)).expect("was open");
    assert!(!stopped.streaming());
    assert_eq!(*log.borrow(), vec!["start a".to_string(), "stop a".to_string()]);
    assert!(stop_session::<Recorder, FakeSession>(table.close(handle)).is_none());
}

#[test]
fn close_all_then_stop_all_stops_every_session() {
    let log = Rc::new(RefCell::new(Vec::new()));
    let mut table = SessionTable::new();
    for name in ["a", "b", "c"] {
        let handle = table.open(Ok(session(name, &log)));
        assert_eq!(table.start_stream(handle, FrameSink { callback: Recorder::default() }), 0);
    }
    let stopped = stop_all::<Recorder, FakeSession>(table.close_all().expect("sessions were opened"));
    let mut handles: Vec<i32> = stopped.keys().copied().collect();
    handles.sort();
    assert_eq!(handles, vec![1, 2, 3]);
    assert!(stopped.values().all(|s| !s.streaming()));
    let mut stops: Vec<String> = log.borrow().iter().filter(|l| l.starts_with("stop")).cloned().collect();
    stops.sort();
    assert_eq!(stops, vec!["stop a".to_string(), "stop b".to_string(), "stop c".to_string()]);
}

#[test]
fn emit_hands_over_exactly_one_frame() {
    let mut sink = FrameSink { callback: Recorder::default() };
    sink.emit(Frame { data: vec![1, 2, 3, 4], width: 1, height: 1, pixel_format: PixelFormat::Mjpeg, timestamp_us: 42 });
    assert_eq!(sink.callback.delivery_count(), 1);
    assert_eq!(sink.callback.last_delivery(), (4, 4, 1, 1, 3, 42));
    assert_eq!(*sink.callback.frames.borrow(), vec![(vec![1, 2, 3, 4], 4, 1, 1, 3, 42)]);
}

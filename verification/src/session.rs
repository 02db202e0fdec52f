//! Frames, frame delivery, and the table of open capture sessions behind
//! the C interface.
//!
//! The C interface hands out integer handles: positive on success, zero or
//! negative for errors. Frames are pushed, not polled: the caller registers a
//! frame callback when it starts a stream, and each captured frame is handed
//! to that callback on the capture thread.

use std::collections::HashMap;
use vstd::prelude::*;

use crate::device::PixelFormat;
use crate::text::str_from_utf8;

verus! {

broadcast use vstd::std_specs::hash::group_hash_axioms;

/// A frame produced by a platform capture session.
pub struct Frame {
    pub data: Vec<u8>,
    pub width: i32,
    pub height: i32,
    pub pixel_format: PixelFormat,
    pub timestamp_us: i64,
}

/// The receiver of captured frames, implemented by whoever streams.
///
/// `deliver` takes ownership of the frame buffer. It is called on the
/// platform capture thread, so it must be cheap and thread-safe.
pub trait FrameCallback {
    /// The deliveries this receiver is prepared for: the buffer, its length,
    /// the dimensions, the pixel format's wire code and the timestamp.
    spec fn expects(&self, data: Vec<u8>, length: i32, width: i32, height: i32, pixel_format: i32, timestamp_us: i64) -> bool;

    /// How many frames this receiver has taken (counting on past
    /// `u64::MAX` by wrapping).
    spec fn delivery_count(&self) -> u64;

    /// The last frame this receiver took: the buffer's size in bytes, the
    /// length it was delivered with, the dimensions, the pixel format's wire
    /// code and the timestamp.
    spec fn last_delivery(&self) -> (usize, i32, i32, i32, i32, i64);

    /// Receive one frame; only a delivery the receiver expects may be made.
    /// The receiver counts it and records it as its last.
    fn deliver(&mut self, data: Vec<u8>, length: i32, width: i32, height: i32, pixel_format: i32, timestamp_us: i64)
        requires
            old(self).expects(data, length, width, height, pixel_format, timestamp_us),
        ensures
            final(self).delivery_count() == old(self).delivery_count().wrapping_add(1),
            final(self).last_delivery() == (data@.len() as usize, length, width, height, pixel_format, timestamp_us),
    ;
}

/// The arguments a frame is delivered with: the buffer, its length as the C
/// interface's 32-bit length (wrapping for buffers past `i32::MAX` bytes),
/// the dimensions, the pixel format's wire code, and the timestamp.
pub open spec fn delivery_args(frame: Frame) -> (Seq<u8>, i32, i32, i32, i32, i64) {
    (
        frame.data@,
        frame.data@.len() as i32,
        frame.width,
        frame.height,
        frame.pixel_format.code(),
        frame.timestamp_us,
    )
}

impl Frame {
    /// Split a frame into the arguments it is delivered with.
    pub fn into_delivery(self) -> (args: (Vec<u8>, i32, i32, i32, i32, i64))
        ensures
            args.0 == self.data,
            (args.0@, args.1, args.2, args.3, args.4, args.5) == delivery_args(self),
    {
        let length = self.data.len() as i32;
        let code = self.pixel_format.wire_code();
        (self.data, length, self.width, self.height, code, self.timestamp_us)
    }
}

/// Where a capture session delivers its frames.
pub struct FrameSink<C> {
    pub callback: C,
}

impl<C: FrameCallback> FrameSink<C> {
    /// Whether the callback expects `frame` delivered with the arguments
    /// `delivery_args` describes: its own buffer, that buffer's length as
    /// the C interface's 32-bit length, its dimensions, its pixel format's
    /// wire code and its timestamp.
    pub open spec fn expects_frame(&self, frame: Frame) -> bool {
        self.callback.expects(
            frame.data,
            frame.data@.len() as i32,
            frame.width,
            frame.height,
            frame.pixel_format.code(),
            frame.timestamp_us,
        )
    }

    /// Hand a frame to the callback, transferring ownership of the buffer,
    /// with the arguments `delivery_args` describes: the callback may expect
    /// exactly that delivery and no other. The callback takes exactly one
    /// frame, and the last frame it took is this one: its buffer's size, that
    /// size as the 32-bit length, its dimensions, its pixel format's wire code
    /// and its timestamp.
    pub fn emit(&mut self, frame: Frame)
        requires
            old(self).expects_frame(frame),
        ensures
            final(self).callback.delivery_count() == old(self).callback.delivery_count().wrapping_add(1),
            final(self).callback.last_delivery() == (
                frame.data@.len() as usize,
                frame.data@.len() as i32,
                frame.width,
                frame.height,
                frame.pixel_format.code(),
                frame.timestamp_us,
            ),
    {
        let (data, length, width, height, pixel_format, timestamp_us) = frame.into_delivery();
        self.callback.deliver(data, length, width, height, pixel_format, timestamp_us);
    }
}

/// What every platform capture session does.
pub trait FrameSource<C> {
    /// Whether the session is delivering frames: frames reach its sink only
    /// while it streams.
    spec fn streaming(&self) -> bool;

    /// Start delivering frames to `sink`, replacing any prior sink.
    fn start(&mut self, sink: FrameSink<C>)
        ensures
            final(self).streaming(),
    ;

    /// Stop delivering frames: once this returns, no frame reaches the sink
    /// again.
    fn stop(&mut self)
        ensures
            !final(self).streaming(),
    ;
}

/// Returned for a null device id.
pub const OPEN_NULL_ID: i32 = -1;
/// Returned for a device id that is not UTF-8.
pub const OPEN_INVALID_ID: i32 = -2;
/// Returned when the platform cannot open the device.
pub const OPEN_FAILED: i32 = -3;
/// Returned by an open once every positive handle has been handed out.
pub const HANDLES_EXHAUSTED: i32 = -4;
/// Returned by stream calls before any session was ever opened (or after
/// every session was closed at once).
pub const NO_SESSIONS: i32 = -2;
/// Returned by stream calls for a handle that names no open session.
pub const UNKNOWN_HANDLE: i32 = -3;
/// Returned by an entry point whose work panicked.
pub const PANICKED: i32 = -100;

/// The device id a C caller passed: `None` for a null pointer, else the
/// bytes before its terminating NUL.
pub open spec fn device_id_result(bytes: Option<Seq<u8>>) -> Result<Seq<char>, i32> {
    match bytes {
        None => Err(OPEN_NULL_ID),
        Some(b) => if vstd::utf8::valid_utf8(b) {
            Ok(vstd::utf8::decode_utf8(b))
        } else {
            Err(OPEN_INVALID_ID)
        },
    }
}

/// Read the device id a C caller passed (`None` for a null pointer, else
/// the bytes before its NUL): the id, or the error code to return.
pub fn device_id_from_c(bytes: Option<&[u8]>) -> (id: Result<String, i32>)
    ensures
        match (id, device_id_result(
            match bytes {
                Some(b) => Some(b@),
                None => None,
            },
        )) {
            (Ok(s), Ok(t)) => s@ == t,
            (Err(a), Err(b)) => a == b,
            _ => false,
        },
{
    match bytes {
        None => Err(OPEN_NULL_ID),
        Some(b) => match str_from_utf8(b) {
            Some(s) => Ok(String::from_str(s)),
            None => Err(OPEN_INVALID_ID),
        },
    }
}

/// The code a stream call (start or stop) returns for `handle`.
pub open spec fn stream_code<S>(sessions: Option<Map<i32, S>>, handle: i32) -> i32 {
    match sessions {
        None => NO_SESSIONS,
        Some(m) => if m.contains_key(handle) {
            0
        } else {
            UNKNOWN_HANDLE
        },
    }
}

/// The handle after `handle`, or 0 once `i32::MAX`, the last positive
/// handle, has been handed out.
pub open spec fn next_after(handle: i32) -> i32 {
    if handle == i32::MAX {
        0
    } else {
        (handle + 1) as i32
    }
}

/// The table after registering `source`: it is filed under the next
/// handle, and the handle counter moves on.
pub open spec fn registered<S>(table: (Option<Map<i32, S>>, i32), source: S) -> (Option<Map<i32, S>>, i32) {
    let m = match table.0 {
        Some(m) => m,
        None => Map::empty(),
    };
    (Some(m.insert(table.1, source)), next_after(table.1))
}

/// Every handle the table files is positive and below the next handle to
/// hand out (or the counter is spent, at 0): no handle is handed out twice.
pub open spec fn handles_fresh<S>(table: (Option<Map<i32, S>>, i32)) -> bool {
    &&& table.1 >= 0
    &&& table.0 matches Some(m) ==> forall|h: i32| #[trigger] m.contains_key(h) ==> 0 < h && (table.1 == 0 || h < table.1)
}

/// The table after closing `handle`.
pub open spec fn closed<S>(table: (Option<Map<i32, S>>, i32), handle: i32) -> (Option<Map<i32, S>>, i32) {
    match table.0 {
        Some(m) => (Some(m.remove(handle)), table.1),
        None => table,
    }
}

/// The open capture sessions, keyed by handle, and the next handle to hand
/// out.
pub struct SessionTable<S> {
    sessions: Option<HashMap<i32, S>>,
    next_handle: i32,
}

impl<S> View for SessionTable<S> {
    type V = (Option<Map<i32, S>>, i32);

    closed spec fn view(&self) -> (Option<Map<i32, S>>, i32) {
        (
            match self.sessions {
                Some(m) => Some(m@),
                None => None,
            },
            self.next_handle,
        )
    }
}

impl<S> SessionTable<S> {
    /// An empty table: no session was opened yet, and the first handle is 1.
    pub fn new() -> (table: Self)
        ensures
            table@ == (None::<Map<i32, S>>, 1i32),
    {
        SessionTable { sessions: None, next_handle: 1 }
    }

    /// File an opened session under the next handle, which must be positive,
    /// and return the handle.
    pub fn register(&mut self, source: S) -> (handle: i32)
        requires
            old(self)@.1 > 0,
        ensures
            handle == old(self)@.1,
            final(self)@ == registered(old(self)@, source),
    {
        let handle = self.next_handle;
        self.next_handle = if handle == i32::MAX {
            0
        } else {
            handle + 1
        };
        let mut map = match self.sessions.take() {
            Some(m) => m,
            None => HashMap::new(),
        };
        let _replaced = map.insert(handle, source);
        self.sessions = Some(map);
        handle
    }

    /// The outcome of opening a device: the new handle when the platform
    /// opened it and a positive handle is left; `HANDLES_EXHAUSTED` (the
    /// opened session dropped) when every positive handle has been handed
    /// out; `OPEN_FAILED` when the platform could not open it. On an error
    /// the table is unchanged.
    pub fn open(&mut self, opened: Result<S, ()>) -> (code: i32)
        ensures
            match opened {
                Ok(source) => if old(self)@.1 > 0 {
                    code == old(self)@.1 && final(self)@ == registered(old(self)@, source)
                } else {
                    code == HANDLES_EXHAUSTED && final(self)@ == old(self)@
                },
                Err(_) => code == OPEN_FAILED && final(self)@ == old(self)@,
            },
    {
        match opened {
            Ok(source) => if self.next_handle > 0 {
                self.register(source)
            } else {
                HANDLES_EXHAUSTED
            },
            Err(_) => OPEN_FAILED,
        }
    }

    /// Take the session filed under `handle` out of the table, if any.
    fn take_session(&mut self, handle: i32) -> (taken: Option<S>)
        ensures
            final(self)@ == closed(old(self)@, handle),
            match old(self)@.0 {
                Some(m) => if m.contains_key(handle) {
                    taken == Some(m[handle])
                } else {
                    taken is None
                },
                None => taken is None,
            },
    {
        match self.sessions.as_mut() {
            Some(map) => map.remove(&handle),
            None => None,
        }
    }

    /// Start streaming the session filed under `handle` into `sink`.
    /// Returns 0 on success, `NO_SESSIONS` or `UNKNOWN_HANDLE` otherwise;
    /// the set of open handles is unchanged.
    pub fn start_stream<C>(&mut self, handle: i32, sink: FrameSink<C>) -> (code: i32) where S: FrameSource<C>
        ensures
            code == stream_code(old(self)@.0, handle),
            final(self)@.1 == old(self)@.1,
            final(self)@.0 is Some == old(self)@.0 is Some,
            final(self)@.0 matches Some(m) ==> m.dom() == old(self)@.0.unwrap().dom(),
            code != 0 ==> final(self)@ == old(self)@,
            code == 0 ==> final(self)@.0.unwrap()[handle].streaming(),
    {
        match self.sessions.as_mut() {
            None => NO_SESSIONS,
            Some(map) => match map.remove(&handle) {
                None => UNKNOWN_HANDLE,
                Some(mut source) => {
                    source.start(sink);
                    map.insert(handle, source);
                    0
                },
            },
        }
    }

    /// Stop streaming the session filed under `handle`. Returns 0 on
    /// success, `NO_SESSIONS` or `UNKNOWN_HANDLE` otherwise; the set of open
    /// handles is unchanged.
    pub fn stop_stream<C>(&mut self, handle: i32) -> (code: i32) where S: FrameSource<C>
        ensures
            code == stream_code(old(self)@.0, handle),
            final(self)@.1 == old(self)@.1,
            final(self)@.0 is Some == old(self)@.0 is Some,
            final(self)@.0 matches Some(m) ==> m.dom() == old(self)@.0.unwrap().dom(),
            code != 0 ==> final(self)@ == old(self)@,
            code == 0 ==> !final(self)@.0.unwrap()[handle].streaming(),
    {
        match self.sessions.as_mut() {
            None => NO_SESSIONS,
            Some(map) => match map.remove(&handle) {
                None => UNKNOWN_HANDLE,
                Some(mut source) => {
                    source.stop();
                    map.insert(handle, source);
                    0
                },
            },
        }
    }

    /// Remove the session filed under `handle` and return it, so it can be
    /// stopped without the table held.
    pub fn close(&mut self, handle: i32) -> (removed: Option<S>)
        ensures
            final(self)@ == closed(old(self)@, handle),
            match old(self)@.0 {
                Some(m) => if m.contains_key(handle) {
                    removed == Some(m[handle])
                } else {
                    removed is None
                },
                None => removed is None,
            },
    {
        self.take_session(handle)
    }

    /// Remove every session and return them, so each can be stopped
    /// without the table held. The table is then as before any open, except
    /// that handles keep counting on.
    pub fn close_all(&mut self) -> (removed: Option<HashMap<i32, S>>)
        ensures
            final(self)@ == (None::<Map<i32, S>>, old(self)@.1),
            match (removed, old(self)@.0) {
                (Some(r), Some(m)) => r@ == m,
                (None, None) => true,
                _ => false,
            },
    {
        self.sessions.take()
    }
}

/// Stop a session that `close` took out of the table, if there was one, so
/// that it delivers no frame again.
pub fn stop_session<C, S: FrameSource<C>>(removed: Option<S>) -> (stopped: Option<S>)
    ensures
        stopped is Some <==> removed is Some,
        stopped matches Some(s) ==> !s.streaming(),
{
    match removed {
        Some(mut source) => {
            source.stop();
            Some(source)
        },
        None => None,
    }
}

/// Stop every session that `close_all` took out of the table, so that none
/// of them delivers a frame again. Each stays filed under its handle.
pub fn stop_all<C, S: FrameSource<C>>(sessions: HashMap<i32, S>) -> (stopped: HashMap<i32, S>)
    ensures
        stopped@.dom() == sessions@.dom(),
        forall|h: i32| #[trigger] stopped@.contains_key(h) ==> !stopped@[h].streaming(),
{
    let mut handles: Vec<i32> = Vec::new();
    for h in it: sessions.keys()
        invariant
            it.seq().unref().to_set() == sessions@.dom(),
            handles@ == it.seq().unref().take(it.index()),
            it.index() == it.seq().len() ==> handles@.to_set() == sessions@.dom(),
    {
        handles.push(*h);
        proof {
            assert(handles@ =~= it.seq().unref().take(it.index() + 1));
            assert(it.seq().unref().take(it.seq().len() as int) =~= it.seq().unref());
        }
    }
    assert(handles@.to_set() == sessions@.dom());
    let mut rest = sessions;
    let mut stopped: HashMap<i32, S> = HashMap::new();
    let mut i: usize = 0;
    while i < handles.len()
        invariant
            i <= handles@.len(),
            rest@.dom().disjoint(stopped@.dom()),
            rest@.dom().union(stopped@.dom()) == sessions@.dom(),
            forall|h: i32| #[trigger] rest@.contains_key(h) ==> exists|j: int| i <= j < handles@.len() && handles@[j] == h,
            forall|h: i32| #[trigger] stopped@.contains_key(h) ==> !stopped@[h].streaming(),
        decreases handles@.len() - i,
    {
        let handle = handles[i];
        match rest.remove(&handle) {
            Some(mut source) => {
                source.stop();
                stopped.insert(handle, source);
            },
            None => {},
        }
        assert(rest@.dom().union(stopped@.dom()) =~= sessions@.dom());
        i += 1;
    }
    assert(rest@.dom() =~= Set::<i32>::empty());
    assert(stopped@.dom() =~= sessions@.dom());
    stopped
}

/// Stream calls answer 0 for an open handle, -2 while no session table
/// exists (before any open, or after closing everything at once) and -3
/// for a handle that names no open session.
pub proof fn stream_codes<S>(sessions: Map<i32, S>, handle: i32)
    ensures
        stream_code(None::<Map<i32, S>>, handle) == -2,
        sessions.contains_key(handle) ==> stream_code(Some(sessions), handle) == 0,
        !sessions.contains_key(handle) ==> stream_code(Some(sessions), handle) == -3,
{
}

/// A session just opened is filed under the handle the open returned, and
/// stream calls on that handle succeed.
pub proof fn opened_session_is_streamable<S>(table: (Option<Map<i32, S>>, i32), source: S)
    ensures
        registered(table, source).0.unwrap().contains_key(table.1),
        registered(table, source).0.unwrap()[table.1] == source,
        stream_code(registered(table, source).0, table.1) == 0,
{
}

/// Opens hand out positive handles, each greater than every handle handed
/// out before, so no two sessions ever share a handle, even after closes:
/// a new table has fresh handles, and registering, closing and closing
/// everything keep them fresh. A successful open files its session under a
/// handle no open session holds, and leaves the others as they were; the
/// next handle is past it, or 0 once the positive handles are spent (then
/// opens fail with `HANDLES_EXHAUSTED`).
pub proof fn open_hands_out_fresh_handles<S>(table: (Option<Map<i32, S>>, i32), source: S, handle: i32)
    requires
        handles_fresh(table),
    ensures
        handles_fresh((None::<Map<i32, S>>, 1i32)),
        handles_fresh(closed(table, handle)),
        handles_fresh((None::<Map<i32, S>>, table.1)),
        table.1 > 0 ==> {
            &&& handles_fresh(registered(table, source))
            &&& !(table.0 matches Some(m) && m.contains_key(table.1))
            &&& registered(table, source).1 == 0 || registered(table, source).1 > table.1
            &&& forall|h: i32|
                h != table.1 && table.0 is Some && table.0.unwrap().contains_key(h) ==> #[trigger] registered(
                    table,
                    source,
                ).0.unwrap()[h] == table.0.unwrap()[h]
        },
{
}

/// After a handle is closed, stream calls on it report an unknown handle,
/// while every other handle keeps its answer.
pub proof fn closed_handle_is_unknown<S>(table: (Option<Map<i32, S>>, i32), handle: i32, other: i32)
    requires
        table.0 is Some,
        other != handle,
    ensures
        stream_code(closed(table, handle).0, handle) == UNKNOWN_HANDLE,
        stream_code(closed(table, handle).0, other) == stream_code(table.0, other),
{
}

/// After every session is closed at once, stream calls on any handle
/// report that no session exists, and the next open starts a new table.
pub proof fn close_all_forgets_every_session<S>(next_handle: i32, handle: i32, source: S)
    ensures
        stream_code(None::<Map<i32, S>>, handle) == NO_SESSIONS,
        registered((None::<Map<i32, S>>, next_handle), source).0.unwrap().dom() == set![next_handle],
{
    assert(registered((None::<Map<i32, S>>, next_handle), source).0.unwrap().dom() =~= set![next_handle]);
}

} // verus!

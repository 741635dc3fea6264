//! In-memory frame log: per room, the frames in log-index order.

use vstd::prelude::*;
use crate::frame::{frame_wf, Frame, FrameHeader};

verus! {

/// Errors of the storage layer.
#[derive(Debug, Clone, Copy, PartialEq, Eq, Structural)]
pub enum StorageError {
    /// The write does not extend the room's log at its end.
    StorageFailure,
}

struct RoomLog {
    room_id: u128,
    frames: Vec<Frame>,
}

/// Append-only per-room log of frames, keyed by log index.
pub struct MemoryStorage {
    logs: Vec<RoomLog>,
}

/// A log as contracts see it: per room, the frames in log-index order.
pub type LogsView = Seq<(u128, Seq<(FrameHeader, Seq<u8>)>)>;

/// Position of the log of `room` in `logs`, if it has one.
pub open spec fn log_index_of(logs: LogsView, room: u128) -> Option<int>
    decreases logs.len(),
{
    if logs.len() == 0 {
        None
    } else if logs.last().0 == room {
        Some(logs.len() - 1)
    } else {
        log_index_of(logs.drop_last(), room)
    }
}

/// The frames stored for `room`, in log-index order.
pub open spec fn log_of(logs: LogsView, room: u128) -> Seq<(FrameHeader, Seq<u8>)> {
    match log_index_of(logs, room) {
        Some(i) => logs[i].1,
        None => seq![],
    }
}

/// The frames that a sync from `from` with at most `limit` frames returns.
pub open spec fn sync_window(log: Seq<(FrameHeader, Seq<u8>)>, from: int, limit: int) -> Seq<
    (FrameHeader, Seq<u8>),
> {
    if from >= log.len() {
        seq![]
    } else if from + limit <= log.len() {
        log.subrange(from, from + limit)
    } else {
        log.subrange(from, log.len() as int)
    }
}

proof fn lemma_log_index_found(logs: LogsView, room: u128, i: int)
    requires
        0 <= i < logs.len(),
        logs[i].0 == room,
        forall|a: int, b: int| 0 <= a < b < logs.len() ==> logs[a].0 != logs[b].0,
    ensures
        log_index_of(logs, room) == Some(i),
    decreases logs.len(),
{
    if i < logs.len() - 1 {
        lemma_log_index_found(logs.drop_last(), room, i);
    }
}

proof fn lemma_log_index_range(logs: LogsView, room: u128)
    ensures
        log_index_of(logs, room) matches Some(i) ==> 0 <= i < logs.len() && logs[i].0 == room,
        log_index_of(logs, room) is None ==> forall|a: int| 0 <= a < logs.len() ==> logs[a].0 != room,
    decreases logs.len(),
{
    if logs.len() > 0 {
        lemma_log_index_range(logs.drop_last(), room);
        assert(forall|a: int| 0 <= a < logs.len() - 1 ==> logs.drop_last()[a] == logs[a]);
    }
}

proof fn lemma_log_index_absent(logs: LogsView, room: u128)
    requires
        forall|a: int| 0 <= a < logs.len() ==> logs[a].0 != room,
    ensures
        log_index_of(logs, room) is None,
    decreases logs.len(),
{
    if logs.len() > 0 {
        lemma_log_index_absent(logs.drop_last(), room);
    }
}

/// The views of a sequence of frames.
pub open spec fn frames_view(v: Seq<Frame>) -> Seq<(FrameHeader, Seq<u8>)> {
    v.map_values(|f: Frame| f@)
}

spec fn log_view(l: RoomLog) -> (u128, Seq<(FrameHeader, Seq<u8>)>) {
    (l.room_id, frames_view(l.frames@))
}

impl View for MemoryStorage {
    type V = LogsView;

    closed spec fn view(&self) -> LogsView {
        self.logs@.map_values(|l: RoomLog| log_view(l))
    }
}

impl MemoryStorage {
    /// Rooms have one log each; in every log the frame at position `k` is
    /// well formed and carries log index `k`.
    pub open spec fn wf(&self) -> bool {
        &&& forall|a: int, b: int| 0 <= a < b < self@.len() ==> self@[a].0 != self@[b].0
        &&& forall|a: int, k: int|
            0 <= a < self@.len() && 0 <= k < self@[a].1.len() ==> #[trigger] self@[a].1[k].0.log_index
                == k && frame_wf(self@[a].1[k])
    }

    /// An empty storage.
    pub fn new() -> (r: MemoryStorage)
        ensures
            r@ == Seq::<(u128, Seq<(FrameHeader, Seq<u8>)>)>::empty(),
            r.wf(),
    {
        let r = MemoryStorage { logs: Vec::new() };
        assert(r@ =~= Seq::<(u128, Seq<(FrameHeader, Seq<u8>)>)>::empty());
        r
    }

    fn find_log(&self, room: u128) -> (r: Option<usize>)
        requires
            self.wf(),
        ensures
            match r {
                Some(i) => log_index_of(self@, room) == Some(i as int) && i < self.logs@.len(),
                None => log_index_of(self@, room) is None,
            },
    {
        let mut i: usize = 0;
        while i < self.logs.len()
            invariant
                i <= self.logs@.len(),
                self.wf(),
                forall|a: int| 0 <= a < i ==> self@[a].0 != room,
            decreases self.logs@.len() - i,
        {
            if self.logs[i].room_id == room {
                proof {
                    lemma_log_index_found(self@, room, i as int);
                }
                return Some(i);
            }
            i = i + 1;
        }
        proof {
            lemma_log_index_absent(self@, room);
        }
        None
    }

    /// Number of frames stored for `room`.
    pub fn log_len(&self, room: u128) -> (r: usize)
        requires
            self.wf(),
        ensures
            r == log_of(self@, room).len(),
    {
        match self.find_log(room) {
            Some(i) => {
                assert(self@[i as int].1.len() == self.logs@[i as int].frames@.len());
                self.logs[i].frames.len()
            },
            None => 0,
        }
    }

    /// Appends `frame` to the log of `room` as entry `log_index`. Fails with
    /// `StorageFailure` unless `log_index` is the log's length, the frame's
    /// header carries that index, and the frame is well formed.
    pub fn store_frame(&mut self, room: u128, log_index: u64, frame: &Frame) -> (r: Result<
        (),
        StorageError,
    >)
        requires
            old(self).wf(),
        ensures
            final(self).wf(),
            r is Ok <==> (log_index == log_of(old(self)@, room).len() && frame.header.log_index
                == log_index && frame.wf()),
            r is Ok ==> log_of(final(self)@, room) == log_of(old(self)@, room).push(frame@),
            r is Err ==> final(self)@ == old(self)@,
            forall|other: u128| other != room ==> log_of(final(self)@, other) == log_of(old(self)@, other),
    {
        let ghost old_view = self@;
        let ghost old_logs = self.logs@;
        proof {
            lemma_log_index_range(old_view, room);
        }
        let pos = self.find_log(room);
        let len: usize = match pos {
            Some(i) => self.logs[i].frames.len(),
            None => 0,
        };
        if log_index as u128 != len as u128 || frame.header.log_index != log_index || frame.header.payload_length as usize != frame.payload.len() || frame.header.payload_length > crate::frame::MAX_PAYLOAD_SIZE {
            return Err(StorageError::StorageFailure);
        }
        let copy = frame.duplicate();
        match pos {
            Some(i) => {
                self.logs[i].frames.push(copy);
                proof {
                    assert(forall|j: int| 0 <= j < old_logs.len() && j != i ==> self.logs@[j] == old_logs[j]);
                    assert(self.logs@.len() == old_logs.len());
                    assert(self.logs@[i as int].room_id == room);
                    assert(frames_view(self.logs@[i as int].frames@) =~= old_view[i as int].1.push(frame@));
                    assert(self@ =~= old_view.update(i as int, (room, old_view[i as int].1.push(frame@))));
                    lemma_log_index_found(self@, room, i as int);
                    assert(self.wf());
                    assert forall|other: u128| other != room implies log_of(self@, other) == log_of(old_view, other) by {
                        lemma_log_index_range(old_view, other);
                        match log_index_of(old_view, other) {
                            Some(j) => {
                                lemma_log_index_found(self@, other, j);
                            },
                            None => {
                                lemma_log_index_absent(self@, other);
                            },
                        }
                    }
                }
            },
            None => {
                let mut frames: Vec<Frame> = Vec::new();
                frames.push(copy);
                self.logs.push(RoomLog { room_id: room, frames });
                proof {
                    let n = old_view.len();
                    assert(frames_view(self.logs@[n as int].frames@) =~= seq![frame@]);
                    assert(self@ =~= old_view.push((room, seq![frame@])));
                    assert(forall|a: int| 0 <= a < n ==> old_view[a].0 != room);
                    assert(self.wf());
                    lemma_log_index_found(self@, room, n as int);
                    assert(seq![frame@] =~= Seq::<(FrameHeader, Seq<u8>)>::empty().push(frame@));
                    assert forall|other: u128| other != room implies log_of(self@, other) == log_of(old_view, other) by {
                        lemma_log_index_range(old_view, other);
                        match log_index_of(old_view, other) {
                            Some(j) => {
                                lemma_log_index_found(self@, other, j);
                            },
                            None => {
                                lemma_log_index_absent(self@, other);
                            },
                        }
                    }
                }
            },
        }
        Ok(())
    }

    /// The frames of `room` from index `from`, at most `limit` of them, and
    /// whether the log holds more frames after them.
    pub fn load_frames(&self, room: u128, from: u64, limit: u64) -> (r: (Vec<Frame>, bool))
        requires
            self.wf(),
        ensures
            frames_view(r.0@) == sync_window(log_of(self@, room), from as int, limit as int),
            r.1 == (log_of(self@, room).len() > from + limit),
    {
        let mut out: Vec<Frame> = Vec::new();
        let pos = self.find_log(room);
        let i = match pos {
            Some(i) => i,
            None => {
                assert(frames_view(out@) =~= sync_window(log_of(self@, room), from as int, limit as int));
                return (out, false);
            },
        };
        let frames = &self.logs[i].frames;
        let ghost log = log_of(self@, room);
        assert(log == frames_view(frames@));
        let n = frames.len();
        let end: u128 = if (from as u128) + (limit as u128) < n as u128 {
            (from as u128) + (limit as u128)
        } else {
            n as u128
        };
        let mut k: usize = if (from as u128) < (n as u128) { from as usize } else { n };
        let start = k;
        while (k as u128) < end
            invariant
                start <= k <= end,
                start <= end,
                end <= n,
                n == frames@.len(),
                log == frames_view(frames@),
                frames_view(out@) == log.subrange(start as int, k as int),
            decreases n - k,
        {
            assert(log[k as int] == frames@[k as int]@);
            let d = frames[k].duplicate();
            let ghost prev = out@;
            out.push(d);
            assert(frames_view(out@) =~= frames_view(prev).push(d@));
            assert(log.subrange(start as int, k + 1) =~= log.subrange(start as int, k as int).push(log[k as int]));
            k = k + 1;
            assert(frames_view(out@) =~= log.subrange(start as int, k as int));
        }
        assert(frames_view(out@) =~= sync_window(log, from as int, limit as int));
        (out, (n as u128) > (from as u128) + (limit as u128))
    }
}

/// The log of every room is dense: its frames carry log indices 0, 1, 2,
/// ... in order.
pub proof fn lemma_log_dense(st: &MemoryStorage, room: u128)
    requires
        st.wf(),
    ensures
        forall|k: int|
            0 <= k < log_of(st@, room).len() ==> #[trigger] log_of(st@, room)[k].0.log_index == k,
{
    lemma_log_index_range(st@, room);
}

} // verus!

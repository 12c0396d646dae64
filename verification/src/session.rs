use vstd::prelude::*;

use crate::format::ChunkFormatter;
use crate::num::{dec_bytes, dec_of, push_all};
use crate::stamp::{rfc3339_of, rfc3339_render, ts_valid};

verus! {

/// Which leg most recently contributed bytes to the pending chunk.
#[derive(Clone, Copy, PartialEq, Eq, Structural)]
pub enum Direction {
    Unset,
    FromPeer,
    FromTarget,
}

/// One side of the relayed connection: downstream to the peer, upstream to
/// the target.
#[derive(Clone, Copy, PartialEq, Eq, Structural)]
pub enum Leg {
    Peer,
    Target,
}

/// The non-chunk log records a session writes.
#[derive(Clone, Copy, PartialEq, Eq, Structural)]
pub enum ControlKind {
    Accept,
    Connect,
    Close,
    Warn,
    Error,
}

/// One record of the session's log, abstractly: a flushed chunk with its
/// direction, pre-flush offset and length, or a control record.
pub enum LogEvent {
    Chunk { dir: Direction, offset: int, len: int },
    Control { kind: ControlKind },
}

pub open spec fn leg_dir(l: Leg) -> Direction {
    match l {
        Leg::Peer => Direction::FromPeer,
        Leg::Target => Direction::FromTarget,
    }
}

pub open spec fn other_leg(l: Leg) -> Leg {
    match l {
        Leg::Peer => Leg::Target,
        Leg::Target => Leg::Peer,
    }
}

/// The marker byte a chunk header begins with: `>` for bytes from the peer,
/// `<` for bytes from the target, `|` before any byte was seen.
pub open spec fn dir_byte(d: Direction) -> u8 {
    match d {
        Direction::Unset => 124u8,
        Direction::FromPeer => 62u8,
        Direction::FromTarget => 60u8,
    }
}

/// The tag word of a control record.
pub open spec fn tag_bytes(k: ControlKind) -> Seq<u8> {
    match k {
        ControlKind::Accept => seq![65u8, 67u8, 67u8, 69u8, 80u8, 84u8],
        ControlKind::Connect => seq![67u8, 79u8, 78u8, 78u8, 69u8, 67u8, 84u8],
        ControlKind::Close => seq![67u8, 76u8, 79u8, 83u8, 69u8],
        ControlKind::Warn => seq![87u8, 65u8, 82u8, 78u8],
        ControlKind::Error => seq![69u8, 82u8, 82u8, 79u8, 82u8],
    }
}

/// A control record line: `# TAG <timestamp> <rest>` and a newline.
pub open spec fn control_record_spec(k: ControlKind, ts: Seq<u8>, rest: Seq<u8>) -> Seq<u8> {
    seq![35u8, 32u8] + tag_bytes(k) + seq![32u8] + ts + seq![32u8] + rest + seq![10u8]
}

/// A chunk header line: the direction marker, the chunk-start timestamp, and
/// `offset=<N> len=<M>`, ending in a newline.
pub open spec fn chunk_header_spec(d: Direction, ts: Seq<u8>, offset: int, len: int) -> Seq<u8> {
    seq![dir_byte(d), 32u8] + ts + seq![32u8, 111u8, 102u8, 102u8, 115u8, 101u8, 116u8, 61u8]
        + dec_of(offset) + seq![32u8, 108u8, 101u8, 110u8, 61u8] + dec_of(len) + seq![10u8]
}

/// A whole chunk record: the header line, then the formatted body.
pub open spec fn chunk_record_spec(
    d: Direction,
    secs: int,
    nanos: int,
    tz: int,
    offset: int,
    body: Seq<u8>,
    fmt: ChunkFormatter,
) -> Seq<u8> {
    chunk_header_spec(d, rfc3339_of(secs, nanos, tz), offset, body.len() as int)
        + fmt.encoding_spec(body)
}

/// The total length of the chunks flushed in direction `d`.
pub open spec fn chunk_len_sum(tr: Seq<LogEvent>, d: Direction) -> int
    decreases tr.len(),
{
    if tr.len() == 0 {
        0
    } else {
        chunk_len_sum(tr.drop_last(), d) + if tr.last() is Chunk && tr.last()->Chunk_dir == d {
            tr.last()->Chunk_len
        } else {
            0int
        }
    }
}

/// The direction of the most recently flushed chunk, ignoring control
/// records; `None` before the first flush.
pub open spec fn last_chunk_dir(tr: Seq<LogEvent>) -> Option<Direction>
    decreases tr.len(),
{
    if tr.len() == 0 {
        None
    } else if tr.last() is Chunk {
        Some(tr.last()->Chunk_dir)
    } else {
        last_chunk_dir(tr.drop_last())
    }
}

/// What always holds of a session's log: every chunk record's offset is the
/// total length of the chunks flushed earlier in its direction, every chunk
/// is non-empty with a real direction, and no two chunks flushed in a row —
/// even across control records — share a direction.
pub open spec fn trace_wf(tr: Seq<LogEvent>) -> bool {
    forall|k: int|
        0 <= k < tr.len() && (#[trigger] tr[k]) is Chunk ==> {
            &&& tr[k]->Chunk_offset == chunk_len_sum(tr.take(k), tr[k]->Chunk_dir)
            &&& tr[k]->Chunk_len > 0
            &&& tr[k]->Chunk_dir != Direction::Unset
            &&& last_chunk_dir(tr.take(k)) != Some(tr[k]->Chunk_dir)
        }
}

proof fn lemma_sum_push(tr: Seq<LogEvent>, e: LogEvent, d: Direction)
    ensures
        chunk_len_sum(tr.push(e), d) == chunk_len_sum(tr, d) + if e is Chunk && e->Chunk_dir == d {
            e->Chunk_len
        } else {
            0int
        },
{
    assert(tr.push(e).drop_last() =~= tr);
    assert(tr.push(e).last() == e);
}

proof fn lemma_last_push(tr: Seq<LogEvent>, e: LogEvent)
    ensures
        last_chunk_dir(tr.push(e)) == if e is Chunk {
            Some(e->Chunk_dir)
        } else {
            last_chunk_dir(tr)
        },
{
    assert(tr.push(e).drop_last() =~= tr);
    assert(tr.push(e).last() == e);
}

proof fn lemma_trace_push_control(tr: Seq<LogEvent>, k: ControlKind)
    requires
        trace_wf(tr),
    ensures
        trace_wf(tr.push(LogEvent::Control { kind: k })),
        last_chunk_dir(tr.push(LogEvent::Control { kind: k })) == last_chunk_dir(tr),
        forall|d: Direction| #[trigger]
            chunk_len_sum(tr.push(LogEvent::Control { kind: k }), d) == chunk_len_sum(tr, d),
{
    let e = LogEvent::Control { kind: k };
    let tr2 = tr.push(e);
    lemma_last_push(tr, e);
    assert forall|d: Direction| #[trigger] chunk_len_sum(tr2, d) == chunk_len_sum(tr, d) by {
        lemma_sum_push(tr, e, d);
    }
    assert forall|m: int| 0 <= m < tr2.len() && (#[trigger] tr2[m]) is Chunk implies {
        &&& tr2[m]->Chunk_offset == chunk_len_sum(tr2.take(m), tr2[m]->Chunk_dir)
        &&& tr2[m]->Chunk_len > 0
        &&& tr2[m]->Chunk_dir != Direction::Unset
        &&& last_chunk_dir(tr2.take(m)) != Some(tr2[m]->Chunk_dir)
    } by {
        assert(m < tr.len());
        assert(tr2[m] == tr[m]);
        assert(tr2.take(m) =~= tr.take(m));
    }
}

proof fn lemma_trace_push_chunk(tr: Seq<LogEvent>, d: Direction, off: int, len: int)
    requires
        trace_wf(tr),
        last_chunk_dir(tr) != Some(d),
        d != Direction::Unset,
        len > 0,
        off == chunk_len_sum(tr, d),
    ensures
        trace_wf(tr.push(LogEvent::Chunk { dir: d, offset: off, len: len })),
        last_chunk_dir(tr.push(LogEvent::Chunk { dir: d, offset: off, len: len })) == Some(d),
        chunk_len_sum(tr.push(LogEvent::Chunk { dir: d, offset: off, len: len }), d)
            == chunk_len_sum(tr, d) + len,
        forall|d2: Direction|
            d2 != d ==> #[trigger] chunk_len_sum(
                tr.push(LogEvent::Chunk { dir: d, offset: off, len: len }),
                d2,
            ) == chunk_len_sum(tr, d2),
{
    let e = LogEvent::Chunk { dir: d, offset: off, len: len };
    let tr2 = tr.push(e);
    lemma_last_push(tr, e);
    assert forall|d2: Direction| #[trigger] chunk_len_sum(tr2, d2) == chunk_len_sum(tr, d2) + (
    if d2 == d {
        len
    } else {
        0int
    }) by {
        lemma_sum_push(tr, e, d2);
    }
    assert forall|m: int| 0 <= m < tr2.len() && (#[trigger] tr2[m]) is Chunk implies {
        &&& tr2[m]->Chunk_offset == chunk_len_sum(tr2.take(m), tr2[m]->Chunk_dir)
        &&& tr2[m]->Chunk_len > 0
        &&& tr2[m]->Chunk_dir != Direction::Unset
        &&& last_chunk_dir(tr2.take(m)) != Some(tr2[m]->Chunk_dir)
    } by {
        if m < tr.len() {
            assert(tr2[m] == tr[m]);
            assert(tr2.take(m) =~= tr.take(m));
        } else {
            assert(tr2[m] == e);
            assert(tr2.take(m) =~= tr);
        }
    }
}

/// One relay session's chunk-accumulation state: the direction marker, the
/// per-direction offsets already flushed, the pending buffer with its start
/// time, which legs are still open, and the session's immutable
/// configuration.  The ghost `trace` records the log's records abstractly.
pub struct Session {
    pub formatter: ChunkFormatter,
    pub tz: i32,
    pub peer: Vec<u8>,
    pub target: Vec<u8>,
    pub dir: Direction,
    pub peer_offset: usize,
    pub target_offset: usize,
    pub chunk: Vec<u8>,
    pub start_secs: i64,
    pub start_nanos: u32,
    pub peer_open: bool,
    pub target_open: bool,
    pub trace: Ghost<Seq<LogEvent>>,
}

impl Session {
    /// The flushed-byte counter of a direction.
    pub open spec fn offset_of(self, d: Direction) -> int {
        match d {
            Direction::Unset => 0,
            Direction::FromPeer => self.peer_offset as int,
            Direction::FromTarget => self.target_offset as int,
        }
    }

    pub open spec fn leg_open(self, l: Leg) -> bool {
        match l {
            Leg::Peer => self.peer_open,
            Leg::Target => self.target_open,
        }
    }

    /// The address the log names for a leg.
    pub open spec fn addr_of(self, l: Leg) -> Seq<u8> {
        match l {
            Leg::Peer => self.peer@,
            Leg::Target => self.target@,
        }
    }

    /// The session's immutable configuration agrees with `o`'s.
    pub open spec fn cfg_eq(self, o: Session) -> bool {
        &&& self.formatter == o.formatter
        &&& self.tz == o.tz
        &&& self.peer@ == o.peer@
        &&& self.target@ == o.target@
    }

    pub open spec fn state_eq_except_trace(self, o: Session) -> bool {
        &&& self.cfg_eq(o)
        &&& self.dir == o.dir
        &&& self.chunk@ == o.chunk@
        &&& self.peer_offset == o.peer_offset
        &&& self.target_offset == o.target_offset
        &&& self.peer_open == o.peer_open
        &&& self.target_open == o.target_open
        &&& self.start_secs == o.start_secs
        &&& self.start_nanos == o.start_nanos
    }

    /// The record a flush of the pending buffer would write.
    pub open spec fn pending_record(self) -> Seq<u8> {
        chunk_record_spec(
            self.dir,
            self.start_secs as int,
            self.start_nanos as int,
            self.tz as int,
            self.offset_of(self.dir),
            self.chunk@,
            self.formatter,
        )
    }

    /// The session invariant: the chunk-start timestamp is renderable; a
    /// non-empty pending buffer has a real direction, differs in direction
    /// from the last flushed chunk, and can be flushed without overflowing
    /// its offset counter; while a leg is open an empty buffer means no
    /// direction has been seen since the last flush could only have been the
    /// final one; the offset counters equal the per-direction totals of the
    /// trace; and the trace itself is well formed.
    pub open spec fn wf(self) -> bool {
        &&& ts_valid(self.start_secs as int, self.start_nanos as int, self.tz as int)
        &&& (self.chunk@.len() > 0 ==> self.dir != Direction::Unset)
        &&& (self.chunk@.len() > 0 ==> last_chunk_dir(self.trace@) != Some(self.dir))
        &&& (self.chunk@.len() > 0 ==> self.offset_of(self.dir) + self.chunk@.len()
            <= usize::MAX)
        &&& ((self.peer_open || self.target_open) && self.chunk@.len() == 0 ==> self.dir
            == Direction::Unset)
        &&& (self.dir == Direction::Unset ==> last_chunk_dir(self.trace@) is None)
        &&& self.peer_offset as int == chunk_len_sum(self.trace@, Direction::FromPeer)
        &&& self.target_offset as int == chunk_len_sum(self.trace@, Direction::FromTarget)
        &&& trace_wf(self.trace@)
    }

    /// A fresh session: both legs open, no direction seen, empty buffer,
    /// offsets at zero, nothing logged.
    pub fn new(formatter: ChunkFormatter, tz: i32, peer: Vec<u8>, target: Vec<u8>) -> (s: Session)
        requires
            -86340 <= tz <= 86340,
            (tz as int) % 60 == 0,
        ensures
            s.wf(),
            s.formatter == formatter,
            s.tz == tz,
            s.peer@ == peer@,
            s.target@ == target@,
            s.dir == Direction::Unset,
            s.peer_offset == 0,
            s.target_offset == 0,
            s.chunk@.len() == 0,
            s.peer_open,
            s.target_open,
            s.trace@ == Seq::<LogEvent>::empty(),
    {
        let s = Session {
            formatter,
            tz,
            peer,
            target,
            dir: Direction::Unset,
            peer_offset: 0,
            target_offset: 0,
            chunk: Vec::new(),
            start_secs: 0,
            start_nanos: 0,
            peer_open: true,
            target_open: true,
            trace: Ghost(Seq::empty()),
        };
        proof {
            assert(chunk_len_sum(s.trace@, Direction::FromPeer) == 0);
            assert(chunk_len_sum(s.trace@, Direction::FromTarget) == 0);
            assert(last_chunk_dir(s.trace@) is None);
        }
        s
    }

    /// The offset counter of the current direction.
    pub fn dir_offset(&self) -> (r: usize)
        requires
            self.dir != Direction::Unset,
        ensures
            r as int == self.offset_of(self.dir),
    {
        match self.dir {
            Direction::FromPeer => self.peer_offset,
            Direction::FromTarget => self.target_offset,
            Direction::Unset => 0,
        }
    }

    /// Advance the current direction's offset counter by the pending
    /// buffer's length.
    fn advance_dir_offset(&mut self)
        requires
            old(self).dir != Direction::Unset,
            old(self).offset_of(old(self).dir) + old(self).chunk@.len() <= usize::MAX,
        ensures
            final(self).offset_of(old(self).dir) == old(self).offset_of(old(self).dir) + old(self).chunk@.len(),
            forall|d: Direction|
                d != old(self).dir ==> final(self).offset_of(d) == old(self).offset_of(d),
            final(self).cfg_eq(*old(self)),
            final(self).dir == old(self).dir,
            final(self).chunk@ == old(self).chunk@,
            final(self).peer_open == old(self).peer_open,
            final(self).target_open == old(self).target_open,
            final(self).start_secs == old(self).start_secs,
            final(self).start_nanos == old(self).start_nanos,
            final(self).trace@ == old(self).trace@,
    {
        match self.dir {
            Direction::FromPeer => {
                self.peer_offset = self.peer_offset + self.chunk.len();
            },
            Direction::FromTarget => {
                self.target_offset = self.target_offset + self.chunk.len();
            },
            Direction::Unset => {},
        }
    }

    /// Write the pending buffer out as one chunk record: header line, body,
    /// offset advance, and the matching ghost chunk event.
    fn flush(&mut self) -> (out: Vec<u8>)
        requires
            old(self).wf(),
            old(self).chunk@.len() > 0,
        ensures
            out@ == old(self).pending_record(),
            final(self).cfg_eq(*old(self)),
            final(self).dir == old(self).dir,
            final(self).chunk@.len() == 0,
            final(self).peer_open == old(self).peer_open,
            final(self).target_open == old(self).target_open,
            final(self).start_secs == old(self).start_secs,
            final(self).start_nanos == old(self).start_nanos,
            final(self).offset_of(old(self).dir) == old(self).offset_of(old(self).dir) + old(self).chunk@.len(),
            forall|d: Direction|
                d != old(self).dir ==> final(self).offset_of(d) == old(self).offset_of(d),
            final(self).trace@ == old(self).trace@.push(
                LogEvent::Chunk {
                    dir: old(self).dir,
                    offset: old(self).offset_of(old(self).dir),
                    len: old(self).chunk@.len() as int,
                },
            ),
            trace_wf(final(self).trace@),
            last_chunk_dir(final(self).trace@) == Some(old(self).dir),
            final(self).peer_offset as int == chunk_len_sum(final(self).trace@, Direction::FromPeer),
            final(self).target_offset as int == chunk_len_sum(
                final(self).trace@,
                Direction::FromTarget,
            ),
    {
        let ts = rfc3339_render(self.start_secs, self.start_nanos, self.tz);
        let mut out: Vec<u8> = Vec::new();
        out.push(dir_byte_exec(self.dir));
        out.push(32);
        push_all(&mut out, ts.as_slice());
        out.push(32);
        out.push(111);
        out.push(102);
        out.push(102);
        out.push(115);
        out.push(101);
        out.push(116);
        out.push(61);
        let off = self.dir_offset();
        let off_digits = dec_bytes(off);
        push_all(&mut out, off_digits.as_slice());
        out.push(32);
        out.push(108);
        out.push(101);
        out.push(110);
        out.push(61);
        let len_digits = dec_bytes(self.chunk.len());
        push_all(&mut out, len_digits.as_slice());
        out.push(10);
        let body = self.formatter.format_chunk(self.chunk.as_slice());
        push_all(&mut out, body.as_slice());
        proof {
            assert(out@ =~= old(self).pending_record());
        }
        proof {
            lemma_trace_push_chunk(
                self.trace@,
                self.dir,
                self.offset_of(self.dir),
                self.chunk@.len() as int,
            );
        }
        let ghost ev = LogEvent::Chunk {
            dir: self.dir,
            offset: self.offset_of(self.dir),
            len: self.chunk@.len() as int,
        };
        self.advance_dir_offset();
        proof {
            if old(self).dir == Direction::FromPeer {
                assert(self.offset_of(Direction::FromPeer) == old(self).offset_of(
                    Direction::FromPeer,
                ) + old(self).chunk@.len());
                assert(self.offset_of(Direction::FromTarget) == old(self).offset_of(
                    Direction::FromTarget,
                ));
            } else {
                assert(self.offset_of(Direction::FromTarget) == old(self).offset_of(
                    Direction::FromTarget,
                ) + old(self).chunk@.len());
                assert(self.offset_of(Direction::FromPeer) == old(self).offset_of(
                    Direction::FromPeer,
                ));
            }
        }
        self.trace = Ghost(self.trace@.push(ev));
        self.chunk.clear();
        proof {
            assert(self.trace@ == old(self).trace@.push(ev));
            assert(self.offset_of(Direction::FromPeer) == self.peer_offset as int);
            assert(self.offset_of(Direction::FromTarget) == self.target_offset as int);
            assert(chunk_len_sum(self.trace@, Direction::FromPeer) == chunk_len_sum(
                old(self).trace@,
                Direction::FromPeer,
            ) + if old(self).dir == Direction::FromPeer {
                old(self).chunk@.len() as int
            } else {
                0int
            });
            assert(chunk_len_sum(self.trace@, Direction::FromTarget) == chunk_len_sum(
                old(self).trace@,
                Direction::FromTarget,
            ) + if old(self).dir == Direction::FromTarget {
                old(self).chunk@.len() as int
            } else {
                0int
            });
        }
        out
    }

    /// Bytes arrived on a leg: flush the pending buffer first when the
    /// direction switches, restart the chunk clock on a switch, and append
    /// the bytes to the buffer.  Returns the log bytes this step writes —
    /// one whole chunk record on a direction switch, nothing otherwise.
    pub fn on_data(&mut self, leg: Leg, bytes: &[u8], now_secs: i64, now_nanos: u32) -> (out: Vec<
        u8,
    >)
        requires
            old(self).wf(),
            old(self).leg_open(leg),
            bytes@.len() > 0,
            ts_valid(now_secs as int, now_nanos as int, old(self).tz as int),
            old(self).offset_of(leg_dir(leg)) + (if old(self).dir == leg_dir(leg) {
                old(self).chunk@.len() as int
            } else {
                0
            }) + bytes@.len() <= usize::MAX,
        ensures
            final(self).wf(),
            final(self).cfg_eq(*old(self)),
            final(self).peer_open == old(self).peer_open,
            final(self).target_open == old(self).target_open,
            final(self).dir == leg_dir(leg),
            final(self).chunk@ == (if old(self).dir == leg_dir(leg) {
                old(self).chunk@
            } else {
                Seq::<u8>::empty()
            }) + bytes@,
            (old(self).dir == leg_dir(leg) ==> final(self).start_secs == old(self).start_secs
                && final(self).start_nanos == old(self).start_nanos),
            (old(self).dir != leg_dir(leg) ==> final(self).start_secs == now_secs && final(self).start_nanos == now_nanos),
            ({
                let flushed = old(self).dir != leg_dir(leg) && old(self).chunk@.len() > 0;
                if flushed {
                    &&& out@ == old(self).pending_record()
                    &&& final(self).trace@ == old(self).trace@.push(
                        LogEvent::Chunk {
                            dir: old(self).dir,
                            offset: old(self).offset_of(old(self).dir),
                            len: old(self).chunk@.len() as int,
                        },
                    )
                    &&& final(self).offset_of(old(self).dir) == old(self).offset_of(
                        old(self).dir,
                    ) + old(self).chunk@.len()
                    &&& forall|d: Direction|
                        d != old(self).dir ==> final(self).offset_of(d) == old(self).offset_of(d)
                } else {
                    &&& out@.len() == 0
                    &&& final(self).trace@ == old(self).trace@
                    &&& forall|d: Direction| final(self).offset_of(d) == old(self).offset_of(d)
                }
            }),
    {
        let d = leg_direction(leg);
        let mut out: Vec<u8> = Vec::new();
        if self.dir != d && !self.chunk.is_empty() {
            out = self.flush();
        }
        if self.dir != d {
            self.dir = d;
            self.start_secs = now_secs;
            self.start_nanos = now_nanos;
        }
        push_all(&mut self.chunk, bytes);
        out
    }

    /// A leg's stream ended, cleanly or with a read error.  Marks the leg
    /// closed and returns the log bytes this step writes — a WARN record
    /// first when an error message is given, then the CLOSE record naming
    /// the closed leg's address — and whether the caller should attempt a
    /// best-effort shutdown of the other leg, which is exactly when that
    /// other leg is still open.
    pub fn on_close(&mut self, leg: Leg, warn: Option<&[u8]>, now_secs: i64, now_nanos: u32) -> (r:
        (Vec<u8>, bool))
        requires
            old(self).wf(),
            old(self).leg_open(leg),
            ts_valid(now_secs as int, now_nanos as int, old(self).tz as int),
        ensures
            final(self).wf(),
            final(self).cfg_eq(*old(self)),
            final(self).dir == old(self).dir,
            final(self).chunk@ == old(self).chunk@,
            final(self).start_secs == old(self).start_secs,
            final(self).start_nanos == old(self).start_nanos,
            final(self).peer_offset == old(self).peer_offset,
            final(self).target_offset == old(self).target_offset,
            !final(self).leg_open(leg),
            final(self).leg_open(other_leg(leg)) == old(self).leg_open(other_leg(leg)),
            r.1 == old(self).leg_open(other_leg(leg)),
            r.0@ == (match warn {
                Some(w) => control_record_spec(
                    ControlKind::Warn,
                    rfc3339_of(now_secs as int, now_nanos as int, old(self).tz as int),
                    w@,
                ),
                None => Seq::<u8>::empty(),
            }) + control_record_spec(
                ControlKind::Close,
                rfc3339_of(now_secs as int, now_nanos as int, old(self).tz as int),
                old(self).addr_of(leg),
            ),
            final(self).trace@ == old(self).trace@ + (match warn {
                Some(w) => seq![
                    LogEvent::Control { kind: ControlKind::Warn },
                    LogEvent::Control { kind: ControlKind::Close },
                ],
                None => seq![LogEvent::Control { kind: ControlKind::Close }],
            }),
    {
        let ts = rfc3339_render(now_secs, now_nanos, self.tz);
        let mut out: Vec<u8> = Vec::new();
        match warn {
            Some(w) => {
                let rec = render_control(ControlKind::Warn, &ts, w);
                push_all(&mut out, rec.as_slice());
                proof {
                    lemma_trace_push_control(self.trace@, ControlKind::Warn);
                }
                self.trace = Ghost(
                    self.trace@.push(LogEvent::Control { kind: ControlKind::Warn }),
                );
            },
            None => {},
        }
        let addr_text: &[u8] = match leg {
            Leg::Peer => self.peer.as_slice(),
            Leg::Target => self.target.as_slice(),
        };
        let rec = render_control(ControlKind::Close, &ts, addr_text);
        push_all(&mut out, rec.as_slice());
        proof {
            lemma_trace_push_control(self.trace@, ControlKind::Close);
        }
        self.trace = Ghost(self.trace@.push(LogEvent::Control { kind: ControlKind::Close }));
        let shutdown = match leg {
            Leg::Peer => self.target_open,
            Leg::Target => self.peer_open,
        };
        match leg {
            Leg::Peer => {
                self.peer_open = false;
            },
            Leg::Target => {
                self.target_open = false;
            },
        }
        proof {
            match warn {
                Some(w) => {
                    assert(self.trace@ =~= old(self).trace@ + seq![
                        LogEvent::Control { kind: ControlKind::Warn },
                        LogEvent::Control { kind: ControlKind::Close },
                    ]);
                },
                None => {
                    assert(self.trace@ =~= old(self).trace@ + seq![
                        LogEvent::Control { kind: ControlKind::Close },
                    ]);
                },
            }
        }
        (out, shutdown)
    }

    /// The session ended: both legs are closed.  Flushes the still-pending
    /// buffer, if any, as one final chunk record and returns its bytes.
    pub fn finish(&mut self) -> (out: Vec<u8>)
        requires
            old(self).wf(),
            !old(self).peer_open,
            !old(self).target_open,
        ensures
            final(self).wf(),
            final(self).cfg_eq(*old(self)),
            final(self).chunk@.len() == 0,
            !final(self).peer_open,
            !final(self).target_open,
            ({
                if old(self).chunk@.len() > 0 {
                    &&& out@ == old(self).pending_record()
                    &&& final(self).trace@ == old(self).trace@.push(
                        LogEvent::Chunk {
                            dir: old(self).dir,
                            offset: old(self).offset_of(old(self).dir),
                            len: old(self).chunk@.len() as int,
                        },
                    )
                    &&& final(self).offset_of(old(self).dir) == old(self).offset_of(
                        old(self).dir,
                    ) + old(self).chunk@.len()
                    &&& forall|d: Direction|
                        d != old(self).dir ==> final(self).offset_of(d) == old(self).offset_of(d)
                } else {
                    &&& out@.len() == 0
                    &&& final(self).trace@ == old(self).trace@
                    &&& forall|d: Direction| final(self).offset_of(d) == old(self).offset_of(d)
                }
            }),
    {
        if !self.chunk.is_empty() {
            self.flush()
        } else {
            Vec::new()
        }
    }

    /// The `# ACCEPT` record for this session's peer, written once the
    /// inbound handshake succeeds.
    pub fn accept_record(&mut self, now_secs: i64, now_nanos: u32) -> (out: Vec<u8>)
        requires
            old(self).wf(),
            ts_valid(now_secs as int, now_nanos as int, old(self).tz as int),
        ensures
            final(self).wf(),
            final(self).state_eq_except_trace(*old(self)),
            out@ == control_record_spec(
                ControlKind::Accept,
                rfc3339_of(now_secs as int, now_nanos as int, old(self).tz as int),
                old(self).peer@,
            ),
            final(self).trace@ == old(self).trace@.push(
                LogEvent::Control { kind: ControlKind::Accept },
            ),
    {
        let ts = rfc3339_render(now_secs, now_nanos, self.tz);
        let out = render_control(ControlKind::Accept, &ts, self.peer.as_slice());
        proof {
            lemma_trace_push_control(self.trace@, ControlKind::Accept);
        }
        self.trace = Ghost(self.trace@.push(LogEvent::Control { kind: ControlKind::Accept }));
        out
    }

    /// The `# CONNECT` record for this session's target, written once the
    /// outbound handshake succeeds.
    pub fn connect_record(&mut self, now_secs: i64, now_nanos: u32) -> (out: Vec<u8>)
        requires
            old(self).wf(),
            ts_valid(now_secs as int, now_nanos as int, old(self).tz as int),
        ensures
            final(self).wf(),
            final(self).state_eq_except_trace(*old(self)),
            out@ == control_record_spec(
                ControlKind::Connect,
                rfc3339_of(now_secs as int, now_nanos as int, old(self).tz as int),
                old(self).target@,
            ),
            final(self).trace@ == old(self).trace@.push(
                LogEvent::Control { kind: ControlKind::Connect },
            ),
    {
        let ts = rfc3339_render(now_secs, now_nanos, self.tz);
        let out = render_control(ControlKind::Connect, &ts, self.target.as_slice());
        proof {
            lemma_trace_push_control(self.trace@, ControlKind::Connect);
        }
        self.trace = Ghost(self.trace@.push(LogEvent::Control { kind: ControlKind::Connect }));
        out
    }

    /// The `# ERROR` record for a session-fatal setup failure: the terminal
    /// record of a session that never reached the relay loop.
    pub fn error_record(&mut self, msg: &[u8], now_secs: i64, now_nanos: u32) -> (out: Vec<u8>)
        requires
            old(self).wf(),
            ts_valid(now_secs as int, now_nanos as int, old(self).tz as int),
        ensures
            final(self).wf(),
            final(self).state_eq_except_trace(*old(self)),
            out@ == control_record_spec(
                ControlKind::Error,
                rfc3339_of(now_secs as int, now_nanos as int, old(self).tz as int),
                msg@,
            ),
            final(self).trace@ == old(self).trace@.push(
                LogEvent::Control { kind: ControlKind::Error },
            ),
    {
        let ts = rfc3339_render(now_secs, now_nanos, self.tz);
        let out = render_control(ControlKind::Error, &ts, msg);
        proof {
            lemma_trace_push_control(self.trace@, ControlKind::Error);
        }
        self.trace = Ghost(self.trace@.push(LogEvent::Control { kind: ControlKind::Error }));
        out
    }
}

/// The per-connection log file's name: the configured base path, a dot, the
/// peer's IP text, a dot, and the peer's port.
pub open spec fn logfile_name_spec(prefix: Seq<u8>, ip: Seq<u8>, port: int) -> Seq<u8> {
    prefix + seq![46u8] + ip + seq![46u8] + dec_of(port)
}

/// Build the per-connection log file name.
pub fn logfile_name(prefix: &[u8], ip: &[u8], port: u16) -> (r: Vec<u8>)
    ensures
        r@ == logfile_name_spec(prefix@, ip@, port as int),
{
    let mut r: Vec<u8> = Vec::new();
    push_all(&mut r, prefix);
    r.push(46);
    push_all(&mut r, ip);
    r.push(46);
    let digits = dec_bytes(port as usize);
    push_all(&mut r, digits.as_slice());
    proof {
        assert(r@ =~= logfile_name_spec(prefix@, ip@, port as int));
    }
    r
}

/// The direction a leg's bytes are tagged with.
pub fn leg_direction(leg: Leg) -> (d: Direction)
    ensures
        d == leg_dir(leg),
{
    match leg {
        Leg::Peer => Direction::FromPeer,
        Leg::Target => Direction::FromTarget,
    }
}

fn dir_byte_exec(d: Direction) -> (r: u8)
    ensures
        r == dir_byte(d),
{
    match d {
        Direction::Unset => 124,
        Direction::FromPeer => 62,
        Direction::FromTarget => 60,
    }
}

fn push_tag(out: &mut Vec<u8>, k: ControlKind)
    ensures
        final(out)@ == old(out)@ + tag_bytes(k),
{
    match k {
        ControlKind::Accept => {
            out.push(65);
            out.push(67);
            out.push(67);
            out.push(69);
            out.push(80);
            out.push(84);
        },
        ControlKind::Connect => {
            out.push(67);
            out.push(79);
            out.push(78);
            out.push(78);
            out.push(69);
            out.push(67);
            out.push(84);
        },
        ControlKind::Close => {
            out.push(67);
            out.push(76);
            out.push(79);
            out.push(83);
            out.push(69);
        },
        ControlKind::Warn => {
            out.push(87);
            out.push(65);
            out.push(82);
            out.push(78);
        },
        ControlKind::Error => {
            out.push(69);
            out.push(82);
            out.push(82);
            out.push(79);
            out.push(82);
        },
    }
    proof {
        assert(out@ =~= old(out)@ + tag_bytes(k));
    }
}

/// Render one control record line.
fn render_control(k: ControlKind, ts: &Vec<u8>, rest: &[u8]) -> (out: Vec<u8>)
    ensures
        out@ == control_record_spec(k, ts@, rest@),
{
    let mut out: Vec<u8> = Vec::new();
    out.push(35);
    out.push(32);
    push_tag(&mut out, k);
    out.push(32);
    push_all(&mut out, ts.as_slice());
    out.push(32);
    push_all(&mut out, rest);
    out.push(10);
    proof {
        assert(out@ =~= control_record_spec(k, ts@, rest@));
    }
    out
}

/// Law (direction offsets): in any session trace, the offset recorded by a
/// flushed chunk equals the total length of the chunks flushed before it in
/// the same direction.
pub proof fn lemma_chunk_offsets(s: Session, k: int)
    requires
        s.wf(),
        0 <= k < s.trace@.len(),
        s.trace@[k] is Chunk,
    ensures
        s.trace@[k]->Chunk_offset == chunk_len_sum(s.trace@.take(k), s.trace@[k]->Chunk_dir),
{
}

/// Law (chunk boundaries): two chunk records flushed with no other chunk
/// record between them are never in the same direction — a direction switch
/// always flushes first, so consecutive chunk records alternate even when
/// control records separate them.
pub proof fn lemma_chunk_boundaries(s: Session, i: int, j: int)
    requires
        s.wf(),
        0 <= i < j < s.trace@.len(),
        s.trace@[i] is Chunk,
        s.trace@[j] is Chunk,
        forall|m: int| i < m < j ==> !((#[trigger] s.trace@[m]) is Chunk),
    ensures
        s.trace@[i]->Chunk_dir != s.trace@[j]->Chunk_dir,
{
    lemma_last_chunk_between(s.trace@, i, j);
}

proof fn lemma_last_chunk_between(tr: Seq<LogEvent>, i: int, j: int)
    requires
        0 <= i < j <= tr.len(),
        tr[i] is Chunk,
        forall|m: int| i < m < j ==> !((#[trigger] tr[m]) is Chunk),
    ensures
        last_chunk_dir(tr.take(j)) == Some(tr[i]->Chunk_dir),
    decreases j,
{
    let t = tr.take(j);
    if j == i + 1 {
        assert(t.last() == tr[i]);
    } else {
        assert(t.last() == tr[j - 1]);
        assert(!(tr[j - 1] is Chunk));
        assert(t.drop_last() =~= tr.take(j - 1));
        lemma_last_chunk_between(tr, i, j - 1);
    }
}

} // verus!

//! An in-memory commit log for one topic, split into segments.
//!
//! Records are appended to the last (active) segment. Once the active segment
//! holds at least `max_segment_size` bytes, the next record opens a new segment;
//! when that makes more than `max_segment_count` segments, the oldest one is
//! dropped. Segments are numbered from 0 in the order they are opened, and a
//! record is found by its segment number and its offset within the segment.
use crate::buf::bytes_contents;
use bytes::Bytes;
use vstd::prelude::*;

verus! {

/// One segment, as values: its records and its size in bytes (saturating at
/// `usize::MAX`).
pub struct SegmentView {
    pub records: Seq<Seq<u8>>,
    pub size: usize,
}

/// A log, as values: its limits, the number of its oldest segment, and its
/// segments, oldest first.
pub struct LogView {
    pub max_segment_size: usize,
    pub max_segment_count: usize,
    pub head: u64,
    pub segments: Seq<SegmentView>,
}

/// A log always has an active segment, and segment numbers fit in a `u64`.
pub open spec fn log_wf(v: LogView) -> bool {
    &&& v.segments.len() >= 1
    &&& v.head + v.segments.len() <= u64::MAX
}

/// The number of the active segment.
pub open spec fn active_segment(v: LogView) -> u64
    recommends
        log_wf(v),
{
    (v.head + v.segments.len() - 1) as u64
}

/// Where the next record appended to the log would go if no new segment were
/// opened: the active segment and its number of records.
pub open spec fn next_offset_of(v: LogView) -> (u64, u64) {
    (active_segment(v), v.segments.last().records.len() as u64)
}

/// The log once the next record has been routed: a full, non-empty active
/// segment is followed by a new empty one, and the oldest segment is dropped when
/// that makes too many.
pub open spec fn rolled_over(v: LogView) -> LogView {
    let active = v.segments.last();
    if active.size >= v.max_segment_size && active.records.len() > 0 {
        let segments = v.segments.push(SegmentView { records: seq![], size: 0 });
        if segments.len() > v.max_segment_count {
            LogView { head: (v.head + 1) as u64, segments: segments.drop_first(), ..v }
        } else {
            LogView { segments, ..v }
        }
    } else {
        v
    }
}

/// `a + b`, or `usize::MAX` where that overflows.
pub open spec fn saturating_add(a: usize, b: nat) -> usize {
    if a + b > usize::MAX {
        usize::MAX
    } else {
        (a + b) as usize
    }
}

/// The log after `record` has been appended.
pub open spec fn appended(v: LogView, record: Seq<u8>) -> LogView {
    let r = rolled_over(v);
    let last = r.segments.last();
    LogView {
        segments: r.segments.update(
            r.segments.len() - 1,
            SegmentView {
                records: last.records.push(record),
                size: saturating_add(last.size, record.len()),
            },
        ),
        ..r
    }
}

/// What reading from segment `segment` at offset `offset` gives: whether and
/// where the reader must jump, the segment and offset to read from next, and the
/// records read.
pub open spec fn read_from(v: LogView, segment: u64, offset: u64) -> (
    Option<u64>,
    u64,
    u64,
    Seq<Seq<u8>>,
) {
    if segment < v.head {
        // The segment is gone: jump to the oldest one there is.
        (Some(v.head), v.head, 0, seq![])
    } else if segment - v.head >= v.segments.len() {
        // The segment does not exist yet.
        (None, segment, offset, seq![])
    } else {
        let records = v.segments[segment - v.head].records;
        let data = if offset < records.len() {
            records.skip(offset as int)
        } else {
            seq![]
        };
        if segment == active_segment(v) {
            (None, segment, if offset < records.len() {
                records.len() as u64
            } else {
                offset
            }, data)
        } else {
            (Some((segment + 1) as u64), (segment + 1) as u64, 0, data)
        }
    }
}

/// The bytes of each record handle, in order.
pub open spec fn records_view(rs: Seq<Bytes>) -> Seq<Seq<u8>> {
    rs.map_values(|b: Bytes| bytes_contents(b))
}

/// A segment of a log.
pub struct Segment {
    records: Vec<Bytes>,
    size: usize,
}

impl View for Segment {
    type V = SegmentView;

    closed spec fn view(&self) -> SegmentView {
        SegmentView { records: records_view(self.records@), size: self.size }
    }
}

/// An in-memory commit log for one topic.
pub struct Log {
    max_segment_size: usize,
    max_segment_count: usize,
    head: u64,
    segments: Vec<Segment>,
}

impl View for Log {
    type V = LogView;

    closed spec fn view(&self) -> LogView {
        LogView {
            max_segment_size: self.max_segment_size,
            max_segment_count: self.max_segment_count,
            head: self.head,
            segments: self.segments@.map_values(|s: Segment| s@),
        }
    }
}

impl Log {
    /// An empty log with the given limits: one empty segment, numbered 0.
    pub fn new(max_segment_size: usize, max_segment_count: usize) -> (l: Log)
        ensures
            l@ == (LogView {
                max_segment_size,
                max_segment_count,
                head: 0,
                segments: seq![SegmentView { records: seq![], size: 0 }],
            }),
            log_wf(l@),
    {
        let mut segments = Vec::new();
        segments.push(Segment { records: Vec::new(), size: 0 });
        let l = Log { max_segment_size, max_segment_count, head: 0, segments };
        assert(l@.segments =~= seq![SegmentView { records: seq![], size: 0 }]) by {
            assert(l.segments@[0]@.records =~= seq![]);
        }
        l
    }

    /// Where the next record appended without a new segment would go: the active
    /// segment and its number of records.
    pub fn next_offset(&self) -> (r: (u64, u64))
        requires
            log_wf(self@),
        ensures
            r == next_offset_of(self@),
    {
        let last = self.segments.len() - 1;
        (self.head + last as u64, self.segments[last].records.len() as u64)
    }

    /// Appends `record` and returns its segment and its offset within the segment.
    pub fn append(&mut self, record: Bytes) -> (r: (u64, u64))
        requires
            log_wf(old(self)@),
            old(self)@.head + old(self)@.segments.len() < u64::MAX,
        ensures
            log_wf(final(self)@),
            final(self)@ == appended(old(self)@, bytes_contents(record)),
            r == next_offset_of(rolled_over(old(self)@)),
    {
        let ghost v0 = self@;
        let last = self.segments.len() - 1;
        if self.segments[last].size >= self.max_segment_size
            && self.segments[last].records.len() > 0 {
            self.segments.push(Segment { records: Vec::new(), size: 0 });
            assert(self.segments@[self.segments@.len() - 1]@.records =~= seq![]);
            assert(self@.segments =~= v0.segments.push(SegmentView { records: seq![], size: 0 }));
            if self.segments.len() > self.max_segment_count {
                self.segments.remove(0);
                self.head = self.head + 1;
                assert(self@.segments =~= v0.segments.push(
                    SegmentView { records: seq![], size: 0 },
                ).drop_first());
            }
        }
        let ghost v1 = self@;
        assert(v1 == rolled_over(v0));
        let r = self.next_offset();
        let len = crate::buf::bytes_len(&record);
        let mut active = self.segments.pop().unwrap();
        let ghost old_records = active.records@;
        active.records.push(record);
        active.size = active.size.saturating_add(len);
        assert(records_view(active.records@) =~= records_view(old_records).push(
            bytes_contents(record),
        ));
        self.segments.push(active);
        assert(self@.segments =~= v1.segments.update(
            v1.segments.len() - 1,
            SegmentView {
                records: v1.segments.last().records.push(bytes_contents(record)),
                size: saturating_add(v1.segments.last().size, bytes_contents(record).len()),
            },
        ));
        r
    }

    /// Reads the records of segment `segment` from offset `offset` on, and says
    /// where to read next.
    pub fn readv(&self, segment: u64, offset: u64) -> (r: (Option<u64>, u64, u64, Vec<Bytes>))
        requires
            log_wf(self@),
        ensures
            (r.0, r.1, r.2, records_view(r.3@)) == read_from(self@, segment, offset),
    {
        let mut out: Vec<Bytes> = Vec::new();
        if segment < self.head {
            assert(records_view(out@) =~= seq![]);
            return (Some(self.head), self.head, 0, out);
        }
        let index = segment - self.head;
        if index >= self.segments.len() as u64 {
            assert(records_view(out@) =~= seq![]);
            return (None, segment, offset, out);
        }
        let index = index as usize;
        let records = &self.segments[index].records;
        let ghost all = records_view(records@);
        let len = records.len();
        let mut next = offset;
        if offset < len as u64 {
            let mut i = offset as usize;
            assert(records_view(out@) =~= all.subrange(offset as int, i as int));
            while i < len
                invariant
                    offset <= i <= len,
                    len == records@.len(),
                    all == records_view(records@),
                    records_view(out@) == all.subrange(offset as int, i as int),
                decreases len - i,
            {
                let c = records[i].clone();
                let ghost before = out@;
                out.push(c);
                assert(records_view(out@) =~= records_view(before).push(bytes_contents(c)));
                assert(bytes_contents(c) == all[i as int]);
                i = i + 1;
                assert(records_view(out@) =~= all.subrange(offset as int, i as int));
            }
            assert(all.subrange(offset as int, len as int) =~= all.skip(offset as int));
            next = len as u64;
        } else {
            assert(records_view(out@) =~= seq![]);
        }
        if index == self.segments.len() - 1 {
            (None, segment, next, out)
        } else {
            (Some(segment + 1), segment + 1, 0, out)
        }
    }
}

/// A record appended to a log is read back, alone, from where the append said it
/// went, and the reader is told to read on right after it in the same segment.
/// The next record goes right after it too. (A segment holds fewer than
/// `u64::MAX` records, as the offsets that name them are `u64`s.)
#[verifier::spinoff_prover]
pub proof fn lemma_append_then_read(v: LogView, record: Seq<u8>)
    requires
        log_wf(v),
        v.head + v.segments.len() < u64::MAX,
        v.segments.last().records.len() < u64::MAX,
    ensures
        ({
            let (segment, offset) = next_offset_of(rolled_over(v));
            &&& read_from(appended(v, record), segment, offset) == (
                None::<u64>,
                segment,
                (offset + 1) as u64,
                seq![record],
            )
            &&& next_offset_of(appended(v, record)) == (segment, (offset + 1) as u64)
        }),
{
    let r = rolled_over(v);
    let a = appended(v, record);
    let last = r.segments.last();
    assert(log_wf(r));
    assert(last.records.len() < u64::MAX);
    assert(a.segments.len() == r.segments.len());
    assert(a.head == r.head);
    assert(a.segments.last().records == last.records.push(record));
    assert(last.records.push(record).skip(last.records.len() as int) =~= seq![record]);
}

/// Appending keeps a log within its segment limit: a log with at most
/// `max_segment_count` segments (or one, where the limit is zero) still has at
/// most that many after an append.
#[verifier::spinoff_prover]
pub proof fn lemma_append_keeps_segment_limit(v: LogView, record: Seq<u8>)
    requires
        log_wf(v),
        v.segments.len() <= v.max_segment_count || v.segments.len() == 1,
    ensures
        appended(v, record).segments.len() <= v.max_segment_count || appended(
            v,
            record,
        ).segments.len() == 1,
        appended(v, record).max_segment_count == v.max_segment_count,
{
}

/// Appending only ever adds: every segment that is still kept holds at least the
/// records it held before, in the same order, and the oldest kept segment is never
/// older than before.
#[verifier::spinoff_prover]
pub proof fn lemma_append_only_adds(v: LogView, record: Seq<u8>, segment: u64)
    requires
        log_wf(v),
        v.head + v.segments.len() < u64::MAX,
        appended(v, record).head <= segment < v.head + v.segments.len(),
    ensures
        v.head <= appended(v, record).head,
        v.segments[segment - v.head].records.is_prefix_of(
            appended(v, record).segments[segment - appended(v, record).head].records,
        ),
{
    let r = rolled_over(v);
    let a = appended(v, record);
    let k = segment - v.head;
    let ka = segment - a.head;
    assert(r.segments[segment - r.head] == v.segments[k]);
    if ka == a.segments.len() - 1 {
        assert(v.segments[k].records.is_prefix_of(v.segments[k].records.push(record)));
    }
}

/// Appending keeps a log well formed and opens at most one segment, so the next
/// segment number grows by at most one.
#[verifier::spinoff_prover]
pub proof fn lemma_append_bounds(v: LogView, record: Seq<u8>)
    requires
        log_wf(v),
        v.head + v.segments.len() < u64::MAX,
    ensures
        log_wf(appended(v, record)),
        appended(v, record).head + appended(v, record).segments.len() <= v.head
            + v.segments.len() + 1,
{
}

} // verus!

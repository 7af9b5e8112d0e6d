//! The data logs of a broker: one in-memory commit log per topic, created on the
//! first record of the topic.
use crate::volatile::{
    appended, lemma_append_bounds, lemma_append_then_read, log_wf, next_offset_of, read_from, records_view,
    rolled_over, Log, LogView, SegmentView,
};
use crate::buf::bytes_contents;
use bytes::Bytes;
use std::sync::Arc;
use vstd::hash_map::StringHashMap;
use vstd::prelude::*;

verus! {

#[verifier::external_type_specification]
#[verifier::external_body]
pub struct ExIoError(std::io::Error);

/// The limits that each topic's log is created with.
pub struct Config {
    /// How many bytes a segment holds before the next record opens a new one.
    pub max_segment_size: usize,
    /// How many segments a log keeps.
    pub max_segment_count: usize,
}

/// The data logs, as values: the id of this replica, the limits of new logs, and
/// the log of each topic.
pub struct DataLogView {
    pub id: usize,
    pub max_segment_size: usize,
    pub max_segment_count: usize,
    pub logs: Map<Seq<char>, LogView>,
}

/// A new, empty log with the given limits.
pub open spec fn empty_log(max_segment_size: usize, max_segment_count: usize) -> LogView {
    LogView {
        max_segment_size,
        max_segment_count,
        head: 0,
        segments: seq![SegmentView { records: seq![], size: 0 }],
    }
}

/// The log that a record of `topic` goes to: the topic's log, or a new empty one
/// with the configured limits where the topic has none yet.
pub open spec fn topic_log(v: DataLogView, topic: Seq<char>) -> LogView {
    if v.logs.contains_key(topic) {
        v.logs[topic]
    } else {
        empty_log(v.max_segment_size, v.max_segment_count)
    }
}

/// The data logs after `record` has been appended to `topic`.
pub open spec fn data_appended(v: DataLogView, topic: Seq<char>, record: Seq<u8>) -> DataLogView {
    DataLogView { logs: v.logs.insert(topic, appended(topic_log(v, topic), record)), ..v }
}

/// One commit log per topic.
pub struct DataLog {
    id: usize,
    config: Arc<Config>,
    /// Where each topic's log stands in `logs`.
    topics: StringHashMap<usize>,
    logs: Vec<Log>,
}

impl View for DataLog {
    type V = DataLogView;

    closed spec fn view(&self) -> DataLogView {
        DataLogView {
            id: self.id,
            max_segment_size: self.config.max_segment_size,
            max_segment_count: self.config.max_segment_count,
            logs: Map::new(
                |t: Seq<char>| self.topics@.contains_key(t),
                |t: Seq<char>| self.logs@[self.topics@[t] as int]@,
            ),
        }
    }
}

impl DataLog {
    /// Each topic has a log of its own, and each log is well formed.
    pub closed spec fn wf(&self) -> bool {
        &&& forall|t: Seq<char>| #[trigger]
            self.topics@.contains_key(t) ==> self.topics@[t] < self.logs@.len()
        &&& forall|t1: Seq<char>, t2: Seq<char>|
            #![trigger self.topics@[t1], self.topics@[t2]]
            self.topics@.contains_key(t1) && self.topics@.contains_key(t2) && t1 != t2
                ==> self.topics@[t1] != self.topics@[t2]
        &&& forall|t: Seq<char>| #[trigger]
            self.topics@.contains_key(t) ==> log_wf(self.logs@[self.topics@[t] as int]@)
    }

    /// Each topic's log of well-formed data logs is well formed.
    pub proof fn lemma_logs_wf(&self)
        requires
            self.wf(),
        ensures
            forall|t: Seq<char>| #[trigger]
                self@.logs.contains_key(t) ==> log_wf(self@.logs[t]),
    {
        assert forall|t: Seq<char>| #[trigger] self@.logs.contains_key(t) implies log_wf(
            self@.logs[t],
        ) by {
            assert(self.topics@.contains_key(t));
        }
    }

    /// No logs yet.
    pub fn new(config: Arc<Config>, id: usize) -> (d: DataLog)
        ensures
            d.wf(),
            d@.id == id,
            d@.max_segment_size == config.max_segment_size,
            d@.max_segment_count == config.max_segment_count,
            d@.logs == Map::<Seq<char>, LogView>::empty(),
    {
        let d = DataLog { id, config, topics: StringHashMap::new(), logs: Vec::new() };
        assert(d@.logs =~= Map::<Seq<char>, LogView>::empty());
        d
    }

    /// Appends the record to correct commitlog and returns a boolean to indicate
    /// if this topic is new along with the offset of append
    pub fn append(&mut self, topic: &str, record: Bytes) -> (r: std::io::Result<(bool, (u64, u64))>)
        requires
            old(self).wf(),
            old(self)@.logs.contains_key(topic@) ==> old(self)@.logs[topic@].head
                + old(self)@.logs[topic@].segments.len() < u64::MAX,
        ensures
            final(self).wf(),
            r matches Ok((is_new, offsets)) && is_new == !old(self)@.logs.contains_key(topic@)
                && offsets == next_offset_of(rolled_over(topic_log(old(self)@, topic@))),
            final(self)@ == data_appended(old(self)@, topic@, bytes_contents(record)),
    {
        let ghost v0 = self@;
        match self.topics.get(topic) {
            Some(index) => {
                let index = *index;
                let ghost others = self.logs@;
                let offsets = self.logs[index].append(record);
                proof {
                    assert forall|t: Seq<char>| #[trigger]
                        self.topics@.contains_key(t) && t != topic@ implies self.topics@[t]
                        != index by {}
                    assert(self@.logs =~= v0.logs.insert(
                        topic@,
                        appended(v0.logs[topic@], bytes_contents(record)),
                    ));
                }
                Ok((false, offsets))
            },
            None => {
                let max_segment_size = self.config.max_segment_size;
                let max_segment_count = self.config.max_segment_count;
                let mut log = Log::new(max_segment_size, max_segment_count);
                let offsets = log.append(record);
                let index = self.logs.len();
                self.logs.push(log);
                self.topics.insert(topic.to_owned(), index);
                proof {
                    assert(self@.logs =~= v0.logs.insert(
                        topic@,
                        appended(
                            empty_log(v0.max_segment_size, v0.max_segment_count),
                            bytes_contents(record),
                        ),
                    ));
                }
                Ok((true, offsets))
            },
        }
    }

    /// Where the next record of `topic` would go without a new segment, if the
    /// topic has a log.
    pub fn next_offset(&self, topic: &str) -> (r: Option<(u64, u64)>)
        requires
            self.wf(),
        ensures
            match r {
                Some(o) => self@.logs.contains_key(topic@) && o == next_offset_of(
                    self@.logs[topic@],
                ),
                None => !self@.logs.contains_key(topic@),
            },
    {
        let log = match self.topics.get(topic) {
            Some(index) => &self.logs[*index],
            None => return None,
        };

        Some(log.next_offset())
    }

    /// Sets this replica's entry of the offsets of each listed topic that has a
    /// log to where that log's next record would go; other entries and topics
    /// are left as they are.
    pub fn seek_offsets_to_end(&self, topics: &mut Vec<(String, u8, [(u64, u64); 3])>)
        requires
            self.wf(),
            forall|i: int|
                0 <= i < old(topics)@.len() && self@.logs.contains_key(
                    #[trigger] old(topics)@[i].0@,
                ) ==> self@.id < 3,
        ensures
            final(topics)@.len() == old(topics)@.len(),
            forall|i: int|
                #![trigger final(topics)@[i]]
                0 <= i < old(topics)@.len() ==> {
                    let (t, q, o) = old(topics)@[i];
                    &&& final(topics)@[i].0 == t
                    &&& final(topics)@[i].1 == q
                    &&& final(topics)@[i].2@ == if self@.logs.contains_key(t@) {
                        o@.update(self@.id as int, next_offset_of(self@.logs[t@]))
                    } else {
                        o@
                    }
                },
    {
        let mut i: usize = 0;
        while i < topics.len()
            invariant
                self.wf(),
                i <= topics@.len(),
                topics@.len() == old(topics)@.len(),
                forall|j: int|
                    0 <= j < old(topics)@.len() && self@.logs.contains_key(
                        #[trigger] old(topics)@[j].0@,
                    ) ==> self@.id < 3,
                forall|j: int| i <= j < topics@.len() ==> #[trigger] topics@[j] == old(topics)@[j],
                forall|j: int|
                    #![trigger topics@[j]]
                    0 <= j < i ==> {
                        let (t, q, o) = old(topics)@[j];
                        &&& topics@[j].0 == t
                        &&& topics@[j].1 == q
                        &&& topics@[j].2@ == if self@.logs.contains_key(t@) {
                            o@.update(self@.id as int, next_offset_of(self@.logs[t@]))
                        } else {
                            o@
                        }
                    },
            decreases topics@.len() - i,
        {
            if let Some(last_offset) = self.next_offset(topics[i].0.as_str()) {
                let mut offset = topics[i].2;
                offset[self.id] = last_offset;
                topics[i].2 = offset;
            }
            i = i + 1;
        }
    }

    /// Reads from the log of `topic`, if it has one, the records of segment
    /// `in_segment` from offset `in_offset` on, and says where to read next.
    pub fn readv(
        &mut self,
        topic: &str,
        in_segment: u64,
        in_offset: u64,
    ) -> (r: std::io::Result<Option<(Option<u64>, u64, u64, Vec<Bytes>)>>)
        requires
            old(self).wf(),
        ensures
            final(self).wf(),
            final(self)@ == old(self)@,
            r matches Ok(o) && match o {
                Some((jump, segment, offset, data)) => old(self)@.logs.contains_key(topic@) && (
                jump, segment, offset, records_view(data@)) == read_from(
                    old(self)@.logs[topic@],
                    in_segment,
                    in_offset,
                ),
                None => !old(self)@.logs.contains_key(topic@),
            },
    {
        // Router during data request and notifications will check both
        // native and replica commitlog where this topic doesn't exist
        let log = match self.topics.get(topic) {
            Some(index) => &self.logs[*index],
            None => return Ok(None),
        };

        let (jump, segment, offset, data) = log.readv(in_segment, in_offset);
        Ok(Some((jump, segment, offset, data)))
    }
}

/// A record appended to a topic is read back, alone, from the offsets that the
/// append returned, with the reader told to read on right after it; the logs of
/// all other topics are left as they were. (A segment holds fewer than
/// `u64::MAX` records, as the offsets that name them are `u64`s.)
#[verifier::spinoff_prover]
pub proof fn lemma_data_append_then_read(v: DataLogView, topic: Seq<char>, record: Seq<u8>)
    requires
        v.logs.contains_key(topic) ==> log_wf(v.logs[topic]) && v.logs[topic].head
            + v.logs[topic].segments.len() < u64::MAX && v.logs[topic].segments.last().records.len()
            < u64::MAX,
    ensures
        ({
            let after = data_appended(v, topic, record);
            let (segment, offset) = next_offset_of(rolled_over(topic_log(v, topic)));
            &&& after.logs.contains_key(topic)
            &&& read_from(after.logs[topic], segment, offset) == (
                None::<u64>,
                segment,
                (offset + 1) as u64,
                seq![record],
            )
            &&& forall|t: Seq<char>|
                t != topic ==> (#[trigger] after.logs.contains_key(t) == v.logs.contains_key(t))
                    && (v.logs.contains_key(t) ==> after.logs[t] == v.logs[t])
        }),
{
    let log = topic_log(v, topic);
    assert(log_wf(log));
    assert(log.segments.last().records.len() < u64::MAX) by {
        if !v.logs.contains_key(topic) {
            assert(log.segments.last().records.len() == 0);
        }
    }
    lemma_append_then_read(log, record);
}

/// The data logs after a run of appends, each a topic and a record, in order.
pub open spec fn data_appends(v: DataLogView, appends: Seq<(Seq<char>, Seq<u8>)>) -> DataLogView
    decreases appends.len(),
{
    if appends.len() == 0 {
        v
    } else {
        data_appended(
            data_appends(v, appends.drop_last()),
            appends.last().0,
            appends.last().1,
        )
    }
}

/// Whether `topic` is one of the topics of a run of appends.
pub open spec fn appended_to(appends: Seq<(Seq<char>, Seq<u8>)>, topic: Seq<char>) -> bool {
    exists|i: int| 0 <= i < appends.len() && (#[trigger] appends[i]).0 == topic
}

/// After a run of appends, a topic has a log exactly when it had one before or
/// was appended to, so that `next_offset` is `Some` exactly then and a further
/// append to such a topic says it is not new; the id and the limits of new logs
/// never change.
#[verifier::spinoff_prover]
pub proof fn lemma_data_appends_topics(v: DataLogView, appends: Seq<(Seq<char>, Seq<u8>)>)
    ensures
        data_appends(v, appends).id == v.id,
        data_appends(v, appends).max_segment_size == v.max_segment_size,
        data_appends(v, appends).max_segment_count == v.max_segment_count,
        forall|t: Seq<char>| #[trigger]
            data_appends(v, appends).logs.contains_key(t) <==> v.logs.contains_key(t)
                || appended_to(appends, t),
    decreases appends.len(),
{
    if appends.len() > 0 {
        let init = appends.drop_last();
        lemma_data_appends_topics(v, init);
        assert forall|t: Seq<char>| #[trigger]
            data_appends(v, appends).logs.contains_key(t) <==> v.logs.contains_key(t)
                || appended_to(appends, t) by {
            if appended_to(init, t) {
                let i = choose|i: int| 0 <= i < init.len() && (#[trigger] init[i]).0 == t;
                assert(appends[i] == init[i]);
            }
            if appended_to(appends, t) {
                let i = choose|i: int| 0 <= i < appends.len() && (#[trigger] appends[i]).0 == t;
                if i < init.len() {
                    assert(init[i] == appends[i]);
                }
            }
            if t == appends.last().0 {
                assert(appends[appends.len() - 1] == appends.last());
            }
        }
    }
}

/// An append leaves the logs of all other topics, and so where their next
/// records go, as they were, and never changes the id or the limits of new logs.
#[verifier::spinoff_prover]
pub proof fn lemma_data_append_other_topics(
    v: DataLogView,
    topic: Seq<char>,
    record: Seq<u8>,
    t: Seq<char>,
)
    requires
        t != topic,
    ensures
        data_appended(v, topic, record).logs.contains_key(t) == v.logs.contains_key(t),
        v.logs.contains_key(t) ==> data_appended(v, topic, record).logs[t] == v.logs[t]
            && next_offset_of(data_appended(v, topic, record).logs[t]) == next_offset_of(
            v.logs[t],
        ),
        data_appended(v, topic, record).id == v.id,
        data_appended(v, topic, record).max_segment_size == v.max_segment_size,
        data_appended(v, topic, record).max_segment_count == v.max_segment_count,
{
}

/// After a record is appended to a topic, the topic has a well-formed log whose
/// next segment number still fits, so a further append to it may be made and says
/// the topic is not new. (A topic's log must leave room for two more segment
/// numbers, as the segment numbers are `u64`s.)
#[verifier::spinoff_prover]
pub proof fn lemma_data_append_again(v: DataLogView, topic: Seq<char>, record: Seq<u8>)
    requires
        v.logs.contains_key(topic) ==> log_wf(v.logs[topic]) && v.logs[topic].head
            + v.logs[topic].segments.len() + 1 < u64::MAX,
    ensures
        ({
            let after = data_appended(v, topic, record);
            &&& after.logs.contains_key(topic)
            &&& log_wf(after.logs[topic])
            &&& after.logs[topic].head + after.logs[topic].segments.len() < u64::MAX
        }),
{
    lemma_append_bounds(topic_log(v, topic), record);
}

} // verus!

//! The topic summary of a set of recordings.
//!
//! Each file's summary section lists its channels and, in its statistics, how
//! many messages each channel holds. The summary of several files has one
//! topic per channel id, sorted by id: its name, format and description come
//! from the last file that has the channel, and its message count is the sum of
//! the counts of all files that have the channel, known only while every one of
//! them lists a count for it.
use vstd::prelude::*;
use crate::error::Error;
use crate::topic::Topic;

verus! {

broadcast use vstd::string::group_string_axioms;

/// The schema of a channel: its name and encoding.
pub struct SchemaInfo {
    pub name: String,
    pub encoding: String,
}

/// One channel of a file's summary.
pub struct ChannelInfo {
    pub id: u16,
    pub topic: String,
    pub schema: Option<SchemaInfo>,
}

/// The parts of a file's summary section that the topic summary reads: the
/// channels and the per-channel message counts of the statistics record, if
/// the file has one.
pub struct FileSummary {
    pub channels: Vec<ChannelInfo>,
    pub message_counts: Option<Vec<(u16, u64)>>,
}

/// A channel as plain values.
pub struct ChannelView {
    pub topic: Seq<char>,
    pub schema: Option<(Seq<char>, Seq<char>)>,
}

/// A file summary as plain values: channels by id, and the message count of
/// each channel that the statistics list.
pub struct SummaryView {
    pub channels: Map<u16, ChannelView>,
    pub counts: Option<Map<u16, u64>>,
}

impl ChannelInfo {
    pub open spec fn view_of(&self) -> ChannelView {
        ChannelView {
            topic: self.topic@,
            schema: match self.schema {
                Some(s) => Some((s.name@, s.encoding@)),
                None => None,
            },
        }
    }
}

/// The channels of a list, by id (a later entry replaces an earlier one).
pub open spec fn channel_map(s: Seq<ChannelInfo>) -> Map<u16, ChannelView>
    decreases s.len(),
{
    if s.len() == 0 {
        Map::empty()
    } else {
        channel_map(s.drop_last()).insert(s.last().id, s.last().view_of())
    }
}

/// The counts of a list of `(id, count)` pairs, by id (a later pair replaces
/// an earlier one).
pub open spec fn count_map(s: Seq<(u16, u64)>) -> Map<u16, u64>
    decreases s.len(),
{
    if s.len() == 0 {
        Map::empty()
    } else {
        count_map(s.drop_last()).insert(s.last().0, s.last().1)
    }
}

impl View for FileSummary {
    type V = SummaryView;

    open spec fn view(&self) -> SummaryView {
        SummaryView {
            channels: channel_map(self.channels@),
            counts: match self.message_counts {
                Some(v) => Some(count_map(v@)),
                None => None,
            },
        }
    }
}

impl FileSummary {
    /// No channel id occurs twice.
    pub open spec fn distinct_channels(&self) -> bool {
        forall|i: int, j: int|
            0 <= i < j < self.channels.len() ==> self.channels[i].id != self.channels[j].id
    }
}

/// What `mcap::read::Summary::read` finds in a file's bytes: `None` when it
/// fails, `Some(None)` when the file has no summary section.
pub uninterp spec fn mcap_summary(mcap: Seq<u8>) -> Option<Option<SummaryView>>;

/// Reads the summary section of an MCAP file (`mcap::read::Summary::read`).
/// The contract claims that the outcome is a function of the bytes: the same
/// error-or-summary for the same file, its channels (keyed by channel id,
/// hence each id once) and the per-channel counts of its statistics. The order
/// in which the channels are listed is that of a hash map and is left open.
#[verifier::external_body]
fn read_summary(mcap: &[u8]) -> (res: Result<Option<FileSummary>, mcap::McapError>)
    ensures
        res is Err <==> mcap_summary(mcap@) is None,
        res matches Ok(None) ==> mcap_summary(mcap@) == Some(None::<SummaryView>),
        res matches Ok(Some(s)) ==> s.distinct_channels() && mcap_summary(mcap@) == Some(Some(s@)),
{
    let s = match mcap::read::Summary::read(mcap) {
        Ok(Some(s)) => s,
        Ok(None) => return Ok(None),
        Err(e) => return Err(e),
    };
    let channels = s.channels.iter().map(|(id, c)| ChannelInfo {
        id: *id,
        topic: c.topic.clone(),
        schema: c.schema.as_ref().map(|x| SchemaInfo { name: x.name.clone(), encoding: x.encoding.clone() }),
    }).collect();
    let message_counts = s.stats.map(|st| st.channel_message_counts.into_iter().collect());
    Ok(Some(FileSummary { channels, message_counts }))
}

/// A topic as plain values.
pub struct TopicEntry {
    pub name: Seq<char>,
    pub format: Seq<char>,
    pub description: Seq<char>,
    pub count: Option<int>,
}

pub open spec fn topic_entry(t: Topic) -> TopicEntry {
    TopicEntry {
        name: t.name@,
        format: t.format@,
        description: t.description@,
        count: match t.msg_count {
            Some(c) => Some(c as int),
            None => None,
        },
    }
}

/// The description of a topic whose schema has the given encoding.
pub open spec fn description_of(encoding: Seq<char>) -> Seq<char> {
    "Encoding: "@ + encoding
}

pub open spec fn lookup(m: Map<u16, TopicEntry>, id: u16) -> Option<TopicEntry> {
    if m.contains_key(id) {
        Some(m[id])
    } else {
        None
    }
}

/// The message count of a topic after one more file: a new topic takes the
/// file's count; a known one adds it, while both are known.
pub open spec fn merged_count(prev: Option<TopicEntry>, id: u16, counts: Map<u16, u64>) -> Option<int> {
    match prev {
        Some(e) => if e.count is Some && counts.contains_key(id) {
            Some(e.count.unwrap() + counts[id])
        } else {
            None
        },
        None => if counts.contains_key(id) {
            Some(counts[id] as int)
        } else {
            None
        },
    }
}

/// A topic after one more file that has its channel.
pub open spec fn merged_entry(prev: Option<TopicEntry>, id: u16, ch: ChannelView, counts: Map<u16, u64>) -> TopicEntry {
    TopicEntry {
        name: ch.topic,
        format: ch.schema.unwrap().0,
        description: description_of(ch.schema.unwrap().1),
        count: merged_count(prev, id, counts),
    }
}

/// The topics after one more file.
pub open spec fn merge_file(acc: Map<u16, TopicEntry>, chans: Map<u16, ChannelView>, counts: Map<u16, u64>) -> Map<u16, TopicEntry> {
    Map::new(
        |id: u16| acc.contains_key(id) || chans.contains_key(id),
        |id: u16| if chans.contains_key(id) {
            merged_entry(lookup(acc, id), id, chans[id], counts)
        } else {
            acc[id]
        },
    )
}

/// Merging the file is defined: every channel has a schema and no count
/// leaves `u64`.
pub open spec fn file_defined(acc: Map<u16, TopicEntry>, chans: Map<u16, ChannelView>, counts: Map<u16, u64>) -> bool {
    forall|id: u16|
        #[trigger] chans.contains_key(id) ==> {
            &&& chans[id].schema is Some
            &&& merged_count(lookup(acc, id), id, counts) matches Some(c) ==> c <= u64::MAX
        }
}

/// How summarising a list of files ends.
pub enum SummaryOutcome {
    /// The topics, by id.
    Topics(Map<u16, TopicEntry>),
    /// The file at this position has a summary without statistics.
    MissingStatistics(int),
    /// A file has no summary section, a channel has no schema, or a count
    /// overflows; nothing is specified then.
    Undefined,
}

/// Summarises the files in order. A file whose summary cannot be read is
/// skipped; the first file without statistics ends the summary.
pub open spec fn summary_outcome(files: Seq<Seq<u8>>) -> SummaryOutcome
    decreases files.len(),
{
    if files.len() == 0 {
        SummaryOutcome::Topics(Map::empty())
    } else {
        match summary_outcome(files.drop_last()) {
            SummaryOutcome::Topics(acc) => match mcap_summary(files.last()) {
                None => SummaryOutcome::Topics(acc),
                Some(None) => SummaryOutcome::Undefined,
                Some(Some(s)) => match s.counts {
                    None => SummaryOutcome::MissingStatistics(files.len() - 1),
                    Some(c) => if file_defined(acc, s.channels, c) {
                        SummaryOutcome::Topics(merge_file(acc, s.channels, c))
                    } else {
                        SummaryOutcome::Undefined
                    },
                },
            },
            other => other,
        }
    }
}

/// `v` lists exactly the topics of `m`, sorted by strictly increasing id.
pub open spec fn represents(v: Seq<Topic>, m: Map<u16, TopicEntry>) -> bool {
    &&& forall|i: int, j: int| 0 <= i < j < v.len() ==> v[i].id < v[j].id
    &&& forall|i: int|
        0 <= i < v.len() ==> m.contains_key(#[trigger] v[i].id) && m[v[i].id] == topic_entry(v[i])
    &&& forall|id: u16| #[trigger] m.contains_key(id) ==> exists|i: int| 0 <= i < v.len() && v[i].id == id
}

pub open spec fn files_view(files: Seq<Vec<u8>>) -> Seq<Seq<u8>> {
    files.map_values(|f: Vec<u8>| f@)
}

/// The count that the statistics list for `id`.
fn find_count(counts: &Vec<(u16, u64)>, id: u16) -> (r: Option<u64>)
    ensures
        r == (if count_map(counts@).contains_key(id) {
            Some(count_map(counts@)[id])
        } else {
            None
        }),
{
    let mut j: usize = counts.len();
    assert(counts@.take(j as int) == counts@);
    while j > 0
        invariant
            j <= counts.len(),
            count_map(counts@).contains_key(id) == count_map(counts@.take(j as int)).contains_key(id),
            count_map(counts@).contains_key(id) ==> count_map(counts@)[id] == count_map(
                counts@.take(j as int),
            )[id],
        decreases j,
    {
        assert(counts@.take(j as int).drop_last() == counts@.take(j - 1));
        let (k, c) = counts[j - 1];
        if k == id {
            return Some(c);
        }
        j = j - 1;
    }
    None
}

/// The description `Encoding: <encoding>`.
fn describe(encoding: &String) -> (d: String)
    ensures
        d@ == description_of(encoding@),
{
    let mut d = String::new();
    d.append("Encoding: ");
    d.append(encoding.as_str());
    d
}

/// Adds one channel of a file to the sorted topic table. Returns `false`, and
/// leaves the table unspecified, where the channel has no schema or its count
/// overflows.
fn merge_channel(table: &mut Vec<Topic>, ch: &ChannelInfo, counts: &Vec<(u16, u64)>, Ghost(m): Ghost<Map<u16, TopicEntry>>) -> (ok: bool)
    requires
        represents(old(table)@, m),
    ensures
        ok == (ch.schema is Some && (merged_count(lookup(m, ch.id), ch.id, count_map(counts@)) matches Some(c) ==> c <= u64::MAX)),
        ok ==> represents(final(table)@, m.insert(ch.id, merged_entry(lookup(m, ch.id), ch.id, ch.view_of(), count_map(counts@)))),
{
    let ghost cm = count_map(counts@);
    let schema = match &ch.schema {
        Some(s) => s,
        None => {
            return false;
        },
    };
    let id = ch.id;
    let fresh = find_count(counts, id);
    // first position whose id is not below `id`
    let mut pos: usize = 0;
    while pos < table.len() && table[pos].id < id
        invariant
            pos <= table.len(),
            forall|i: int| 0 <= i < pos ==> table@[i].id < id,
        decreases table.len() - pos,
    {
        pos = pos + 1;
    }
    let existing = pos < table.len() && table[pos].id == id;
    proof {
        if !existing {
            if m.contains_key(id) {
                let i = choose|i: int| 0 <= i < table@.len() && table@[i].id == id;
                if i >= pos {
                    assert(table@[pos as int].id <= table@[i].id);
                }
            }
            assert(!m.contains_key(id));
        } else {
            assert(m.contains_key(id));
        }
    }
    let count: Option<u64> = if existing {
        match (table[pos].msg_count, fresh) {
            (Some(a), Some(b)) => {
                if a > u64::MAX - b {
                    return false;
                }
                Some(a + b)
            },
            _ => None,
        }
    } else {
        fresh
    };
    let topic = Topic {
        id,
        name: ch.topic.clone(),
        format: schema.name.clone(),
        description: describe(&schema.encoding),
        msg_count: count,
    };
    let ghost e = merged_entry(lookup(m, id), id, ch.view_of(), cm);
    assert(topic_entry(topic) == e);
    let ghost old_v = table@;
    if existing {
        table.set(pos, topic);
        proof {
            let v = table@;
            let m2 = m.insert(id, e);
            assert forall|i: int| 0 <= i < v.len() implies m2.contains_key(#[trigger] v[i].id) && m2[v[i].id] == topic_entry(v[i]) by {
                if i != pos {
                    assert(old_v[i] == v[i]);
                    assert(old_v[i].id != id);
                }
            }
            assert forall|x: u16| #[trigger] m2.contains_key(x) implies exists|i: int| 0 <= i < v.len() && v[i].id == x by {
                if x != id {
                    let i = choose|i: int| 0 <= i < old_v.len() && old_v[i].id == x;
                    assert(v[i].id == x);
                } else {
                    assert(v[pos as int].id == x);
                }
            }
        }
    } else {
        table.insert(pos, topic);
        proof {
            let v = table@;
            let m2 = m.insert(id, e);
            assert forall|i: int, j: int| 0 <= i < j < v.len() implies v[i].id < v[j].id by {
                if j < pos {
                } else if j == pos {
                } else if i < pos {
                    assert(v[j] == old_v[j - 1]);
                } else if i == pos {
                    assert(v[j] == old_v[j - 1]);
                    assert(old_v[pos as int].id >= id);
                    if j - 1 > pos {
                        assert(old_v[pos as int].id < old_v[j - 1].id);
                    }
                } else {
                    assert(v[j] == old_v[j - 1]);
                    assert(v[i] == old_v[i - 1]);
                }
            }
            assert forall|i: int| 0 <= i < v.len() implies m2.contains_key(#[trigger] v[i].id) && m2[v[i].id] == topic_entry(v[i]) by {
                if i < pos {
                    assert(v[i] == old_v[i]);
                } else if i > pos {
                    assert(v[i] == old_v[i - 1]);
                }
            }
            assert forall|x: u16| #[trigger] m2.contains_key(x) implies exists|i: int| 0 <= i < v.len() && v[i].id == x by {
                if x != id {
                    let i = choose|i: int| 0 <= i < old_v.len() && old_v[i].id == x;
                    if i < pos {
                        assert(v[i].id == x);
                    } else {
                        assert(v[i + 1].id == x);
                    }
                } else {
                    assert(v[pos as int].id == x);
                }
            }
        }
    }
    true
}

/// The channel map of a list with distinct ids has exactly those ids, each
/// with its own channel.
proof fn lemma_channel_map(s: Seq<ChannelInfo>)
    requires
        forall|i: int, j: int| 0 <= i < j < s.len() ==> s[i].id != s[j].id,
    ensures
        forall|i: int| 0 <= i < s.len() ==> channel_map(s).contains_key(#[trigger] s[i].id) && channel_map(s)[s[i].id] == s[i].view_of(),
        forall|id: u16| #[trigger] channel_map(s).contains_key(id) ==> exists|i: int| 0 <= i < s.len() && s[i].id == id,
    decreases s.len(),
{
    if s.len() > 0 {
        let t = s.drop_last();
        lemma_channel_map(t);
        assert forall|i: int| 0 <= i < s.len() implies channel_map(s).contains_key(#[trigger] s[i].id) && channel_map(s)[s[i].id] == s[i].view_of() by {
            if i < s.len() - 1 {
                assert(t[i] == s[i]);
            }
        }
        assert forall|id: u16| #[trigger] channel_map(s).contains_key(id) implies exists|i: int| 0 <= i < s.len() && s[i].id == id by {
            if id != s.last().id {
                let i = choose|i: int| 0 <= i < t.len() && t[i].id == id;
                assert(s[i].id == id);
            } else {
                assert(s[s.len() - 1].id == id);
            }
        }
    }
}

/// Adds every channel of one file to the sorted topic table. Returns `false`,
/// and leaves the table unspecified, exactly where merging the file is not
/// defined.
fn merge_file_into(table: &mut Vec<Topic>, file: &FileSummary, counts: &Vec<(u16, u64)>, Ghost(m): Ghost<Map<u16, TopicEntry>>) -> (ok: bool)
    requires
        represents(old(table)@, m),
        file.distinct_channels(),
    ensures
        ok == file_defined(m, channel_map(file.channels@), count_map(counts@)),
        ok ==> represents(final(table)@, merge_file(m, channel_map(file.channels@), count_map(counts@))),
{
    let ghost cm = count_map(counts@);
    let ghost all = channel_map(file.channels@);
    proof {
        lemma_channel_map(file.channels@);
    }
    let mut i: usize = 0;
    while i < file.channels.len()
        invariant
            file.distinct_channels(),
            i <= file.channels.len(),
            all == channel_map(file.channels@),
            cm == count_map(counts@),
            forall|k: int| 0 <= k < file.channels.len() ==> all.contains_key(#[trigger] file.channels@[k].id) && all[file.channels@[k].id] == file.channels@[k].view_of(),
            forall|id: u16| #[trigger] all.contains_key(id) ==> exists|k: int| 0 <= k < file.channels.len() && file.channels@[k].id == id,
            forall|k: int| 0 <= k < i ==> {
                &&& all[(#[trigger] file.channels@[k]).id].schema is Some
                &&& merged_count(lookup(m, file.channels@[k].id), file.channels@[k].id, cm) matches Some(c) ==> c <= u64::MAX
            },
            represents(table@, merge_file(m, channel_map(file.channels@.take(i as int)), cm)),
        decreases file.channels.len() - i,
    {
        let ch = &file.channels[i];
        let ghost done = channel_map(file.channels@.take(i as int));
        let ghost cur = merge_file(m, done, cm);
        proof {
            lemma_channel_map(file.channels@.take(i as int));
            if done.contains_key(ch.id) {
                let k = choose|k: int| 0 <= k < i && file.channels@.take(i as int)[k].id == ch.id;
                assert(file.channels@[k].id == ch.id);
            }
            assert(!done.contains_key(ch.id));
            assert(lookup(cur, ch.id) == lookup(m, ch.id));
        }
        let ok = merge_channel(table, ch, counts, Ghost(cur));
        if !ok {
            proof {
                assert(all.contains_key(ch.id));
                assert(!file_defined(m, all, cm));
            }
            return false;
        }
        proof {
            let next = file.channels@.take(i + 1);
            assert(next.drop_last() == file.channels@.take(i as int));
            let e = merged_entry(lookup(m, ch.id), ch.id, ch.view_of(), cm);
            assert(merge_file(m, channel_map(next), cm) == cur.insert(ch.id, e));
        }
        i = i + 1;
    }
    proof {
        assert(file.channels@.take(i as int) == file.channels@);
        assert forall|id: u16| #[trigger] all.contains_key(id) implies {
            &&& all[id].schema is Some
            &&& merged_count(lookup(m, id), id, cm) matches Some(c) ==> c <= u64::MAX
        } by {
            let k = choose|k: int| 0 <= k < file.channels.len() && file.channels@[k].id == id;
            assert(all[file.channels@[k].id].schema is Some);
        }
    }
    true
}

/// Summarises the recordings whose bytes are `files`, reporting `None` where
/// the summary is not defined (see `SummaryOutcome::Undefined`). `names` are
/// the files' display names, used in the error for a file without statistics.
pub fn try_summary(files: &Vec<Vec<u8>>, names: &Vec<String>) -> (res: Option<Result<Vec<Topic>, Error>>)
    requires
        files.len() == names.len(),
    ensures
        match summary_outcome(files_view(files@)) {
            SummaryOutcome::Topics(m) => res matches Some(Ok(v)) && represents(v@, m),
            SummaryOutcome::MissingStatistics(k) => res matches Some(Err(Error::NoStatistics(s))) && s@ == names@[k]@,
            SummaryOutcome::Undefined => res is None,
        },
{
    let mut table: Vec<Topic> = Vec::new();
    let ghost mut m: Map<u16, TopicEntry> = Map::empty();
    let mut k: usize = 0;
    while k < files.len()
        invariant
            files.len() == names.len(),
            k <= files.len(),
            summary_outcome(files_view(files@).take(k as int)) == SummaryOutcome::Topics(m),
            represents(table@, m),
        decreases files.len() - k,
    {
        let ghost fv = files_view(files@);
        assert(fv.take(k + 1).drop_last() == fv.take(k as int));
        assert(fv.take(k + 1).last() == files@[k as int]@);
        match read_summary(files[k].as_slice()) {
            Err(_) => {},
            Ok(None) => {
                proof {
                    lemma_undefined_stays(fv, k + 1);
                }
                return None;
            },
            Ok(Some(s)) => {
                match &s.message_counts {
                    None => {
                        proof {
                            lemma_missing_stays(fv, k + 1, k as int);
                        }
                        return Some(Err(Error::NoStatistics(names[k].clone())));
                    },
                    Some(c) => {
                        let ok = merge_file_into(&mut table, &s, c, Ghost(m));
                        if !ok {
                            proof {
                                lemma_undefined_stays(fv, k + 1);
                            }
                            return None;
                        }
                        proof {
                            m = merge_file(m, channel_map(s.channels@), count_map(c@));
                        }
                    },
                }
            },
        }
        k = k + 1;
    }
    proof {
        assert(files_view(files@).take(k as int) == files_view(files@));
    }
    Some(Ok(table))
}

proof fn lemma_undefined_stays(fv: Seq<Seq<u8>>, n: int)
    requires
        0 <= n <= fv.len(),
        summary_outcome(fv.take(n)) is Undefined,
    ensures
        summary_outcome(fv) is Undefined,
    decreases fv.len() - n,
{
    if n < fv.len() {
        assert(fv.take(n + 1).drop_last() == fv.take(n));
        lemma_undefined_stays(fv, n + 1);
    } else {
        assert(fv.take(n) == fv);
    }
}

proof fn lemma_missing_stays(fv: Seq<Seq<u8>>, n: int, k: int)
    requires
        0 <= n <= fv.len(),
        summary_outcome(fv.take(n)) == SummaryOutcome::MissingStatistics(k),
    ensures
        summary_outcome(fv) == SummaryOutcome::MissingStatistics(k),
    decreases fv.len() - n,
{
    if n < fv.len() {
        assert(fv.take(n + 1).drop_last() == fv.take(n));
        lemma_missing_stays(fv, n + 1, k);
    } else {
        assert(fv.take(n) == fv);
    }
}

/// The topics of all channels of the recordings whose bytes are `files`, one
/// per channel id and sorted by id; or the error for the first file whose
/// summary has no statistics. Files whose summary cannot be read are skipped.
pub fn summary(files: &Vec<Vec<u8>>, names: &Vec<String>) -> (res: Result<Vec<Topic>, Error>)
    requires
        files.len() == names.len(),
        !(summary_outcome(files_view(files@)) is Undefined),
    ensures
        match summary_outcome(files_view(files@)) {
            SummaryOutcome::Topics(m) => res matches Ok(v) && represents(v@, m),
            SummaryOutcome::MissingStatistics(k) => res matches Err(Error::NoStatistics(s)) && s@ == names@[k]@,
            SummaryOutcome::Undefined => false,
        },
{
    match try_summary(files, names) {
        Some(r) => r,
        None => Err(Error::Unknown),
    }
}

} // verus!

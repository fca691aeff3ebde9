//! Properties that hold across the library's functions.
use vstd::prelude::*;
use crate::args::{all_digits, digits_value, is_digit, spec_parse_i64, spec_split_once, spec_time_args, spec_time_point_args};
use crate::extraction::{routes_of, spec_next_step, spec_parser_kind, ParserKind, Step};
use crate::path::spec_extension;
use crate::payload::{spec_serialized, starts_with_zstd_magic, zstd_decoded};
use crate::image::layout_fits;
use crate::pointcloud::{datatype_size, valid_datatype, PointCloudView, FLOAT32, FLOAT64, INT16, INT32, INT8, UINT16, UINT32, UINT8};
use crate::topic::Topic;
use vstd::layout::size_of;
use crate::summary::{
    file_defined, merge_file, mcap_summary, summary_outcome, SummaryOutcome, SummaryView, TopicEntry,
};
use crate::text::{decimal, digit_char, spec_ascii_lowercase_char};

verus! {

proof fn lemma_decimal_digits(n: nat)
    ensures
        decimal(n).len() > 0,
        all_digits(decimal(n)),
        digits_value(decimal(n)) == n,
    decreases n,
{
    let d = n % 10;
    assert(((d + 48) as char) as u32 == d + 48);
    if n < 10 {
        let s = decimal(n);
        assert(s.drop_last() == Seq::<char>::empty());
        assert(s.last() == digit_char(d));
        assert(digits_value(s) == digits_value(s.drop_last()) * 10 + d);
        assert(is_digit(s[0]));
    }
    if n >= 10 {
        lemma_decimal_digits(n / 10);
        let s = decimal(n);
        assert(s.drop_last() == decimal(n / 10));
        assert(s.last() == digit_char(d));
        assert(digits_value(s) == digits_value(decimal(n / 10)) * 10 + d);
        assert(n == (n / 10) * 10 + d);
        assert forall|i: int| 0 <= i < s.len() implies is_digit(#[trigger] s[i]) by {
            if i < s.len() - 1 {
                assert(s[i] == decimal(n / 10)[i]);
            }
        }
    }
}

/// Reading back the decimal notation that topic descriptions print gives the
/// number again: `str::parse::<i64>` of the digits of `n` is `n`.
pub proof fn law_parse_reads_decimal(n: u64)
    requires
        n <= i64::MAX,
    ensures
        spec_parse_i64(decimal(n as nat)) == Some(n as i64),
{
    lemma_decimal_digits(n as nat);
    let s = decimal(n as nat);
    assert(is_digit(s[0]));
    assert(s[0] != '-' && s[0] != '+');
}

/// The extension is in lower case: it holds no ASCII capital letter.
pub proof fn law_extension_is_lower_case(p: Seq<char>)
    ensures
        forall|i: int| 0 <= i < spec_extension(p).len() ==> !('A' <= #[trigger] spec_extension(p)[i] && spec_extension(p)[i] <= 'Z'),
{
    assert forall|i: int| 0 <= i < spec_extension(p).len() implies !('A' <= #[trigger] spec_extension(p)[i] && spec_extension(p)[i] <= 'Z') by {
        let c = crate::path::raw_extension(p)[i];
        assert(spec_extension(p)[i] == spec_ascii_lowercase_char(c));
        if 'A' <= c && c <= 'Z' {
            assert(((c as u32) + 32) as char == spec_ascii_lowercase_char(c));
        }
    }
}

/// A payload that does not open with the zstd magic number is the serialized
/// message itself; one that does is what zstd decompresses it to.
pub proof fn law_payload_framing(data: Seq<u8>)
    requires
        data.len() >= 4,
    ensures
        !starts_with_zstd_magic(data) ==> spec_serialized(data) == Some(data),
        starts_with_zstd_magic(data) ==> spec_serialized(data) == zstd_decoded(data),
{
}

/// A requested interrupt ends the loop at the next message, whatever the
/// message.
pub proof fn law_interrupt_first(publish_time: u64, trim_start: i64, trim_end: i64, route: Option<ParserKind>)
    ensures
        spec_next_step(true, publish_time, trim_start, trim_end, route) == Step::Interrupted,
{
}

/// Only messages inside the trim window, on a routed topic, reach a parser,
/// and they reach the parser of their route.
pub proof fn law_handled_messages_lie_in_window(
    interrupted: bool,
    publish_time: u64,
    trim_start: i64,
    trim_end: i64,
    route: Option<ParserKind>,
    k: ParserKind,
)
    requires
        spec_next_step(interrupted, publish_time, trim_start, trim_end, route) == Step::Handle(k),
    ensures
        !interrupted,
        trim_start as u64 <= publish_time <= trim_end as u64,
        route == Some(k),
{
}

/// Once a message lies past the end of the trim window, so does every message
/// published no earlier: stopping loses nothing of a stream in publish order.
pub proof fn law_stop_is_final(
    t1: u64,
    t2: u64,
    trim_start: i64,
    trim_end: i64,
    r1: Option<ParserKind>,
    r2: Option<ParserKind>,
)
    requires
        spec_next_step(false, t1, trim_start, trim_end, r1) == Step::Stop,
        t1 <= t2,
    ensures
        spec_next_step(false, t2, trim_start, trim_end, r2) == Step::Stop,
{
}

/// Every decoded column of a cloud has one value per point (`row_step` of
/// them), the value at point `i` being read at `point_step * i + offset`.
pub proof fn law_column_per_point(c: PointCloudView, k: int, i: int)
    requires
        0 <= k < c.fields.len(),
        0 <= i < c.row_step,
    ensures
        c.field_column(c.fields[k]).len() == c.row_step,
        c.field_column(c.fields[k])[i] == crate::pointcloud::value_at(
            c.data,
            c.fields[k].datatype,
            c.point_step * i + c.fields[k].offset,
        ),
{
}

/// The summary of a single file lists its channels, each with the count that
/// the file's statistics give it (unknown where they list none).
pub proof fn law_single_file_summary(f: Seq<u8>, s: SummaryView, counts: Map<u16, u64>, id: u16)
    requires
        mcap_summary(f) == Some(Some(s)),
        s.counts == Some(counts),
        file_defined(Map::empty(), s.channels, counts),
    ensures
        summary_outcome(seq![f]) == SummaryOutcome::Topics(merge_file(Map::empty(), s.channels, counts)),
        merge_file(Map::empty(), s.channels, counts).contains_key(id) == s.channels.contains_key(id),
        s.channels.contains_key(id) ==> merge_file(Map::empty(), s.channels, counts)[id].count == (
        if counts.contains_key(id) {
            Some(counts[id] as int)
        } else {
            None::<int>
        }),
{
    assert(seq![f].drop_last() == Seq::<Seq<u8>>::empty());
    assert(seq![f].last() == f);
    assert(summary_outcome(Seq::<Seq<u8>>::empty()) == SummaryOutcome::Topics(Map::<u16, TopicEntry>::empty()));
}

/// The file's summary reads and lists channel `id`.
pub open spec fn file_has(f: Seq<u8>, id: u16) -> bool {
    mcap_summary(f) matches Some(Some(s)) && s.channels.contains_key(id)
}

/// The file's statistics give a count for channel `id`.
pub open spec fn file_lists(f: Seq<u8>, id: u16) -> bool {
    mcap_summary(f) matches Some(Some(s)) && s.counts matches Some(c) && c.contains_key(id)
}

/// The count that the file's statistics give channel `id` (0 where none).
pub open spec fn file_count(f: Seq<u8>, id: u16) -> int {
    match mcap_summary(f) {
        Some(Some(s)) => match s.counts {
            Some(c) => if c.contains_key(id) {
                c[id] as int
            } else {
                0
            },
            None => 0,
        },
        _ => 0,
    }
}

/// Every file that has channel `id` gives a count for it.
pub open spec fn all_list(fs: Seq<Seq<u8>>, id: u16) -> bool {
    forall|k: int| 0 <= k < fs.len() && #[trigger] file_has(fs[k], id) ==> file_lists(fs[k], id)
}

/// The sum of the counts of channel `id` over the files that have it.
pub open spec fn total_count(fs: Seq<Seq<u8>>, id: u16) -> int
    decreases fs.len(),
{
    if fs.len() == 0 {
        0
    } else {
        total_count(fs.drop_last(), id) + if file_has(fs.last(), id) {
            file_count(fs.last(), id)
        } else {
            0
        }
    }
}

/// When the files summarise to topics, a channel is a topic exactly when some
/// file has it, and its message count is the sum of the counts of the files
/// that have it, known exactly when every one of them gives a count.
pub proof fn law_summary_counts(fs: Seq<Seq<u8>>, m: Map<u16, TopicEntry>, id: u16)
    requires
        summary_outcome(fs) == SummaryOutcome::Topics(m),
    ensures
        m.contains_key(id) <==> exists|k: int| 0 <= k < fs.len() && #[trigger] file_has(fs[k], id),
        m.contains_key(id) ==> m[id].count == (if all_list(fs, id) {
            Some(total_count(fs, id))
        } else {
            None::<int>
        }),
    decreases fs.len(),
{
    if fs.len() == 0 {
        assert(m == Map::<u16, TopicEntry>::empty());
    } else {
        let pre = fs.drop_last();
        let f = fs.last();
        let acc = match summary_outcome(pre) {
            SummaryOutcome::Topics(a) => a,
            _ => Map::empty(),
        };
        assert(summary_outcome(pre) is Topics);
        law_summary_counts(pre, acc, id);
        assert forall|k: int| 0 <= k < pre.len() implies pre[k] == fs[k] by {}
        if file_has(f, id) {
            assert(file_has(fs[fs.len() - 1], id));
            let s = mcap_summary(f)->0->0;
            let c = s.counts->0;
            assert(m == merge_file(acc, s.channels, c));
            assert(m.contains_key(id));
            if acc.contains_key(id) {
                if all_list(fs, id) {
                    assert(all_list(pre, id)) by {
                        assert forall|k: int| 0 <= k < pre.len() && #[trigger] file_has(pre[k], id) implies file_lists(pre[k], id) by {
                            assert(file_has(fs[k], id));
                        }
                    }
                    assert(file_lists(fs[fs.len() - 1], id));
                } else {
                    let k = choose|k: int| 0 <= k < fs.len() && #[trigger] file_has(fs[k], id) && !file_lists(fs[k], id);
                    if k < pre.len() {
                        assert(file_has(pre[k], id));
                        assert(!all_list(pre, id));
                    }
                }
            } else {
                assert forall|k: int| 0 <= k < pre.len() implies !#[trigger] file_has(pre[k], id) by {}
                assert(total_count(pre, id) == 0) by {
                    lemma_total_absent(pre, id);
                }
                if all_list(fs, id) {
                    assert(file_lists(fs[fs.len() - 1], id));
                } else {
                    let k = choose|k: int| 0 <= k < fs.len() && #[trigger] file_has(fs[k], id) && !file_lists(fs[k], id);
                    if k < pre.len() {
                        assert(file_has(pre[k], id));
                    }
                }
            }
        } else {
            assert(!file_has(fs[fs.len() - 1], id));
            match mcap_summary(f) {
                Some(Some(s)) => {
                    let c = s.counts->0;
                    assert(m == merge_file(acc, s.channels, c));
                },
                _ => {
                    assert(m == acc);
                },
            }
            if m.contains_key(id) {
                if all_list(pre, id) {
                    assert forall|k: int| 0 <= k < fs.len() && #[trigger] file_has(fs[k], id) implies file_lists(fs[k], id) by {
                        if k < pre.len() {
                            assert(file_has(pre[k], id));
                        }
                    }
                } else {
                    let k = choose|k: int| 0 <= k < pre.len() && #[trigger] file_has(pre[k], id) && !file_lists(pre[k], id);
                    assert(file_has(fs[k], id));
                }
            }
            if exists|k: int| 0 <= k < fs.len() && #[trigger] file_has(fs[k], id) {
                let k = choose|k: int| 0 <= k < fs.len() && #[trigger] file_has(fs[k], id);
                assert(k < pre.len());
                assert(file_has(pre[k], id));
            }
        }
    }
}

proof fn lemma_total_absent(fs: Seq<Seq<u8>>, id: u16)
    requires
        forall|k: int| 0 <= k < fs.len() ==> !#[trigger] file_has(fs[k], id),
    ensures
        total_count(fs, id) == 0,
    decreases fs.len(),
{
    if fs.len() > 0 {
        let pre = fs.drop_last();
        assert forall|k: int| 0 <= k < pre.len() implies !#[trigger] file_has(pre[k], id) by {
            assert(pre[k] == fs[k]);
        }
        lemma_total_absent(pre, id);
        assert(!file_has(fs[fs.len() - 1], id));
    }
}

/// The outcome of summarising the files with file `k` left out, given the
/// outcome with it: the position of a file without statistics moves down by
/// one when it comes after `k`.
pub open spec fn without_file(o: SummaryOutcome, k: int) -> SummaryOutcome {
    match o {
        SummaryOutcome::MissingStatistics(j) => SummaryOutcome::MissingStatistics(
            if j > k {
                j - 1
            } else {
                j
            },
        ),
        other => other,
    }
}

proof fn lemma_missing_index(fs: Seq<Seq<u8>>)
    ensures
        summary_outcome(fs) matches SummaryOutcome::MissingStatistics(j) ==> 0 <= j < fs.len(),
    decreases fs.len(),
{
    if fs.len() > 0 {
        lemma_missing_index(fs.drop_last());
    }
}

proof fn lemma_skip_prefix(fs: Seq<Seq<u8>>, k: int, n: int)
    requires
        0 <= k < n <= fs.len(),
        mcap_summary(fs[k]) is None,
    ensures
        summary_outcome(fs.remove(k).take(n - 1)) == without_file(summary_outcome(fs.take(n)), k),
    decreases n,
{
    let g = fs.remove(k);
    assert(fs.take(n).drop_last() == fs.take(n - 1));
    assert(fs.take(n).last() == fs[n - 1]);
    if n == k + 1 {
        assert(g.take(k) == fs.take(k));
        lemma_missing_index(fs.take(k));
    } else {
        lemma_skip_prefix(fs, k, n - 1);
        assert(g.take(n - 1).drop_last() == g.take(n - 2));
        assert(g.take(n - 1).last() == fs[n - 1]);
        lemma_missing_index(fs.take(n - 1));
    }
}

/// A file whose summary cannot be read changes nothing: leaving it out gives
/// the same topics, the same error for the same file without statistics, or
/// the same undefined outcome.
pub proof fn law_unreadable_file_is_skipped(fs: Seq<Seq<u8>>, k: int)
    requires
        0 <= k < fs.len(),
        mcap_summary(fs[k]) is None,
    ensures
        summary_outcome(fs.remove(k)) == without_file(summary_outcome(fs), k),
{
    lemma_skip_prefix(fs, k, fs.len() as int);
    assert(fs.take(fs.len() as int) == fs);
    assert(fs.remove(k).take(fs.len() - 1) == fs.remove(k));
}

/// The doubled count, where it is known.
pub open spec fn doubled(c: Option<int>) -> Option<int> {
    match c {
        Some(n) => Some(2 * n),
        None => None,
    }
}

/// Summarising a file twice is defined where summarising it once is and its
/// counts fit twice in `u64`; it lists the same topics with the same names,
/// formats and descriptions, and doubles every known count.
pub proof fn law_file_twice_doubles_counts(f: Seq<u8>, s: SummaryView, counts: Map<u16, u64>)
    requires
        mcap_summary(f) == Some(Some(s)),
        s.counts == Some(counts),
        file_defined(Map::empty(), s.channels, counts),
        forall|id: u16| #[trigger] counts.contains_key(id) ==> counts[id] <= u64::MAX / 2,
    ensures
        ({
            let m1 = merge_file(Map::empty(), s.channels, counts);
            &&& summary_outcome(seq![f]) == SummaryOutcome::Topics(m1)
            &&& summary_outcome(seq![f, f]) matches SummaryOutcome::Topics(m2) && {
                &&& m2.dom() == m1.dom()
                &&& forall|id: u16|
                    #[trigger] m1.contains_key(id) ==> {
                        &&& m2[id].name == m1[id].name
                        &&& m2[id].format == m1[id].format
                        &&& m2[id].description == m1[id].description
                        &&& m2[id].count == doubled(m1[id].count)
                    }
            }
        }),
{
    let m1 = merge_file(Map::empty(), s.channels, counts);
    law_single_file_summary(f, s, counts, 0);
    let two = seq![f, f];
    assert(two.drop_last() == seq![f]);
    assert(two.last() == f);
    assert(file_defined(m1, s.channels, counts)) by {
        assert forall|id: u16| #[trigger] s.channels.contains_key(id) implies {
            &&& s.channels[id].schema is Some
            &&& crate::summary::merged_count(crate::summary::lookup(m1, id), id, counts) matches Some(c) ==> c <= u64::MAX
        } by {
            assert(m1.contains_key(id));
        }
    }
    let m2 = merge_file(m1, s.channels, counts);
    assert(summary_outcome(two) == SummaryOutcome::Topics(m2));
    assert(m2.dom() =~= m1.dom());
}

/// The entries that hold an `=`.
pub open spec fn assignments(entries: Seq<Seq<char>>) -> Seq<Seq<char>> {
    entries.filter(|e: Seq<char>| spec_split_once(e, '=') is Some)
}

proof fn lemma_time_args_of_assignments(entries: Seq<Seq<char>>)
    ensures
        spec_time_args(assignments(entries)) == spec_time_args(entries),
    decreases entries.len(),
{
    reveal(Seq::filter);
    if entries.len() > 0 {
        let pre = entries.drop_last();
        lemma_time_args_of_assignments(pre);
        let x = entries.last();
        if spec_split_once(x, '=') is Some {
            let t = assignments(pre).push(x);
            assert(assignments(entries) == t);
            assert(t.drop_last() == assignments(pre));
            assert(t.last() == x);
        } else {
            assert(assignments(entries) == assignments(pre));
        }
    }
}

/// Entries without `=` change nothing: two lists that hold the same
/// `timeline=value` entries in the same order give the same arguments, or the
/// same error.
pub proof fn law_entries_without_assignment_are_ignored(e1: Seq<Seq<char>>, e2: Seq<Seq<char>>)
    requires
        assignments(e1) == assignments(e2),
    ensures
        spec_time_args(e1) == spec_time_args(e2),
{
    lemma_time_args_of_assignments(e1);
    lemma_time_args_of_assignments(e2);
}

/// Inserting an entry without `=` anywhere in a list changes nothing.
pub proof fn law_inserted_entry_without_assignment(entries: Seq<Seq<char>>, i: int, x: Seq<char>)
    requires
        0 <= i <= entries.len(),
        spec_split_once(x, '=') is None,
    ensures
        spec_time_args(entries.insert(i, x)) == spec_time_args(entries),
{
    reveal(Seq::filter);
    let pred = |e: Seq<char>| spec_split_once(e, '=') is Some;
    let a = entries.take(i);
    let b = entries.skip(i);
    assert(entries.insert(i, x) == a + seq![x] + b);
    assert(entries == a + b);
    Seq::filter_distributes_over_add(a + seq![x], b, pred);
    Seq::filter_distributes_over_add(a, seq![x], pred);
    Seq::filter_distributes_over_add(a, b, pred);
    let one = seq![x];
    assert(one.drop_last() == Seq::<Seq<char>>::empty());
    assert(one.filter(pred) == Seq::<Seq<char>>::empty().filter(pred));
    assert(Seq::<Seq<char>>::empty().filter(pred) == Seq::<Seq<char>>::empty());
    assert(a.filter(pred) + Seq::<Seq<char>>::empty() == a.filter(pred));
    law_entries_without_assignment_are_ignored(entries.insert(i, x), entries);
}

/// Entries without `=` change nothing in any of the three time lists: lists
/// that hold the same `timeline=value` entries in the same order give the
/// same arguments, or the same error.
pub proof fn law_time_point_args_ignore_entries_without_assignment(
    s1: Seq<Seq<char>>,
    d1: Seq<Seq<char>>,
    t1: Seq<Seq<char>>,
    s2: Seq<Seq<char>>,
    d2: Seq<Seq<char>>,
    t2: Seq<Seq<char>>,
)
    requires
        assignments(s1) == assignments(s2),
        assignments(d1) == assignments(d2),
        assignments(t1) == assignments(t2),
    ensures
        spec_time_point_args(s1, d1, t1) == spec_time_point_args(s2, d2, t2),
{
    law_entries_without_assignment_are_ignored(s1, s2);
    law_entries_without_assignment_are_ignored(d1, d2);
    law_entries_without_assignment_are_ignored(t1, t2);
}

/// A zstd frame is transparent: where a payload `z` opens with the magic
/// number and zstd decompresses it to a payload `d` that does not, the two
/// payloads carry the same serialized message, so every parser decodes them
/// alike.
pub proof fn law_zstd_payload_is_transparent(d: Seq<u8>, z: Seq<u8>)
    requires
        d.len() >= 4,
        !starts_with_zstd_magic(d),
        z.len() >= 4,
        starts_with_zstd_magic(z),
        zstd_decoded(z) == Some(d),
    ensures
        spec_serialized(z) == spec_serialized(d),
{
}

/// A topic takes its name, format and description from the last file that
/// has its channel, whatever earlier files said: the channel's topic, its
/// schema's name, and `Encoding: ` followed by its schema's encoding.
pub proof fn law_summary_fields_from_last_file(fs: Seq<Seq<u8>>, m: Map<u16, TopicEntry>, id: u16, k: int)
    requires
        summary_outcome(fs) == SummaryOutcome::Topics(m),
        0 <= k < fs.len(),
        file_has(fs[k], id),
        forall|j: int| k < j < fs.len() ==> !#[trigger] file_has(fs[j], id),
    ensures
        m.contains_key(id),
        mcap_summary(fs[k]) matches Some(Some(s)) && {
            let ch = s.channels[id];
            &&& ch.schema is Some
            &&& m[id].name == ch.topic
            &&& m[id].format == ch.schema.unwrap().0
            &&& m[id].description == "Encoding: "@ + ch.schema.unwrap().1
        },
    decreases fs.len(),
{
    let pre = fs.drop_last();
    let f = fs.last();
    assert(summary_outcome(pre) is Topics);
    let acc = match summary_outcome(pre) {
        SummaryOutcome::Topics(a) => a,
        _ => Map::empty(),
    };
    if k == fs.len() - 1 {
        let s = mcap_summary(f)->0->0;
        let c = s.counts->0;
        assert(file_defined(acc, s.channels, c));
        assert(m == merge_file(acc, s.channels, c));
        assert(s.channels.contains_key(id));
    } else {
        assert(pre[k] == fs[k]);
        assert forall|j: int| k < j < pre.len() implies !#[trigger] file_has(pre[j], id) by {
            assert(pre[j] == fs[j]);
        }
        law_summary_fields_from_last_file(pre, acc, id, k);
        assert(!file_has(fs[fs.len() - 1], id));
        match mcap_summary(f) {
            Some(Some(s)) => {
                let c = s.counts->0;
                assert(m == merge_file(acc, s.channels, c));
            },
            _ => {
                assert(m == acc);
            },
        }
    }
}

/// Each point-field datatype takes as many bytes as its type: one for
/// `INT8` and `UINT8`, two for `INT16` and `UINT16`, four for `INT32`,
/// `UINT32` and `FLOAT32` (as wide as a `u32`), eight for `FLOAT64` (as wide
/// as a `u64`).
pub proof fn law_datatype_sizes_are_type_widths()
    ensures
        datatype_size(INT8) == size_of::<i8>(),
        datatype_size(UINT8) == size_of::<u8>(),
        datatype_size(INT16) == size_of::<i16>(),
        datatype_size(UINT16) == size_of::<u16>(),
        datatype_size(INT32) == size_of::<i32>(),
        datatype_size(UINT32) == size_of::<u32>(),
        datatype_size(FLOAT32) == size_of::<u32>(),
        datatype_size(FLOAT64) == size_of::<u64>(),
{
    broadcast use vstd::layout::layout_of_primitives;
}

/// The width of one value of a point-field datatype, from its type.
pub open spec fn type_width(dt: u8) -> nat {
    if dt == INT8 {
        size_of::<i8>()
    } else if dt == UINT8 {
        size_of::<u8>()
    } else if dt == INT16 {
        size_of::<i16>()
    } else if dt == UINT16 {
        size_of::<u16>()
    } else if dt == INT32 {
        size_of::<i32>()
    } else if dt == UINT32 {
        size_of::<u32>()
    } else if dt == FLOAT32 {
        size_of::<u32>()
    } else {
        size_of::<u64>()
    }
}

/// A cloud decodes whenever every field has a known datatype and one element
/// per point, the last point's value of every field ends within the data (and
/// within `u32`), and `height * width` fits in `u32`.
pub proof fn law_cloud_decodable_when_fields_fit(c: PointCloudView)
    requires
        c.fields.len() > 0 ==> c.height * c.width <= u32::MAX,
        forall|k: int| 0 <= k < c.fields.len() ==> valid_datatype(#[trigger] c.fields[k].datatype) && c.fields[k].count == 1,
        forall|k: int|
            0 <= k < c.fields.len() && c.row_step > 0 ==> {
                &&& c.point_step * (c.row_step - 1) + (#[trigger] c.fields[k]).offset + type_width(c.fields[k].datatype) <= u32::MAX
                &&& c.point_step * (c.row_step - 1) + c.fields[k].offset + type_width(c.fields[k].datatype) <= c.data.len()
            },
    ensures
        c.decodable(),
{
    broadcast use vstd::layout::layout_of_primitives;

    assert forall|k: int| 0 <= k < c.fields.len() implies #[trigger] c.field_decodable(c.fields[k]) by {
        let f = c.fields[k];
        assert(datatype_size(f.datatype) == type_width(f.datatype));
    }
}

/// Every message inside the trim window, on a routed topic, reaches the
/// parser of its route unless an interrupt is pending.
pub proof fn law_in_window_messages_are_handled(publish_time: u64, trim_start: i64, trim_end: i64, k: ParserKind)
    requires
        trim_start as u64 <= publish_time <= trim_end as u64,
    ensures
        spec_next_step(false, publish_time, trim_start, trim_end, Some(k)) == Step::Handle(k),
{
}

/// The schemas that have a parser, each with its own.
pub proof fn law_parser_for_each_schema()
    ensures
        spec_parser_kind("builtin_interfaces/msg/Time"@) == Some(ParserKind::Timestamp),
        spec_parser_kind("sensor_msgs/msg/Image"@) == Some(ParserKind::Image),
        spec_parser_kind("sensor_msgs/msg/CompressedImage"@) == Some(ParserKind::CompressedImage),
        spec_parser_kind("sensor_msgs/msg/PointCloud2"@) == Some(ParserKind::PointCloud),
{
    reveal_strlit("builtin_interfaces/msg/Time");
    reveal_strlit("sensor_msgs/msg/Image");
    reveal_strlit("sensor_msgs/msg/CompressedImage");
    reveal_strlit("sensor_msgs/msg/PointCloud2");
    assert("sensor_msgs/msg/Image"@[0] != "builtin_interfaces/msg/Time"@[0]);
    assert("sensor_msgs/msg/CompressedImage"@[0] != "builtin_interfaces/msg/Time"@[0]);
    assert("sensor_msgs/msg/CompressedImage"@[16] != "sensor_msgs/msg/Image"@[16]);
}

/// A topic whose format has a parser is routed to that parser, unless a later
/// topic of the same name with a parser of its own replaces the route.
pub proof fn law_topics_are_routed_to_their_parser(ts: Seq<Topic>, i: int)
    requires
        0 <= i < ts.len(),
        spec_parser_kind(ts[i].format@) is Some,
        forall|j: int| i < j < ts.len() && (#[trigger] ts[j]).name@ == ts[i].name@ ==> spec_parser_kind(ts[j].format@) is None,
    ensures
        routes_of(ts).contains_key(ts[i].name@),
        routes_of(ts)[ts[i].name@] == spec_parser_kind(ts[i].format@).unwrap(),
    decreases ts.len(),
{
    let pre = ts.drop_last();
    if i < ts.len() - 1 {
        assert(pre[i] == ts[i]);
        assert forall|j: int| i < j < pre.len() && (#[trigger] pre[j]).name@ == pre[i].name@ implies spec_parser_kind(pre[j].format@) is None by {
            assert(pre[j] == ts[j]);
        }
        law_topics_are_routed_to_their_parser(pre, i);
        let last = ts[ts.len() - 1];
        assert(last == ts.last());
        if last.name@ == ts[i].name@ {
            assert(spec_parser_kind(last.format@) is None);
        }
    }
}

/// The layout fits for every image whose RGB buffer (`2 * height / 3` rows of
/// `width` three-byte pixels) fits in `usize` and whose RGB stride fits in
/// `i32`; and it fits only where that buffer fits in `usize`.
pub proof fn law_layout_fits_when_buffer_fits(width: u32, height: u32)
    ensures
        ((2 * height) / 3) * width * 3 <= usize::MAX && width * 3 <= i32::MAX ==> layout_fits(width, height),
        layout_fits(width, height) ==> ((2 * height) / 3) * width * 3 <= usize::MAX,
{
    if width * 3 <= i32::MAX {
        assert(width as i32 == width);
    }
}

} // verus!

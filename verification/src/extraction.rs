//! The decisions of the extraction loop: which parser handles a topic, and
//! what to do with each message of the stream.
use vstd::prelude::*;
use crate::text::str_eq;
use crate::topic::Topic;

verus! {

broadcast use vstd::string::group_string_axioms;

/// The message types that have a parser.
#[derive(Clone, Copy, Debug, PartialEq, Eq, Structural)]
pub enum ParserKind {
    Timestamp,
    Image,
    CompressedImage,
    PointCloud,
}

/// The parser for topics of the given schema name, if there is one.
pub open spec fn spec_parser_kind(format: Seq<char>) -> Option<ParserKind> {
    if format == "builtin_interfaces/msg/Time"@ {
        Some(ParserKind::Timestamp)
    } else if format == "sensor_msgs/msg/Image"@ {
        Some(ParserKind::Image)
    } else if format == "sensor_msgs/msg/CompressedImage"@ {
        Some(ParserKind::CompressedImage)
    } else if format == "sensor_msgs/msg/PointCloud2"@ {
        Some(ParserKind::PointCloud)
    } else {
        None
    }
}

/// The parser for topics of the given schema name, if there is one.
pub fn parser_kind(format: &str) -> (k: Option<ParserKind>)
    ensures
        k == spec_parser_kind(format@),
{
    if str_eq(format, "builtin_interfaces/msg/Time") {
        Some(ParserKind::Timestamp)
    } else if str_eq(format, "sensor_msgs/msg/Image") {
        Some(ParserKind::Image)
    } else if str_eq(format, "sensor_msgs/msg/CompressedImage") {
        Some(ParserKind::CompressedImage)
    } else if str_eq(format, "sensor_msgs/msg/PointCloud2") {
        Some(ParserKind::PointCloud)
    } else {
        None
    }
}

/// Which parser handles each topic name.
pub struct ParserTable {
    pub routes: Vec<(String, ParserKind)>,
}

/// The routes of a list of `(topic, parser)` pairs; a later pair for the same
/// topic replaces an earlier one.
pub open spec fn route_map(s: Seq<(String, ParserKind)>) -> Map<Seq<char>, ParserKind>
    decreases s.len(),
{
    if s.len() == 0 {
        Map::empty()
    } else {
        route_map(s.drop_last()).insert(s.last().0@, s.last().1)
    }
}

/// The routes that a list of topics sets up: each topic whose format has a
/// parser is routed to it, a later topic of the same name replacing an earlier
/// one.
pub open spec fn routes_of(topics: Seq<Topic>) -> Map<Seq<char>, ParserKind>
    decreases topics.len(),
{
    if topics.len() == 0 {
        Map::empty()
    } else {
        let m = routes_of(topics.drop_last());
        match spec_parser_kind(topics.last().format@) {
            Some(k) => m.insert(topics.last().name@, k),
            None => m,
        }
    }
}

impl View for ParserTable {
    type V = Map<Seq<char>, ParserKind>;

    open spec fn view(&self) -> Map<Seq<char>, ParserKind> {
        route_map(self.routes@)
    }
}

impl ParserTable {
    /// Routes every topic whose format has a parser.
    pub fn from_topics(topics: &Vec<Topic>) -> (t: ParserTable)
        ensures
            t@ == routes_of(topics@),
    {
        let mut routes: Vec<(String, ParserKind)> = Vec::new();
        let mut i: usize = 0;
        while i < topics.len()
            invariant
                i <= topics.len(),
                route_map(routes@) == routes_of(topics@.take(i as int)),
            decreases topics.len() - i,
        {
            assert(topics@.take(i + 1).drop_last() == topics@.take(i as int));
            let t = &topics[i];
            match parser_kind(t.format.as_str()) {
                Some(k) => {
                    let ghost before = routes@;
                    routes.push((t.name.clone(), k));
                    assert(routes@.drop_last() == before);
                },
                None => {},
            }
            i = i + 1;
        }
        assert(topics@.take(i as int) == topics@);
        ParserTable { routes }
    }

    /// The parser that handles a topic, if any.
    pub fn route(&self, topic: &str) -> (k: Option<ParserKind>)
        ensures
            k == (if self@.contains_key(topic@) {
                Some(self@[topic@])
            } else {
                None
            }),
    {
        let mut j: usize = self.routes.len();
        assert(self.routes@.take(j as int) == self.routes@);
        while j > 0
            invariant
                j <= self.routes.len(),
                self@.contains_key(topic@) == route_map(self.routes@.take(j as int)).contains_key(topic@),
                self@.contains_key(topic@) ==> self@[topic@] == route_map(self.routes@.take(j as int))[topic@],
            decreases j,
        {
            assert(self.routes@.take(j as int).drop_last() == self.routes@.take(j - 1));
            if str_eq(self.routes[j - 1].0.as_str(), topic) {
                return Some(self.routes[j - 1].1);
            }
            j = j - 1;
        }
        None
    }
}

/// What the loop does with one message.
#[derive(Clone, Copy, Debug, PartialEq, Eq, Structural)]
pub enum Step {
    /// An interrupt was requested: stop with `Error::Interrupted`.
    Interrupted,
    /// Leave the message out and go on.
    Skip,
    /// The message lies past the end of the trim window: stop reading.
    Stop,
    /// Hand the message to this parser.
    Handle(ParserKind),
}

/// The decision for a message published at `publish_time` on a topic routed
/// to `route`. The trim bounds are compared as `u64` after a bit-for-bit
/// conversion, as the loop does.
pub open spec fn spec_next_step(
    interrupted: bool,
    publish_time: u64,
    trim_start: i64,
    trim_end: i64,
    route: Option<ParserKind>,
) -> Step {
    if interrupted {
        Step::Interrupted
    } else if publish_time < trim_start as u64 {
        Step::Skip
    } else if publish_time > trim_end as u64 {
        Step::Stop
    } else {
        match route {
            Some(k) => Step::Handle(k),
            None => Step::Skip,
        }
    }
}

/// Decides what to do with the next message of the stream.
pub fn next_step(
    table: &ParserTable,
    interrupted: bool,
    publish_time: u64,
    trim_start: i64,
    trim_end: i64,
    topic: &str,
) -> (s: Step)
    ensures
        s == spec_next_step(
            interrupted,
            publish_time,
            trim_start,
            trim_end,
            if table@.contains_key(topic@) {
                Some(table@[topic@])
            } else {
                None
            },
        ),
{
    if interrupted {
        return Step::Interrupted;
    }
    if publish_time < trim_start as u64 {
        return Step::Skip;
    }
    if publish_time > trim_end as u64 {
        return Step::Stop;
    }
    match table.route(topic) {
        Some(k) => Step::Handle(k),
        None => Step::Skip,
    }
}

} // verus!

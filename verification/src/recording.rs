//! The messages of a recording, in the order in which the file stores them.
use vstd::prelude::*;

verus! {

/// One message of a recording: its channel's topic, when it was published,
/// and its payload.
pub struct MessageRecord {
    pub topic: String,
    pub publish_time: u64,
    pub data: Vec<u8>,
}

pub struct MessageRecordView {
    pub topic: Seq<char>,
    pub publish_time: u64,
    pub data: Seq<u8>,
}

impl View for MessageRecord {
    type V = MessageRecordView;

    open spec fn view(&self) -> MessageRecordView {
        MessageRecordView { topic: self.topic@, publish_time: self.publish_time, data: self.data@ }
    }
}

pub open spec fn records_view(s: Seq<MessageRecord>) -> Seq<MessageRecordView> {
    s.map_values(|m: MessageRecord| m@)
}

/// What `mcap::MessageStream` yields for a file's bytes: the messages before
/// the first error, and whether an error ended the stream.
pub uninterp spec fn mcap_messages(mcap: Seq<u8>) -> (Seq<MessageRecordView>, bool);

/// Reads the messages of an MCAP file with `mcap::MessageStream`, up to the
/// first error, which is handed back with them. The contract claims that the
/// messages and whether an error ends them are a function of the bytes.
#[verifier::external_body]
fn message_stream(mcap: &[u8]) -> (res: (Vec<MessageRecord>, Option<mcap::McapError>))
    ensures
        mcap_messages(mcap@) == (records_view(res.0@), res.1 is Some),
{
    let mut records = Vec::new();
    let stream = match mcap::MessageStream::new(mcap) {
        Ok(s) => s,
        Err(e) => return (records, Some(e)),
    };
    for m in stream {
        match m {
            Ok(m) => records.push(MessageRecord { topic: m.channel.topic.clone(), publish_time: m.publish_time, data: m.data.into_owned() }),
            Err(e) => return (records, Some(e)),
        }
    }
    (records, None)
}

/// The messages of an MCAP file in stored order, up to the first error that
/// reading them meets, and that error.
pub fn read_messages(mcap: &[u8]) -> (res: (Vec<MessageRecord>, Option<mcap::McapError>))
    ensures
        records_view(res.0@) == mcap_messages(mcap@).0,
        res.1 is Some == mcap_messages(mcap@).1,
{
    message_stream(mcap)
}

} // verus!

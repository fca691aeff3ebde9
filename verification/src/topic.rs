//! Topics of a recording, as the summary lists them.
use vstd::prelude::*;
use crate::text::{decimal, push_decimal};

verus! {

broadcast use vstd::string::group_string_axioms;

/// One topic (channel) of a recording.
pub struct Topic {
    pub id: u16,
    pub name: String,
    pub format: String,
    pub description: String,
    pub msg_count: Option<u64>,
}

/// The message count as the summary line shows it.
pub open spec fn count_text(msg_count: Option<u64>) -> Seq<char> {
    match msg_count {
        Some(n) => decimal(n as nat),
        None => "Unknown"@,
    }
}

impl Topic {
    /// The one-line description `id, name, msgs: count, format, description`,
    /// with `Unknown` where the message count is not known.
    pub open spec fn spec_display(&self) -> Seq<char> {
        decimal(self.id as nat) + ", "@ + self.name@ + ", msgs: "@ + count_text(self.msg_count)
            + ", "@ + self.format@ + ", "@ + self.description@
    }

    /// Renders the topic as its one-line description.
    pub fn to_display_string(&self) -> (res: String)
        ensures
            res@ == self.spec_display(),
    {
        let mut res = String::new();
        push_decimal(&mut res, self.id as u64);
        res.append(", ");
        res.append(self.name.as_str());
        res.append(", msgs: ");
        match self.msg_count {
            Some(n) => push_decimal(&mut res, n),
            None => res.append("Unknown"),
        }
        res.append(", ");
        res.append(self.format.as_str());
        res.append(", ");
        res.append(self.description.as_str());
        res
    }
}

} // verus!

//! The report's unit of output: a conversation, either a direct/group
//! conversation or a guild with its member channels.

use vstd::prelude::*;

verus! {

/// One channel of a guild: a display name and its message count.
#[derive(Debug)]
pub struct Channel {
    pub name: String,
    pub message_count: usize,
}

/// One entry of the final report.
#[derive(Debug)]
pub enum Conversation {
    /// A direct or group conversation: a flat entry.
    DmOrGc { name: String, message_count: usize },
    /// A guild: an aggregate entry whose count is the sum of its channels'.
    Guild { name: String, message_count: usize, channels: Vec<Channel> },
}

/// The two variants a report can be restricted to.
pub enum ConversationType {
    Dm,
    Guild,
}

/// The sum of the message counts of a sequence of channels.
pub open spec fn sum_channel_counts(chans: Seq<Channel>) -> int
    decreases chans.len(),
{
    if chans.len() == 0 {
        0
    } else {
        sum_channel_counts(chans.drop_last()) + chans.last().message_count
    }
}

/// The sum of the message counts of a sequence of conversations, guilds
/// counting by their stored total.
pub open spec fn sum_conversation_counts(convs: Seq<Conversation>) -> int
    decreases convs.len(),
{
    if convs.len() == 0 {
        0
    } else {
        sum_conversation_counts(convs.drop_last()) + convs.last().spec_message_count()
    }
}

impl Conversation {
    /// The stored message count, as a mathematical integer.
    pub open spec fn spec_message_count(&self) -> int {
        match self {
            Conversation::DmOrGc { message_count, .. } => *message_count as int,
            Conversation::Guild { message_count, .. } => *message_count as int,
        }
    }

    /// A guild's stored count always equals the sum of its channels' counts;
    /// a direct/group entry carries no channels, so nothing is required of it.
    pub open spec fn count_consistent(&self) -> bool {
        match self {
            Conversation::DmOrGc { .. } => true,
            Conversation::Guild { message_count, channels, .. } => *message_count as int
                == sum_channel_counts(channels@),
        }
    }

    pub fn message_count(&self) -> (r: usize)
        ensures
            r as int == self.spec_message_count(),
    {
        match self {
            Conversation::DmOrGc { message_count, .. } => *message_count,
            Conversation::Guild { message_count, .. } => *message_count,
        }
    }
}

} // verus!

//! The closed union of inbound events and the outbound intents their
//! handlers produce.
//!
//! Events arrive already decoded and authenticated; every kind has a
//! handler, so processing is total.  Handlers never call collaborators
//! directly: whether to signal the balance aggregator or send a bot message
//! is returned as an ordered list of intents for the boundary layer to
//! execute, fire-and-forget.

use vstd::prelude::*;

verus! {

use crate::achievements::Achievement;
use crate::memberships::ChannelRead;

/// Why an amount of chit was earned.
#[derive(Clone, Copy, PartialEq, Eq, Structural, Debug)]
pub enum ChitEarnedReason {
    DailyClaim,
    Achievement(Achievement),
    Referral,
    MemeContestWinner,
}

/// One earn record: the amount, its reason, and the event's own origin
/// timestamp (not the processing time).
#[derive(Clone, Copy, PartialEq, Eq, Structural, Debug)]
pub struct ChitEarned {
    pub amount: i32,
    pub timestamp: u64,
    pub reason: ChitEarnedReason,
}

/// How long a paid diamond membership lasts.
#[derive(Clone, Copy, PartialEq, Eq, Structural, Debug)]
pub enum DiamondMembershipPlanDuration {
    OneMonth,
    ThreeMonths,
    OneYear,
    Lifetime,
}

/// A domain event describing an action that happened elsewhere in the
/// platform, to be applied to one account's local state.
pub enum Event {
    UsernameChanged { username: String },
    DisplayNameChanged { display_name: String },
    PhoneNumberConfirmed { new_storage_limit: u64 },
    StorageUpgraded { new_storage_limit: u64 },
    ReferredUserRegistered { user_id: u64 },
    UserSuspended { timestamp: u64 },
    BotMessageLegacy { text: String },
    BotMessageV2 { text: String, mentioned: Vec<u64> },
    UserJoinedGroup { chat_id: u64, local_user_index: u64, read_up_to: Option<u32> },
    UserJoinedCommunityOrChannel { community_id: u64, local_user_index: u64, channels: Vec<ChannelRead> },
    DiamondMembershipPaymentReceived {
        expires_at: u64,
        duration: DiamondMembershipPlanDuration,
        send_bot_message: bool,
    },
    ChitEarned { amount: i32, timestamp: u64, reason: ChitEarnedReason },
}

/// A bot message the boundary layer should forward to the messaging
/// collaborator, which owns content and formatting.
pub enum BotMessage {
    PhoneNumberConfirmed { new_storage_limit: u64 },
    StorageUpgraded { new_storage_limit: u64 },
    ReferredUserRegistered { user_id: u64 },
    UserSuspended { timestamp: u64 },
    Text { text: String, mentioned: Vec<u64> },
}

/// An outbound side effect a handler decided on.
pub enum Intent {
    /// Signal the aggregator that the account's chit standing changed; safe
    /// to request redundantly.
    NotifyChitBalance,
    /// Forward a message to the bot-messaging collaborator.
    SendBotMessage(BotMessage),
}

/// The abstract value of a bot message.
#[verifier::ext_equal]
pub ghost enum BotMessageView {
    PhoneNumberConfirmed { new_storage_limit: u64 },
    StorageUpgraded { new_storage_limit: u64 },
    ReferredUserRegistered { user_id: u64 },
    UserSuspended { timestamp: u64 },
    Text { text: Seq<char>, mentioned: Seq<u64> },
}

/// The abstract value of an intent.
#[verifier::ext_equal]
pub ghost enum IntentView {
    NotifyChitBalance,
    SendBotMessage(BotMessageView),
}

impl View for BotMessage {
    type V = BotMessageView;

    open spec fn view(&self) -> BotMessageView {
        match self {
            BotMessage::PhoneNumberConfirmed { new_storage_limit } => {
                BotMessageView::PhoneNumberConfirmed { new_storage_limit: *new_storage_limit }
            },
            BotMessage::StorageUpgraded { new_storage_limit } => {
                BotMessageView::StorageUpgraded { new_storage_limit: *new_storage_limit }
            },
            BotMessage::ReferredUserRegistered { user_id } => {
                BotMessageView::ReferredUserRegistered { user_id: *user_id }
            },
            BotMessage::UserSuspended { timestamp } => {
                BotMessageView::UserSuspended { timestamp: *timestamp }
            },
            BotMessage::Text { text, mentioned } => {
                BotMessageView::Text { text: text@, mentioned: mentioned@ }
            },
        }
    }
}

impl View for Intent {
    type V = IntentView;

    open spec fn view(&self) -> IntentView {
        match self {
            Intent::NotifyChitBalance => IntentView::NotifyChitBalance,
            Intent::SendBotMessage(message) => IntentView::SendBotMessage(message@),
        }
    }
}

/// The abstract values of a list of intents, in order.
pub open spec fn views_of(intents: Seq<Intent>) -> Seq<IntentView> {
    intents.map_values(|i: Intent| i@)
}

/// Appending an intent appends its abstract value.
pub proof fn lemma_views_of_push(intents: Seq<Intent>, intent: Intent)
    ensures
        views_of(intents.push(intent)) == views_of(intents).push(intent@),
{
    assert(views_of(intents.push(intent)) =~= views_of(intents).push(intent@));
}

/// How many aggregator-notify requests a list of intents holds.
pub open spec fn notify_count(intents: Seq<IntentView>) -> nat
    decreases intents.len(),
{
    if intents.len() == 0 {
        0
    } else {
        notify_count(intents.drop_last()) + (if intents.last() is NotifyChitBalance {
            1nat
        } else {
            0nat
        })
    }
}

} // verus!

//! The event dispatcher: applies an ordered batch of events to one account.
//!
//! Dispatch is total: every event kind has a handler and no handler has an
//! error path, so a batch either fully applies or is never started.  The
//! abstract behaviour is the transition function `step_state` together with
//! `step_intents`, and a whole batch folds them over the events in order
//! (`run`).  The only machine limit is the chit balance: a batch may be
//! applied only if no intermediate balance leaves the `i64` range, which
//! `events_in_bounds` decides executably.

use vstd::prelude::*;

verus! {

use crate::account::{Account, AccountView, Timestamped, notify_if, sum_amounts};
use crate::achievements::{Achievement, grant_spec};
use crate::events::{
    BotMessage,
    BotMessageView,
    ChitEarned,
    ChitEarnedReason,
    DiamondMembershipPlanDuration,
    Event,
    Intent,
    IntentView,
    lemma_views_of_push,
    notify_count,
    views_of,
};
use crate::memberships::{community_join_spec, community_mark_read_spec, GroupRecord};

/// The milestone grants a fresh daily claim triggers: every threshold the
/// streak length meets or exceeds is attempted, in ascending order, each an
/// idempotent grant.
pub open spec fn streak_awards_spec(
    granted: Map<Achievement, u64>,
    days: u64,
    now: u64,
) -> Map<Achievement, u64> {
    let after3 = if days >= 3 {
        grant_spec(granted, Achievement::Streak3, now).0
    } else {
        granted
    };
    let after7 = if days >= 7 {
        grant_spec(after3, Achievement::Streak7, now).0
    } else {
        after3
    };
    let after14 = if days >= 14 {
        grant_spec(after7, Achievement::Streak14, now).0
    } else {
        after7
    };
    if days >= 30 {
        grant_spec(after14, Achievement::Streak30, now).0
    } else {
        after14
    }
}

/// The bot-message text acknowledging a diamond membership payment.
pub open spec fn diamond_payment_text() -> Seq<char> {
    "Payment received for Diamond membership!"@
}

/// The account state after applying one event at processing time `now`.
pub open spec fn step_state(a: AccountView, event: Event, now: u64) -> AccountView {
    match event {
        Event::UsernameChanged { username } => AccountView {
            username: username@,
            username_updated: now,
            ..a
        },
        Event::DisplayNameChanged { display_name } => AccountView {
            display_name: display_name@,
            display_name_updated: now,
            achievements: grant_spec(a.achievements, Achievement::SetDisplayName, now).0,
            ..a
        },
        Event::PhoneNumberConfirmed { new_storage_limit } => AccountView {
            phone_is_verified: true,
            storage_limit: new_storage_limit,
            ..a
        },
        Event::StorageUpgraded { new_storage_limit } => AccountView {
            storage_limit: new_storage_limit,
            ..a
        },
        Event::ReferredUserRegistered { .. } => a,
        Event::UserSuspended { .. } => a,
        Event::BotMessageLegacy { .. } => a,
        Event::BotMessageV2 { .. } => a,
        Event::UserJoinedGroup { chat_id, local_user_index, read_up_to } => AccountView {
            groups: a.groups.insert(
                chat_id,
                GroupRecord { local_index: local_user_index, read_up_to, updated: now },
            ),
            excluded_groups: a.excluded_groups.remove(chat_id),
            achievements: grant_spec(a.achievements, Achievement::JoinedGroup, now).0,
            ..a
        },
        Event::UserJoinedCommunityOrChannel { community_id, local_user_index, channels } => AccountView {
            communities: community_mark_read_spec(
                community_join_spec(a.communities, community_id, local_user_index),
                community_id,
                channels@,
            ),
            achievements: grant_spec(a.achievements, Achievement::JoinedCommunity, now).0,
            ..a
        },
        Event::DiamondMembershipPaymentReceived { expires_at, duration, .. } => {
            let after_diamond = grant_spec(a.achievements, Achievement::UpgradedToDiamond, now).0;
            let achievements = if duration is Lifetime {
                grant_spec(after_diamond, Achievement::UpgradedToGoldDiamond, now).0
            } else {
                after_diamond
            };
            AccountView { achievements, diamond_membership_expires_at: Some(expires_at), ..a }
        },
        Event::ChitEarned { amount, timestamp, reason } => {
            let claim = a.streak.spec_claim(timestamp);
            let streak = if reason is DailyClaim {
                claim.0
            } else {
                a.streak
            };
            let achievements = if reason is DailyClaim && claim.1 {
                streak_awards_spec(a.achievements, claim.0.count, now)
            } else {
                a.achievements
            };
            AccountView {
                chit_balance: (a.chit_balance + amount) as i64,
                chit_balance_updated: now,
                chit_history: a.chit_history.push(ChitEarned { amount, timestamp, reason }),
                streak,
                achievements,
                ..a
            }
        },
    }
}

/// The intents one event produces, in order: achievement grants signal the
/// aggregator only when new, earns signal it unconditionally, and the
/// message-only events forward their payload to the bot-messaging
/// collaborator.
pub open spec fn step_intents(a: AccountView, event: Event, now: u64) -> Seq<IntentView> {
    match event {
        Event::UsernameChanged { .. } => Seq::empty(),
        Event::DisplayNameChanged { .. } => notify_if(
            grant_spec(a.achievements, Achievement::SetDisplayName, now).1,
        ),
        Event::PhoneNumberConfirmed { new_storage_limit } => seq![
            IntentView::SendBotMessage(BotMessageView::PhoneNumberConfirmed { new_storage_limit }),
        ],
        Event::StorageUpgraded { new_storage_limit } => seq![
            IntentView::SendBotMessage(BotMessageView::StorageUpgraded { new_storage_limit }),
        ],
        Event::ReferredUserRegistered { user_id } => seq![
            IntentView::SendBotMessage(BotMessageView::ReferredUserRegistered { user_id }),
        ],
        Event::UserSuspended { timestamp } => seq![
            IntentView::SendBotMessage(BotMessageView::UserSuspended { timestamp }),
        ],
        Event::BotMessageLegacy { text } => seq![
            IntentView::SendBotMessage(
                BotMessageView::Text { text: text@, mentioned: Seq::empty() },
            ),
        ],
        Event::BotMessageV2 { text, mentioned } => seq![
            IntentView::SendBotMessage(BotMessageView::Text { text: text@, mentioned: mentioned@ }),
        ],
        Event::UserJoinedGroup { .. } => notify_if(
            grant_spec(a.achievements, Achievement::JoinedGroup, now).1,
        ),
        Event::UserJoinedCommunityOrChannel { .. } => notify_if(
            grant_spec(a.achievements, Achievement::JoinedCommunity, now).1,
        ),
        Event::DiamondMembershipPaymentReceived { duration, send_bot_message, .. } => {
            let first = grant_spec(a.achievements, Achievement::UpgradedToDiamond, now);
            let any_new = first.1 || (duration is Lifetime && grant_spec(
                first.0,
                Achievement::UpgradedToGoldDiamond,
                now,
            ).1);
            notify_if(any_new) + (if send_bot_message {
                seq![
                    IntentView::SendBotMessage(
                        BotMessageView::Text { text: diamond_payment_text(), mentioned: Seq::empty() },
                    ),
                ]
            } else {
                Seq::empty()
            })
        },
        Event::ChitEarned { .. } => seq![IntentView::NotifyChitBalance],
    }
}

/// Whether one event can be applied without the chit balance leaving the
/// `i64` range.
pub open spec fn step_ok(a: AccountView, event: Event) -> bool {
    match event {
        Event::ChitEarned { amount, .. } => i64::MIN <= a.chit_balance + amount <= i64::MAX,
        _ => true,
    }
}

/// Whether a whole batch keeps every intermediate chit balance in the
/// `i64` range, starting from `balance`.
pub open spec fn chit_ok(balance: int, events: Seq<Event>) -> bool
    decreases events.len(),
{
    if events.len() == 0 {
        true
    } else {
        match events.first() {
            Event::ChitEarned { amount, .. } => i64::MIN <= balance + amount <= i64::MAX
                && chit_ok(balance + amount, events.drop_first()),
            _ => chit_ok(balance, events.drop_first()),
        }
    }
}

/// The state and intents a whole batch produces, applying each event in
/// order.
pub open spec fn run(a: AccountView, events: Seq<Event>, now: u64) -> (AccountView, Seq<IntentView>)
    decreases events.len(),
{
    if events.len() == 0 {
        (a, Seq::empty())
    } else {
        let next = step_state(a, events.first(), now);
        let rest = run(next, events.drop_first(), now);
        (rest.0, step_intents(a, events.first(), now) + rest.1)
    }
}

/// A batch within bounds admits its first step, and the remainder stays
/// within bounds from the stepped state.
proof fn lemma_chit_ok_step(a: AccountView, events: Seq<Event>, now: u64)
    requires
        events.len() > 0,
        chit_ok(a.chit_balance as int, events),
    ensures
        step_ok(a, events.first()),
        chit_ok(step_state(a, events.first(), now).chit_balance as int, events.drop_first()),
{
    match events.first() {
        Event::ChitEarned { amount, .. } => {
            assert(step_state(a, events.first(), now).chit_balance == a.chit_balance + amount);
        },
        _ => {
            assert(step_state(a, events.first(), now).chit_balance == a.chit_balance);
        },
    }
}

/// Appending one intent appends one abstract value.
proof fn lemma_views_of_push_one(intents: Seq<Intent>, intent: Intent)
    ensures
        views_of(intents.push(intent)) == views_of(intents) + seq![intent@],
{
    lemma_views_of_push(intents, intent);
    assert(views_of(intents).push(intent@) =~= views_of(intents) + seq![intent@]);
}

/// Appending nothing changes nothing.
proof fn lemma_append_empty(intents: Seq<IntentView>)
    ensures
        intents + Seq::<IntentView>::empty() == intents,
{
    assert(intents + Seq::<IntentView>::empty() =~= intents);
}

/// Routes one event to its handler, mutating the account in place and
/// appending the produced intents.  Dispatch is total: every event kind is
/// handled and none can fail.
pub fn process_event(account: &mut Account, event: Event, now: u64, intents: &mut Vec<Intent>)
    requires
        old(account).wf(),
        step_ok(old(account)@, event),
    ensures
        final(account).wf(),
        final(account)@ == step_state(old(account)@, event, now),
        views_of(final(intents)@) == views_of(old(intents)@) + step_intents(
            old(account)@,
            event,
            now,
        ),
{
    match event {
        Event::UsernameChanged { username } => {
            account.username = Timestamped { value: username, timestamp: now };
            proof {
                assert(account@ =~~= step_state(old(account)@, event, now));
                lemma_append_empty(views_of(intents@));
            }
        },
        Event::DisplayNameChanged { display_name } => {
            account.display_name = Timestamped { value: display_name, timestamp: now };
            account.award_achievement_and_notify(Achievement::SetDisplayName, now, intents);
            proof {
                assert(account@ =~~= step_state(old(account)@, event, now));
            }
        },
        Event::PhoneNumberConfirmed { new_storage_limit } => {
            account.phone_is_verified = true;
            account.storage_limit = new_storage_limit;
            let ghost before = intents@;
            intents.push(
                Intent::SendBotMessage(BotMessage::PhoneNumberConfirmed { new_storage_limit }),
            );
            proof {
                assert(account@ =~~= step_state(old(account)@, event, now));
                lemma_views_of_push_one(
                    before,
                    Intent::SendBotMessage(BotMessage::PhoneNumberConfirmed { new_storage_limit }),
                );
            }
        },
        Event::StorageUpgraded { new_storage_limit } => {
            account.storage_limit = new_storage_limit;
            let ghost before = intents@;
            intents.push(Intent::SendBotMessage(BotMessage::StorageUpgraded { new_storage_limit }));
            proof {
                assert(account@ =~~= step_state(old(account)@, event, now));
                lemma_views_of_push_one(
                    before,
                    Intent::SendBotMessage(BotMessage::StorageUpgraded { new_storage_limit }),
                );
            }
        },
        Event::ReferredUserRegistered { user_id } => {
            let ghost before = intents@;
            intents.push(Intent::SendBotMessage(BotMessage::ReferredUserRegistered { user_id }));
            proof {
                lemma_views_of_push_one(
                    before,
                    Intent::SendBotMessage(BotMessage::ReferredUserRegistered { user_id }),
                );
            }
        },
        Event::UserSuspended { timestamp } => {
            let ghost before = intents@;
            intents.push(Intent::SendBotMessage(BotMessage::UserSuspended { timestamp }));
            proof {
                lemma_views_of_push_one(
                    before,
                    Intent::SendBotMessage(BotMessage::UserSuspended { timestamp }),
                );
            }
        },
        Event::BotMessageLegacy { text } => {
            let ghost text_view = text@;
            let ghost before = intents@;
            let message = Intent::SendBotMessage(
                BotMessage::Text { text, mentioned: Vec::new() },
            );
            intents.push(message);
            proof {
                lemma_views_of_push_one(before, message);
                assert(message@ =~~= IntentView::SendBotMessage(
                    BotMessageView::Text { text: text_view, mentioned: Seq::empty() },
                ));
                assert(views_of(intents@) =~= views_of(before) + step_intents(
                    old(account)@,
                    event,
                    now,
                ));
            }
        },
        Event::BotMessageV2 { text, mentioned } => {
            let ghost text_view = text@;
            let ghost mentioned_view = mentioned@;
            let ghost before = intents@;
            let message = Intent::SendBotMessage(BotMessage::Text { text, mentioned });
            intents.push(message);
            proof {
                lemma_views_of_push_one(before, message);
                assert(message@ =~~= IntentView::SendBotMessage(
                    BotMessageView::Text { text: text_view, mentioned: mentioned_view },
                ));
                assert(views_of(intents@) =~= views_of(before) + step_intents(
                    old(account)@,
                    event,
                    now,
                ));
            }
        },
        Event::UserJoinedGroup { chat_id, local_user_index, read_up_to } => {
            account.group_chats.join(chat_id, local_user_index, read_up_to, now);
            account.excluded_groups.remove(chat_id);
            account.award_achievement_and_notify(Achievement::JoinedGroup, now, intents);
            proof {
                assert(account@ =~~= step_state(old(account)@, event, now));
            }
        },
        Event::UserJoinedCommunityOrChannel { community_id, local_user_index, channels } => {
            account.communities.join(community_id, local_user_index, now);
            account.communities.mark_read(community_id, &channels);
            account.award_achievement_and_notify(Achievement::JoinedCommunity, now, intents);
            proof {
                assert(account@ =~~= step_state(old(account)@, event, now));
            }
        },
        Event::DiamondMembershipPaymentReceived { expires_at, duration, send_bot_message } => {
            let mut any_new = account.award_achievement(Achievement::UpgradedToDiamond, now);
            if matches!(duration, DiamondMembershipPlanDuration::Lifetime) {
                let second = account.award_achievement(Achievement::UpgradedToGoldDiamond, now);
                any_new = any_new || second;
            }
            let ghost before = intents@;
            if any_new {
                intents.push(Intent::NotifyChitBalance);
                proof {
                    lemma_views_of_push_one(before, Intent::NotifyChitBalance);
                }
            } else {
                proof {
                    lemma_append_empty(views_of(before));
                }
            }
            account.diamond_membership_expires_at = Some(expires_at);
            let ghost after_notify = intents@;
            if send_bot_message {
                let message = Intent::SendBotMessage(
                    BotMessage::Text {
                        text: "Payment received for Diamond membership!".to_owned(),
                        mentioned: Vec::new(),
                    },
                );
                intents.push(message);
                proof {
                    lemma_views_of_push_one(after_notify, message);
                }
            }
            proof {
                assert(account@ =~~= step_state(old(account)@, event, now));
                assert(views_of(intents@) =~= views_of(before) + step_intents(
                    old(account)@,
                    event,
                    now,
                ));
            }
        },
        Event::ChitEarned { amount, timestamp, reason } => {
            let ghost history_before = account.chit_history@;
            account.chit_balance = Timestamped {
                value: account.chit_balance.value + amount as i64,
                timestamp: now,
            };
            account.chit_history.push(ChitEarned { amount, timestamp, reason });
            proof {
                assert(account.chit_history@.drop_last() =~= history_before);
            }
            let is_daily_claim = matches!(reason, ChitEarnedReason::DailyClaim);
            if is_daily_claim && account.streak.claim(timestamp) {
                let streak_days = account.streak.days(timestamp);
                if streak_days >= 3 {
                    account.award_achievement(Achievement::Streak3, now);
                }
                if streak_days >= 7 {
                    account.award_achievement(Achievement::Streak7, now);
                }
                if streak_days >= 14 {
                    account.award_achievement(Achievement::Streak14, now);
                }
                if streak_days >= 30 {
                    account.award_achievement(Achievement::Streak30, now);
                }
            }
            let ghost before = intents@;
            intents.push(Intent::NotifyChitBalance);
            proof {
                lemma_views_of_push_one(before, Intent::NotifyChitBalance);
                assert(account@ =~~= step_state(old(account)@, event, now));
            }
        },
    }
}

/// Applies a whole batch of events, in arrival order, and returns the
/// produced intents in order.  Equivalent to folding `step_state` and
/// `step_intents` over the batch.
pub fn apply_events(account: &mut Account, events: Vec<Event>, now: u64) -> (intents: Vec<Intent>)
    requires
        old(account).wf(),
        chit_ok(old(account)@.chit_balance as int, events@),
    ensures
        final(account).wf(),
        final(account)@ == run(old(account)@, events@, now).0,
        views_of(intents@) == run(old(account)@, events@, now).1,
{
    let ghost initial_state = account@;
    let ghost all_events = events@;
    let mut events = events;
    let mut intents: Vec<Intent> = Vec::new();
    while events.len() > 0
        invariant
            account.wf(),
            chit_ok(account@.chit_balance as int, events@),
            run(initial_state, all_events, now).0 == run(account@, events@, now).0,
            run(initial_state, all_events, now).1 == views_of(intents@) + run(
                account@,
                events@,
                now,
            ).1,
        decreases events@.len(),
    {
        let ghost state_before = account@;
        let ghost events_before = events@;
        let ghost intents_before = intents@;
        let event = events.remove(0);
        proof {
            assert(events@ =~= events_before.drop_first());
            lemma_chit_ok_step(state_before, events_before, now);
        }
        process_event(account, event, now, &mut intents);
        proof {
            assert(run(state_before, events_before, now).1 == step_intents(
                state_before,
                event,
                now,
            ) + run(account@, events@, now).1);
            assert(views_of(intents@) + run(account@, events@, now).1 =~= views_of(intents_before)
                + run(state_before, events_before, now).1);
        }
    }
    proof {
        assert(run(account@, events@, now).0 == account@);
        assert(run(account@, events@, now).1 =~= Seq::<IntentView>::empty());
        assert(views_of(intents@) + Seq::<IntentView>::empty() =~= views_of(intents@));
    }
    intents
}

/// Decides whether a batch can be applied to the account without any
/// intermediate chit balance leaving the `i64` range.
#[verifier::loop_isolation(false)]
pub fn events_in_bounds(account: &Account, events: &Vec<Event>) -> (r: bool)
    ensures
        r == chit_ok(account@.chit_balance as int, events@),
{
    let mut balance: i64 = account.chit_balance.value;
    let mut i: usize = 0;
    proof {
        assert(events@.skip(0) =~= events@);
    }
    while i < events.len()
        invariant
            i <= events@.len(),
            chit_ok(account@.chit_balance as int, events@) == chit_ok(
                balance as int,
                events@.skip(i as int),
            ),
        decreases events@.len() - i,
    {
        proof {
            assert(events@.skip(i as int).first() == events@[i as int]);
            assert(events@.skip(i as int).drop_first() =~= events@.skip(i + 1));
        }
        match &events[i] {
            Event::ChitEarned { amount, .. } => {
                let amount_wide: i64 = *amount as i64;
                if amount_wide >= 0 {
                    if balance > i64::MAX - amount_wide {
                        return false;
                    }
                } else {
                    if balance < i64::MIN - amount_wide {
                        return false;
                    }
                }
                balance = balance + amount_wide;
            },
            _ => {},
        }
        i = i + 1;
    }
    proof {
        assert(events@.skip(events@.len() as int) =~= Seq::<Event>::empty());
    }
    true
}

/// One lifetime diamond payment grants both diamond kinds and requests
/// exactly one aggregator notification; repeating the identical event
/// grants nothing new and requests none.
pub proof fn lemma_diamond_lifetime_once(
    a: AccountView,
    expires_at: u64,
    send_bot_message: bool,
    now1: u64,
    now2: u64,
)
    requires
        !a.achievements.contains_key(Achievement::UpgradedToDiamond),
        !a.achievements.contains_key(Achievement::UpgradedToGoldDiamond),
    ensures
        ({
            let event = Event::DiamondMembershipPaymentReceived {
                expires_at,
                duration: DiamondMembershipPlanDuration::Lifetime,
                send_bot_message,
            };
            let once = step_state(a, event, now1);
            let twice = step_state(once, event, now2);
            &&& once.achievements.contains_key(Achievement::UpgradedToDiamond)
            &&& once.achievements.contains_key(Achievement::UpgradedToGoldDiamond)
            &&& notify_count(step_intents(a, event, now1)) == 1
            &&& twice.achievements == once.achievements
            &&& notify_count(step_intents(once, event, now2)) == 0
        }),
{
    let event = Event::DiamondMembershipPaymentReceived {
        expires_at,
        duration: DiamondMembershipPlanDuration::Lifetime,
        send_bot_message,
    };
    let tail: Seq<IntentView> = if send_bot_message {
        seq![
            IntentView::SendBotMessage(
                BotMessageView::Text { text: diamond_payment_text(), mentioned: Seq::empty() },
            ),
        ]
    } else {
        Seq::empty()
    };
    if send_bot_message {
        lemma_notify_count_one(
            IntentView::SendBotMessage(
                BotMessageView::Text { text: diamond_payment_text(), mentioned: Seq::empty() },
            ),
        );
    }
    lemma_notify_count_one(IntentView::NotifyChitBalance);
    assert(notify_if(true) =~= seq![IntentView::NotifyChitBalance]);
    assert(step_intents(a, event, now1) == notify_if(true) + tail);
    lemma_notify_count_concat(notify_if(true), tail);
    let once = step_state(a, event, now1);
    assert(step_intents(once, event, now2) == notify_if(false) + tail);
    lemma_notify_count_concat(notify_if(false), tail);
}

/// The earn history is append-only: no event shortens it.
pub proof fn lemma_step_history_grows(a: AccountView, event: Event, now: u64)
    ensures
        step_state(a, event, now).chit_history.len() >= a.chit_history.len(),
{
}

/// An achievement already held survives any event, with its earned-at
/// timestamp untouched.
pub proof fn lemma_step_keeps_grants(a: AccountView, event: Event, now: u64, held: Achievement)
    requires
        a.achievements.contains_key(held),
    ensures
        step_state(a, event, now).achievements.contains_key(held),
        step_state(a, event, now).achievements[held] == a.achievements[held],
{
    match event {
        Event::DisplayNameChanged { .. } => {
            crate::achievements::lemma_grant_keeps_held(
                a.achievements,
                Achievement::SetDisplayName,
                now,
                held,
            );
        },
        Event::UserJoinedGroup { .. } => {
            crate::achievements::lemma_grant_keeps_held(
                a.achievements,
                Achievement::JoinedGroup,
                now,
                held,
            );
        },
        Event::UserJoinedCommunityOrChannel { .. } => {
            crate::achievements::lemma_grant_keeps_held(
                a.achievements,
                Achievement::JoinedCommunity,
                now,
                held,
            );
        },
        Event::DiamondMembershipPaymentReceived { duration, .. } => {
            let after_diamond = grant_spec(a.achievements, Achievement::UpgradedToDiamond, now).0;
            crate::achievements::lemma_grant_keeps_held(
                a.achievements,
                Achievement::UpgradedToDiamond,
                now,
                held,
            );
            if duration is Lifetime {
                crate::achievements::lemma_grant_keeps_held(
                    after_diamond,
                    Achievement::UpgradedToGoldDiamond,
                    now,
                    held,
                );
            }
        },
        Event::ChitEarned { timestamp, reason, .. } => {
            if reason is DailyClaim && a.streak.spec_claim(timestamp).1 {
                let days = a.streak.spec_claim(timestamp).0.count;
                let after3 = if days >= 3 {
                    grant_spec(a.achievements, Achievement::Streak3, now).0
                } else {
                    a.achievements
                };
                let after7 = if days >= 7 {
                    grant_spec(after3, Achievement::Streak7, now).0
                } else {
                    after3
                };
                let after14 = if days >= 14 {
                    grant_spec(after7, Achievement::Streak14, now).0
                } else {
                    after7
                };
                if days >= 3 {
                    crate::achievements::lemma_grant_keeps_held(
                        a.achievements,
                        Achievement::Streak3,
                        now,
                        held,
                    );
                }
                if days >= 7 {
                    crate::achievements::lemma_grant_keeps_held(
                        after3,
                        Achievement::Streak7,
                        now,
                        held,
                    );
                }
                if days >= 14 {
                    crate::achievements::lemma_grant_keeps_held(
                        after7,
                        Achievement::Streak14,
                        now,
                        held,
                    );
                }
                if days >= 30 {
                    crate::achievements::lemma_grant_keeps_held(
                        after14,
                        Achievement::Streak30,
                        now,
                        held,
                    );
                }
            }
        },
        _ => {},
    }
}

/// The running total tracks the history: if the balance equals the sum of
/// all recorded earn amounts, it still does after any event within bounds.
pub proof fn lemma_step_keeps_balance_sum(a: AccountView, event: Event, now: u64)
    requires
        a.chit_balance == sum_amounts(a.chit_history),
        step_ok(a, event),
    ensures
        step_state(a, event, now).chit_balance == sum_amounts(
            step_state(a, event, now).chit_history,
        ),
{
    match event {
        Event::ChitEarned { amount, timestamp, reason } => {
            let record = ChitEarned { amount, timestamp, reason };
            assert(a.chit_history.push(record).drop_last() =~= a.chit_history);
        },
        _ => {},
    }
}

/// A single intent is one notify request, or none, by its kind.
pub proof fn lemma_notify_count_one(intent: IntentView)
    ensures
        notify_count(seq![intent]) == (if intent is NotifyChitBalance {
            1nat
        } else {
            0nat
        }),
{
    assert(seq![intent].drop_last() =~= Seq::<IntentView>::empty());
    assert(notify_count(Seq::<IntentView>::empty()) == 0);
    assert(seq![intent].last() == intent);
}

/// Notify requests in a concatenation are the requests of the parts.
pub proof fn lemma_notify_count_concat(left: Seq<IntentView>, right: Seq<IntentView>)
    ensures
        notify_count(left + right) == notify_count(left) + notify_count(right),
    decreases right.len(),
{
    if right.len() == 0 {
        assert(left + right =~= left);
    } else {
        lemma_notify_count_concat(left, right.drop_last());
        assert((left + right).drop_last() =~= left + right.drop_last());
        assert((left + right).last() == right.last());
    }
}

/// Joining a group and then re-joining it with a newer read position
/// leaves exactly one membership record, carrying the newer position; the
/// second join grants "joined a group" to no effect and requests no
/// notification.
pub proof fn lemma_group_rejoin_idempotent(
    a: AccountView,
    chat_id: u64,
    first_index: u64,
    second_index: u64,
    first_read: Option<u32>,
    second_read: Option<u32>,
    now1: u64,
    now2: u64,
)
    requires
        !a.achievements.contains_key(Achievement::JoinedGroup),
    ensures
        ({
            let first = Event::UserJoinedGroup {
                chat_id,
                local_user_index: first_index,
                read_up_to: first_read,
            };
            let second = Event::UserJoinedGroup {
                chat_id,
                local_user_index: second_index,
                read_up_to: second_read,
            };
            let once = step_state(a, first, now1);
            let twice = step_state(once, second, now2);
            &&& twice.groups == a.groups.insert(
                chat_id,
                GroupRecord { local_index: second_index, read_up_to: second_read, updated: now2 },
            )
            &&& twice.groups.dom() == a.groups.dom().insert(chat_id)
            &&& once.achievements == a.achievements.insert(Achievement::JoinedGroup, now1)
            &&& twice.achievements == once.achievements
            &&& notify_count(step_intents(once, second, now2)) == 0
        }),
{
    let second = Event::UserJoinedGroup {
        chat_id,
        local_user_index: second_index,
        read_up_to: second_read,
    };
    let record = GroupRecord { local_index: second_index, read_up_to: second_read, updated: now2 };
    assert(a.groups.insert(
        chat_id,
        GroupRecord { local_index: first_index, read_up_to: first_read, updated: now1 },
    ).insert(chat_id, record) =~= a.groups.insert(chat_id, record));
    assert(a.groups.insert(chat_id, record).dom() =~= a.groups.dom().insert(chat_id));
}

} // verus!

use account_events::account::{Account, Timestamped};
use account_events::achievements::{Achievement, Achievements};
use account_events::engine::{apply_events, events_in_bounds, process_event};
use account_events::events::{
    BotMessage, ChitEarnedReason, DiamondMembershipPlanDuration, Event, Intent,
};
use account_events::memberships::ChannelRead;
use account_events::streak::{Streak, MS_PER_DAY};

fn notifies(intents: &[Intent]) -> usize {
    intents
        .iter()
        .filter(|intent| matches!(intent, Intent::NotifyChitBalance))
        .count()
}

fn bot_messages(intents: &[Intent]) -> usize {
    intents
        .iter()
        .filter(|intent| matches!(intent, Intent::SendBotMessage(_)))
        .count()
}

fn daily_claim(day: u64) -> Event {
    Event::ChitEarned {
        amount: 5,
        timestamp: day * MS_PER_DAY,
        reason: ChitEarnedReason::DailyClaim,
    }
}

#[test]
fn grant_is_idempotent() {
    let mut ledger = Achievements::new();
    assert!(ledger.grant(Achievement::SetDisplayName, 100));
    assert!(!ledger.grant(Achievement::SetDisplayName, 200));
    assert_eq!(ledger.earned_at(Achievement::SetDisplayName), Some(100));
}

#[test]
fn streak_progression() {
    let mut account = Account::new();
    let mut intents = Vec::new();
    process_event(&mut account, daily_claim(0), 10, &mut intents);
    assert_eq!(account.streak.count, 1);
    process_event(&mut account, daily_claim(1), 20, &mut intents);
    assert_eq!(account.streak.count, 2);
    process_event(&mut account, daily_claim(2), 30, &mut intents);
    assert_eq!(account.streak.count, 3);
    assert_eq!(account.achievements.earned_at(Achievement::Streak3), Some(30));

    // A repeat claim within day 2 leaves the streak state unchanged.
    process_event(&mut account, daily_claim(2), 40, &mut intents);
    assert_eq!(account.streak.count, 3);
    assert_eq!(account.streak.last_claim_day, Some(2));
    assert_eq!(account.achievements.earned_at(Achievement::Streak3), Some(30));
}

#[test]
fn streak_reset_after_gap() {
    let mut account = Account::new();
    let mut intents = Vec::new();
    process_event(&mut account, daily_claim(0), 10, &mut intents);
    assert_eq!(account.streak.count, 1);
    process_event(&mut account, daily_claim(1), 20, &mut intents);
    assert_eq!(account.streak.count, 2);
    process_event(&mut account, daily_claim(12), 30, &mut intents);
    assert_eq!(account.streak.count, 1);
    assert!(account.achievements.earned_at(Achievement::Streak7).is_none());
}

#[test]
fn streak_thresholds_checked_on_every_claim() {
    // A streak seeded above the first threshold grants every threshold it
    // meets on the next claim, not only the newly crossed one.
    let mut account = Account::new();
    account.streak = Streak {
        last_claim_day: Some(9),
        count: 6,
    };
    let mut intents = Vec::new();
    process_event(&mut account, daily_claim(10), 50, &mut intents);
    assert_eq!(account.streak.count, 7);
    assert_eq!(account.achievements.earned_at(Achievement::Streak3), Some(50));
    assert_eq!(account.achievements.earned_at(Achievement::Streak7), Some(50));
    assert!(account.achievements.earned_at(Achievement::Streak14).is_none());
}

#[test]
fn diamond_lifetime_grants_both_and_notifies_once() {
    let mut account = Account::new();
    let event = Event::DiamondMembershipPaymentReceived {
        expires_at: 999,
        duration: DiamondMembershipPlanDuration::Lifetime,
        send_bot_message: false,
    };
    let mut intents = Vec::new();
    process_event(&mut account, event, 100, &mut intents);
    assert_eq!(
        account.achievements.earned_at(Achievement::UpgradedToDiamond),
        Some(100)
    );
    assert_eq!(
        account.achievements.earned_at(Achievement::UpgradedToGoldDiamond),
        Some(100)
    );
    assert_eq!(account.diamond_membership_expires_at, Some(999));
    assert_eq!(notifies(&intents), 1);

    // A repeated identical event grants nothing new and never notifies.
    let repeat = Event::DiamondMembershipPaymentReceived {
        expires_at: 999,
        duration: DiamondMembershipPlanDuration::Lifetime,
        send_bot_message: false,
    };
    let mut repeat_intents = Vec::new();
    process_event(&mut account, repeat, 200, &mut repeat_intents);
    assert_eq!(
        account.achievements.earned_at(Achievement::UpgradedToDiamond),
        Some(100)
    );
    assert_eq!(
        account.achievements.earned_at(Achievement::UpgradedToGoldDiamond),
        Some(100)
    );
    assert_eq!(notifies(&repeat_intents), 0);
}

#[test]
fn diamond_monthly_grants_single_kind() {
    let mut account = Account::new();
    let event = Event::DiamondMembershipPaymentReceived {
        expires_at: 500,
        duration: DiamondMembershipPlanDuration::OneMonth,
        send_bot_message: true,
    };
    let mut intents = Vec::new();
    process_event(&mut account, event, 100, &mut intents);
    assert!(account
        .achievements
        .earned_at(Achievement::UpgradedToDiamond)
        .is_some());
    assert!(account
        .achievements
        .earned_at(Achievement::UpgradedToGoldDiamond)
        .is_none());
    assert_eq!(notifies(&intents), 1);
    assert_eq!(bot_messages(&intents), 1);
    match &intents[1] {
        Intent::SendBotMessage(BotMessage::Text { text, mentioned }) => {
            assert_eq!(text, "Payment received for Diamond membership!");
            assert!(mentioned.is_empty());
        }
        _ => panic!("expected a text message intent"),
    }
}

#[test]
fn diamond_expiry_is_overwritten_unconditionally() {
    let mut account = Account::new();
    let mut intents = Vec::new();
    let first = Event::DiamondMembershipPaymentReceived {
        expires_at: 900,
        duration: DiamondMembershipPlanDuration::OneYear,
        send_bot_message: false,
    };
    process_event(&mut account, first, 10, &mut intents);
    assert_eq!(account.diamond_membership_expires_at, Some(900));
    let second = Event::DiamondMembershipPaymentReceived {
        expires_at: 400,
        duration: DiamondMembershipPlanDuration::OneMonth,
        send_bot_message: false,
    };
    process_event(&mut account, second, 20, &mut intents);
    assert_eq!(account.diamond_membership_expires_at, Some(400));
}

#[test]
fn group_rejoin_keeps_one_record_with_newer_position() {
    let mut account = Account::new();
    let mut intents = Vec::new();
    let join = Event::UserJoinedGroup {
        chat_id: 7,
        local_user_index: 42,
        read_up_to: Some(5),
    };
    process_event(&mut account, join, 10, &mut intents);
    assert_eq!(account.group_chats.count(), 1);
    assert_eq!(account.group_chats.get(7).unwrap().read_up_to, Some(5));
    assert_eq!(account.achievements.earned_at(Achievement::JoinedGroup), Some(10));
    assert_eq!(notifies(&intents), 1);

    let rejoin = Event::UserJoinedGroup {
        chat_id: 7,
        local_user_index: 42,
        read_up_to: Some(9),
    };
    let mut rejoin_intents = Vec::new();
    process_event(&mut account, rejoin, 20, &mut rejoin_intents);
    assert_eq!(account.group_chats.count(), 1);
    assert_eq!(account.group_chats.get(7).unwrap().read_up_to, Some(9));
    // The grant is already held: no duplicate grant, no second notification.
    assert_eq!(account.achievements.earned_at(Achievement::JoinedGroup), Some(10));
    assert_eq!(notifies(&rejoin_intents), 0);
}

#[test]
fn joining_group_removes_exclusion() {
    let mut account = Account::new();
    account.excluded_groups.insert(7);
    account.excluded_groups.insert(8);
    assert!(account.excluded_groups.contains(7));
    let mut intents = Vec::new();
    let join = Event::UserJoinedGroup {
        chat_id: 7,
        local_user_index: 42,
        read_up_to: None,
    };
    process_event(&mut account, join, 10, &mut intents);
    assert!(!account.excluded_groups.contains(7));
    assert!(account.excluded_groups.contains(8));
}

#[test]
fn community_join_marks_channels_read() {
    let mut account = Account::new();
    let mut intents = Vec::new();
    let join = Event::UserJoinedCommunityOrChannel {
        community_id: 3,
        local_user_index: 42,
        channels: vec![
            ChannelRead {
                channel_id: 1,
                read_up_to: Some(5),
            },
            ChannelRead {
                channel_id: 2,
                read_up_to: None,
            },
        ],
    };
    process_event(&mut account, join, 10, &mut intents);
    assert_eq!(account.communities.count(), 1);
    let record = account.communities.get(3).unwrap();
    assert_eq!(record.local_index, 42);
    assert_eq!(record.channel_read_up_to(1), Some(Some(5)));
    assert_eq!(record.channel_read_up_to(2), Some(None));
    assert_eq!(account.achievements.earned_at(Achievement::JoinedCommunity), Some(10));
    assert_eq!(notifies(&intents), 1);

    // Re-joining keeps one membership record and overwrites the listed
    // channel positions with the newest known values.
    let rejoin = Event::UserJoinedCommunityOrChannel {
        community_id: 3,
        local_user_index: 42,
        channels: vec![ChannelRead {
            channel_id: 1,
            read_up_to: Some(9),
        }],
    };
    let mut rejoin_intents = Vec::new();
    process_event(&mut account, rejoin, 20, &mut rejoin_intents);
    assert_eq!(account.communities.count(), 1);
    let record = account.communities.get(3).unwrap();
    assert_eq!(record.channel_read_up_to(1), Some(Some(9)));
    assert_eq!(record.channel_read_up_to(2), Some(None));
    assert_eq!(notifies(&rejoin_intents), 0);
}

#[test]
fn chit_earn_credits_and_always_notifies() {
    let mut account = Account::new();
    let mut intents = Vec::new();
    let earn = Event::ChitEarned {
        amount: 7,
        timestamp: 123,
        reason: ChitEarnedReason::MemeContestWinner,
    };
    process_event(&mut account, earn, 900, &mut intents);
    assert_eq!(account.chit_balance.value, 7);
    // The balance records processing time; the history entry keeps the
    // event's own origin time.
    assert_eq!(account.chit_balance.timestamp, 900);
    assert_eq!(account.chit_history.len(), 1);
    assert_eq!(account.chit_history[0].timestamp, 123);
    assert_eq!(account.chit_history[0].amount, 7);
    // A non-daily-claim earn never touches the streak.
    assert_eq!(account.streak.count, 0);
    assert_eq!(notifies(&intents), 1);
}

#[test]
fn chit_redelivery_double_credits() {
    // There is no replay guard: re-delivery of the same earn event credits
    // the balance again and appends a second history record.
    let mut account = Account::new();
    let mut intents = Vec::new();
    let earn = Event::ChitEarned {
        amount: 7,
        timestamp: 123,
        reason: ChitEarnedReason::Referral,
    };
    process_event(&mut account, earn, 10, &mut intents);
    let again = Event::ChitEarned {
        amount: 7,
        timestamp: 123,
        reason: ChitEarnedReason::Referral,
    };
    process_event(&mut account, again, 20, &mut intents);
    assert_eq!(account.chit_balance.value, 14);
    assert_eq!(account.chit_history.len(), 2);
    assert_eq!(notifies(&intents), 2);
}

#[test]
fn negative_chit_amount_debits_balance() {
    let mut account = Account::new();
    let mut intents = Vec::new();
    let earn = Event::ChitEarned {
        amount: 10,
        timestamp: 1,
        reason: ChitEarnedReason::Referral,
    };
    process_event(&mut account, earn, 10, &mut intents);
    let adjust = Event::ChitEarned {
        amount: -4,
        timestamp: 2,
        reason: ChitEarnedReason::Referral,
    };
    process_event(&mut account, adjust, 20, &mut intents);
    assert_eq!(account.chit_balance.value, 6);
}

#[test]
fn events_in_bounds_accepts_ordinary_batches() {
    let account = Account::new();
    let events = vec![
        Event::UsernameChanged {
            username: "alice".to_string(),
        },
        daily_claim(0),
        daily_claim(1),
    ];
    assert!(events_in_bounds(&account, &events));
}

#[test]
fn events_in_bounds_rejects_balance_overflow() {
    let mut account = Account::new();
    account.chit_balance = Timestamped {
        value: i64::MAX,
        timestamp: 0,
    };
    let events = vec![Event::ChitEarned {
        amount: 1,
        timestamp: 0,
        reason: ChitEarnedReason::Referral,
    }];
    assert!(!events_in_bounds(&account, &events));
    let debit = vec![Event::ChitEarned {
        amount: -1,
        timestamp: 0,
        reason: ChitEarnedReason::Referral,
    }];
    assert!(events_in_bounds(&account, &debit));
}

#[test]
fn end_to_end_batch() {
    let mut account = Account::new();
    account.excluded_groups.insert(31);
    let events = vec![
        Event::DisplayNameChanged {
            display_name: "Alice".to_string(),
        },
        Event::UserJoinedGroup {
            chat_id: 31,
            local_user_index: 42,
            read_up_to: Some(5),
        },
        Event::ChitEarned {
            amount: 7,
            timestamp: 0,
            reason: ChitEarnedReason::DailyClaim,
        },
    ];
    assert!(events_in_bounds(&account, &events));
    let intents = apply_events(&mut account, events, 1000);

    assert_eq!(account.display_name.value, "Alice");
    assert_eq!(account.display_name.timestamp, 1000);
    assert!(account
        .achievements
        .earned_at(Achievement::SetDisplayName)
        .is_some());
    assert!(account.achievements.earned_at(Achievement::JoinedGroup).is_some());
    assert_eq!(account.group_chats.count(), 1);
    assert_eq!(account.group_chats.get(31).unwrap().read_up_to, Some(5));
    assert!(!account.excluded_groups.contains(31));
    assert_eq!(account.chit_balance.value, 7);
    assert_eq!(account.streak.count, 1);
    // Each fresh grant signals the aggregator once, and the earn signals it
    // unconditionally: display name, group join, chit earn.
    assert_eq!(notifies(&intents), 3);
    assert_eq!(bot_messages(&intents), 0);
}

#[test]
fn profile_events_update_fields_and_forward_messages() {
    let mut account = Account::new();
    let mut intents = Vec::new();
    process_event(
        &mut account,
        Event::UsernameChanged {
            username: "bob".to_string(),
        },
        5,
        &mut intents,
    );
    assert_eq!(account.username.value, "bob");
    assert_eq!(account.username.timestamp, 5);
    assert!(intents.is_empty());

    process_event(
        &mut account,
        Event::PhoneNumberConfirmed {
            new_storage_limit: 1000,
        },
        6,
        &mut intents,
    );
    assert!(account.phone_is_verified);
    assert_eq!(account.storage_limit, 1000);
    assert!(matches!(
        intents.last().unwrap(),
        Intent::SendBotMessage(BotMessage::PhoneNumberConfirmed { new_storage_limit: 1000 })
    ));

    process_event(
        &mut account,
        Event::StorageUpgraded {
            new_storage_limit: 2000,
        },
        7,
        &mut intents,
    );
    assert_eq!(account.storage_limit, 2000);
    assert!(matches!(
        intents.last().unwrap(),
        Intent::SendBotMessage(BotMessage::StorageUpgraded { new_storage_limit: 2000 })
    ));

    process_event(
        &mut account,
        Event::ReferredUserRegistered { user_id: 77 },
        8,
        &mut intents,
    );
    assert!(matches!(
        intents.last().unwrap(),
        Intent::SendBotMessage(BotMessage::ReferredUserRegistered { user_id: 77 })
    ));

    process_event(&mut account, Event::UserSuspended { timestamp: 99 }, 9, &mut intents);
    assert!(matches!(
        intents.last().unwrap(),
        Intent::SendBotMessage(BotMessage::UserSuspended { timestamp: 99 })
    ));

    // Neither message-only event touched the aggregate.
    assert_eq!(account.username.value, "bob");
    assert_eq!(notifies(&intents), 0);
}

#[test]
fn bot_message_events_forward_content() {
    let mut account = Account::new();
    let mut intents = Vec::new();
    process_event(
        &mut account,
        Event::BotMessageLegacy {
            text: "hello".to_string(),
        },
        5,
        &mut intents,
    );
    match &intents[0] {
        Intent::SendBotMessage(BotMessage::Text { text, mentioned }) => {
            assert_eq!(text, "hello");
            assert!(mentioned.is_empty());
        }
        _ => panic!("expected a text message intent"),
    }

    process_event(
        &mut account,
        Event::BotMessageV2 {
            text: "hi there".to_string(),
            mentioned: vec![4, 5],
        },
        6,
        &mut intents,
    );
    match &intents[1] {
        Intent::SendBotMessage(BotMessage::Text { text, mentioned }) => {
            assert_eq!(text, "hi there");
            assert_eq!(mentioned, &vec![4, 5]);
        }
        _ => panic!("expected a text message intent"),
    }
    assert_eq!(account.chit_balance.value, 0);
}

#[test]
fn display_name_regrant_does_not_renotify() {
    let mut account = Account::new();
    let mut intents = Vec::new();
    process_event(
        &mut account,
        Event::DisplayNameChanged {
            display_name: "Ann".to_string(),
        },
        10,
        &mut intents,
    );
    assert_eq!(notifies(&intents), 1);
    let mut second_intents = Vec::new();
    process_event(
        &mut account,
        Event::DisplayNameChanged {
            display_name: "Anne".to_string(),
        },
        20,
        &mut second_intents,
    );
    assert_eq!(account.display_name.value, "Anne");
    assert_eq!(account.display_name.timestamp, 20);
    // The achievement keeps its first timestamp and nothing is re-signalled.
    assert_eq!(
        account.achievements.earned_at(Achievement::SetDisplayName),
        Some(10)
    );
    assert_eq!(notifies(&second_intents), 0);
}

//! The account aggregate: the sole mutable entity the engine operates on.
//!
//! The aggregate is created once per account and mutated only by the event
//! engine.  Its abstract value pairs each profile field with its
//! last-changed timestamp and abstracts the ledgers and membership
//! containers to maps, sets and sequences.

use vstd::prelude::*;

verus! {

use crate::achievements::{Achievement, Achievements, grant_spec};
use crate::events::{ChitEarned, Intent, IntentView, views_of, lemma_views_of_push};
use crate::memberships::{Communities, CommunityView, ExcludedGroups, GroupChats, GroupRecord};
use crate::streak::Streak;

/// A value paired with the time it was last changed.
#[derive(Debug)]
pub struct Timestamped<T> {
    pub value: T,
    pub timestamp: u64,
}

/// The sum of all recorded earn amounts.
pub open spec fn sum_amounts(history: Seq<ChitEarned>) -> int
    decreases history.len(),
{
    if history.len() == 0 {
        0
    } else {
        sum_amounts(history.drop_last()) + history.last().amount
    }
}

/// The abstract value of an account aggregate.
#[verifier::ext_equal]
pub ghost struct AccountView {
    pub username: Seq<char>,
    pub username_updated: u64,
    pub display_name: Seq<char>,
    pub display_name_updated: u64,
    pub phone_is_verified: bool,
    pub storage_limit: u64,
    pub diamond_membership_expires_at: Option<u64>,
    pub chit_balance: i64,
    pub chit_balance_updated: u64,
    pub chit_history: Seq<ChitEarned>,
    pub streak: Streak,
    pub achievements: Map<Achievement, u64>,
    pub groups: Map<u64, GroupRecord>,
    pub excluded_groups: Set<u64>,
    pub communities: Map<u64, CommunityView>,
}

impl AccountView {
    /// The state of a freshly created account.
    pub open spec fn initial() -> AccountView {
        AccountView {
            username: Seq::empty(),
            username_updated: 0,
            display_name: Seq::empty(),
            display_name_updated: 0,
            phone_is_verified: false,
            storage_limit: 0,
            diamond_membership_expires_at: None,
            chit_balance: 0,
            chit_balance_updated: 0,
            chit_history: Seq::empty(),
            streak: Streak { last_claim_day: None, count: 0 },
            achievements: Map::empty(),
            groups: Map::empty(),
            excluded_groups: Set::empty(),
            communities: Map::empty(),
        }
    }
}

/// One account's authoritative local state.
pub struct Account {
    pub username: Timestamped<String>,
    pub display_name: Timestamped<String>,
    pub phone_is_verified: bool,
    pub storage_limit: u64,
    pub diamond_membership_expires_at: Option<u64>,
    pub chit_balance: Timestamped<i64>,
    pub chit_history: Vec<ChitEarned>,
    pub streak: Streak,
    pub achievements: Achievements,
    pub group_chats: GroupChats,
    pub excluded_groups: ExcludedGroups,
    pub communities: Communities,
}

impl View for Account {
    type V = AccountView;

    open spec fn view(&self) -> AccountView {
        AccountView {
            username: self.username.value@,
            username_updated: self.username.timestamp,
            display_name: self.display_name.value@,
            display_name_updated: self.display_name.timestamp,
            phone_is_verified: self.phone_is_verified,
            storage_limit: self.storage_limit,
            diamond_membership_expires_at: self.diamond_membership_expires_at,
            chit_balance: self.chit_balance.value,
            chit_balance_updated: self.chit_balance.timestamp,
            chit_history: self.chit_history@,
            streak: self.streak,
            achievements: self.achievements@,
            groups: self.group_chats@,
            excluded_groups: self.excluded_groups@,
            communities: self.communities@,
        }
    }
}

impl Account {
    /// Every container keeps its id-uniqueness invariant, the streak count
    /// is bounded by the days that have passed, and the chit balance equals
    /// the sum of all recorded earn amounts.
    pub open spec fn wf(self) -> bool {
        &&& self.streak.wf()
        &&& self.achievements.wf()
        &&& self.group_chats.wf()
        &&& self.excluded_groups.wf()
        &&& self.communities.wf()
        &&& self.chit_balance.value == sum_amounts(self.chit_history@)
    }

    /// A freshly created account: everything empty, nothing verified,
    /// nothing granted.
    pub fn new() -> (account: Account)
        ensures
            account.wf(),
            account@ == AccountView::initial(),
    {
        let account = Account {
            username: Timestamped { value: String::new(), timestamp: 0 },
            display_name: Timestamped { value: String::new(), timestamp: 0 },
            phone_is_verified: false,
            storage_limit: 0,
            diamond_membership_expires_at: None,
            chit_balance: Timestamped { value: 0, timestamp: 0 },
            chit_history: Vec::new(),
            streak: Streak::new(),
            achievements: Achievements::new(),
            group_chats: GroupChats::new(),
            excluded_groups: ExcludedGroups::new(),
            communities: Communities::new(),
        };
        proof {
            assert(account@ =~~= AccountView::initial());
        }
        account
    }

    /// Grants `kind` if it is absent; a held kind keeps its original
    /// timestamp.  Returns whether the grant was new.
    pub fn award_achievement(&mut self, kind: Achievement, now: u64) -> (is_new_grant: bool)
        requires
            old(self).wf(),
        ensures
            final(self).wf(),
            is_new_grant == grant_spec(old(self)@.achievements, kind, now).1,
            final(self)@ == (AccountView {
                achievements: grant_spec(old(self)@.achievements, kind, now).0,
                ..old(self)@
            }),
    {
        let is_new_grant = self.achievements.grant(kind, now);
        proof {
            assert(self@ =~~= (AccountView {
                achievements: grant_spec(old(self)@.achievements, kind, now).0,
                ..old(self)@
            }));
        }
        is_new_grant
    }

    /// Grants `kind`, and if the grant was new, requests one aggregator
    /// notification; re-granting a held kind signals nothing.
    pub fn award_achievement_and_notify(
        &mut self,
        kind: Achievement,
        now: u64,
        intents: &mut Vec<Intent>,
    )
        requires
            old(self).wf(),
        ensures
            final(self).wf(),
            final(self)@ == (AccountView {
                achievements: grant_spec(old(self)@.achievements, kind, now).0,
                ..old(self)@
            }),
            views_of(final(intents)@) == views_of(old(intents)@) + notify_if(
                grant_spec(old(self)@.achievements, kind, now).1,
            ),
    {
        let is_new_grant = self.award_achievement(kind, now);
        if is_new_grant {
            let ghost before = intents@;
            intents.push(Intent::NotifyChitBalance);
            proof {
                lemma_views_of_push(before, Intent::NotifyChitBalance);
                assert(views_of(intents@) =~= views_of(before) + notify_if(true));
            }
        } else {
            proof {
                assert(views_of(intents@) =~= views_of(intents@) + notify_if(false));
            }
        }
    }
}

/// One aggregator-notify request if the condition holds, else nothing.
pub open spec fn notify_if(condition: bool) -> Seq<IntentView> {
    if condition {
        seq![IntentView::NotifyChitBalance]
    } else {
        Seq::empty()
    }
}

} // verus!

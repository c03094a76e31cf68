//! Idempotent merge of group and community membership state.
//!
//! Joining is an upsert on the chat or community id: an id appears at most
//! once, and re-joining updates the stored record without duplicating the
//! entry.  Community memberships carry per-channel read positions, which a
//! bulk mark-read overwrites with the newest known values.

use vstd::prelude::*;

verus! {

use crate::kv;

/// One group membership: the local index canister the group is reached
/// through, the last known read position, and when the record was last
/// written.
#[derive(Clone, Copy, PartialEq, Eq, Structural, Debug)]
pub struct GroupRecord {
    pub local_index: u64,
    pub read_up_to: Option<u32>,
    pub updated: u64,
}

/// Group memberships, keyed by group id.
pub struct GroupChats {
    pub entries: Vec<(u64, GroupRecord)>,
}

impl View for GroupChats {
    type V = Map<u64, GroupRecord>;

    open spec fn view(&self) -> Map<u64, GroupRecord> {
        kv::map_of(self.entries@)
    }
}

impl GroupChats {
    /// A group id appears at most once.
    pub open spec fn wf(self) -> bool {
        kv::unique_keys(self.entries@)
    }

    /// No memberships.
    pub fn new() -> (g: GroupChats)
        ensures
            g.wf(),
            g@ == Map::<u64, GroupRecord>::empty(),
    {
        GroupChats { entries: Vec::new() }
    }

    /// Inserts or updates the membership record for `chat_id`: re-joining
    /// overwrites the record, never duplicates it.
    pub fn join(&mut self, chat_id: u64, local_index: u64, read_up_to: Option<u32>, now: u64)
        requires
            old(self).wf(),
        ensures
            final(self).wf(),
            final(self)@ == old(self)@.insert(
                chat_id,
                (GroupRecord { local_index, read_up_to, updated: now }),
            ),
    {
        kv::upsert(&mut self.entries, chat_id, GroupRecord { local_index, read_up_to, updated: now });
    }

    /// The membership record for `chat_id`, if joined.
    #[verifier::loop_isolation(false)]
    pub fn get(&self, chat_id: u64) -> (r: Option<GroupRecord>)
        requires
            self.wf(),
        ensures
            match r {
                Some(record) => self@.contains_key(chat_id) && self@[chat_id] == record,
                None => !self@.contains_key(chat_id),
            },
    {
        proof {
            kv::lemma_map_of_domain(self.entries@, chat_id);
        }
        let mut i: usize = 0;
        while i < self.entries.len()
            invariant
                i <= self.entries@.len(),
                forall|j: int| 0 <= j < i ==> (#[trigger] self.entries@[j]).0 != chat_id,
            decreases self.entries@.len() - i,
        {
            if self.entries[i].0 == chat_id {
                proof {
                    kv::lemma_map_of_at(self.entries@, i as int);
                }
                return Some(self.entries[i].1);
            }
            i = i + 1;
        }
        None
    }

    /// How many groups are joined.
    pub fn count(&self) -> (n: usize)
        requires
            self.wf(),
        ensures
            n == self@.dom().len(),
    {
        proof {
            kv::lemma_map_of_len(self.entries@);
        }
        self.entries.len()
    }
}

/// Groups hidden from recommendations: a set of group ids.
pub struct ExcludedGroups {
    pub ids: Vec<u64>,
}

impl View for ExcludedGroups {
    type V = Set<u64>;

    open spec fn view(&self) -> Set<u64> {
        self.ids@.to_set()
    }
}

impl ExcludedGroups {
    /// A group id appears at most once.
    pub open spec fn wf(self) -> bool {
        forall|i: int, j: int|
            0 <= i < j < self.ids@.len() ==> self.ids@[i] != self.ids@[j]
    }

    /// No exclusions.
    pub fn new() -> (e: ExcludedGroups)
        ensures
            e.wf(),
            e@ == Set::<u64>::empty(),
    {
        let e = ExcludedGroups { ids: Vec::new() };
        proof {
            assert(e.ids@.to_set() =~= Set::<u64>::empty());
        }
        e
    }

    /// Whether `chat_id` is excluded.
    #[verifier::loop_isolation(false)]
    pub fn contains(&self, chat_id: u64) -> (r: bool)
        ensures
            r == self@.contains(chat_id),
    {
        let mut i: usize = 0;
        while i < self.ids.len()
            invariant
                i <= self.ids@.len(),
                forall|j: int| 0 <= j < i ==> self.ids@[j] != chat_id,
            decreases self.ids@.len() - i,
        {
            if self.ids[i] == chat_id {
                assert(self.ids@.to_set().contains(chat_id));
                return true;
            }
            i = i + 1;
        }
        assert(!self.ids@.to_set().contains(chat_id));
        false
    }

    /// Marks `chat_id` as excluded (a no-op if it already is).
    #[verifier::loop_isolation(false)]
    pub fn insert(&mut self, chat_id: u64)
        requires
            old(self).wf(),
        ensures
            final(self).wf(),
            final(self)@ == old(self)@.insert(chat_id),
    {
        if !self.contains(chat_id) {
            let ghost before = self.ids@;
            self.ids.push(chat_id);
            proof {
                assert(self.ids@.to_set() =~= before.to_set().insert(chat_id)) by {
                    assert forall|x: u64| #[trigger] self.ids@.to_set().contains(x) implies before
                        .to_set().insert(chat_id).contains(x) by {
                        let i = choose|i: int| 0 <= i < self.ids@.len() && self.ids@[i] == x;
                        if i < before.len() {
                            assert(before[i] == x);
                        }
                    }
                    assert forall|x: u64|
                        #[trigger] before.to_set().insert(chat_id).contains(x) implies self.ids@
                        .to_set().contains(x) by {
                        if x == chat_id {
                            assert(self.ids@[self.ids@.len() - 1] == x);
                        } else {
                            let i = choose|i: int| 0 <= i < before.len() && before[i] == x;
                            assert(self.ids@[i] == x);
                        }
                    }
                }
            }
        } else {
            proof {
                assert(self@ =~= self@.insert(chat_id));
            }
        }
    }

    /// Removes `chat_id` from the exclusions (a no-op if absent).
    #[verifier::loop_isolation(false)]
    pub fn remove(&mut self, chat_id: u64)
        requires
            old(self).wf(),
        ensures
            final(self).wf(),
            final(self)@ == old(self)@.remove(chat_id),
    {
        let mut i: usize = 0;
        while i < self.ids.len()
            invariant
                i <= self.ids@.len(),
                forall|j: int| 0 <= j < i ==> self.ids@[j] != chat_id,
                *self == *old(self),
            decreases self.ids@.len() - i,
        {
            if self.ids[i] == chat_id {
                let ghost before = self.ids@;
                self.ids.remove(i);
                proof {
                    assert forall|a: int, b: int|
                        0 <= a < b < self.ids@.len() implies self.ids@[a] != self.ids@[b] by {
                        if b < i {
                            assert(self.ids@[a] == before[a] && self.ids@[b] == before[b]);
                        } else if a < i {
                            assert(self.ids@[a] == before[a] && self.ids@[b] == before[b + 1]);
                        } else {
                            assert(self.ids@[a] == before[a + 1] && self.ids@[b] == before[b + 1]);
                        }
                    }
                    assert(self.ids@.to_set() =~= before.to_set().remove(chat_id)) by {
                        assert forall|x: u64| #[trigger] self.ids@.to_set().contains(x) implies before
                            .to_set().remove(chat_id).contains(x) by {
                            let j = choose|j: int| 0 <= j < self.ids@.len() && self.ids@[j] == x;
                            if j < i {
                                assert(before[j] == x);
                            } else {
                                assert(before[j + 1] == x);
                            }
                        }
                        assert forall|x: u64|
                            #[trigger] before.to_set().remove(chat_id).contains(x) implies self.ids@
                            .to_set().contains(x) by {
                            let j = choose|j: int| 0 <= j < before.len() && before[j] == x;
                            if j < i {
                                assert(self.ids@[j] == x);
                            } else {
                                assert(before[j] != chat_id && j != i);
                                assert(self.ids@[j - 1] == x);
                            }
                        }
                    }
                }
                return;
            }
            i = i + 1;
        }
        proof {
            assert(!self.ids@.to_set().contains(chat_id));
            assert(self@ =~= self@.remove(chat_id));
        }
    }
}

/// The abstract value of one community membership.
#[verifier::ext_equal]
pub ghost struct CommunityView {
    pub local_index: u64,
    pub channels: Map<u64, Option<u32>>,
}

/// One community membership: the local index canister the community is
/// reached through and the read position of each channel, keyed by channel
/// id.
pub struct CommunityRecord {
    pub local_index: u64,
    pub channels: Vec<(u64, Option<u32>)>,
}

impl View for CommunityRecord {
    type V = CommunityView;

    open spec fn view(&self) -> CommunityView {
        CommunityView { local_index: self.local_index, channels: kv::map_of(self.channels@) }
    }
}

impl CommunityRecord {
    /// A channel id appears at most once.
    pub open spec fn wf(self) -> bool {
        kv::unique_keys(self.channels@)
    }
}

/// Community memberships, keyed by community id.
pub struct Communities {
    pub entries: Vec<(u64, CommunityRecord)>,
}

/// The map a sequence of community entries denotes.
pub open spec fn communities_of(entries: Seq<(u64, CommunityRecord)>) -> Map<u64, CommunityView>
    decreases entries.len(),
{
    if entries.len() == 0 {
        Map::empty()
    } else {
        communities_of(entries.drop_last()).insert(entries.last().0, entries.last().1@)
    }
}

/// A community id is in the denoted map exactly when some entry carries it.
pub proof fn lemma_communities_of_domain(entries: Seq<(u64, CommunityRecord)>, key: u64)
    ensures
        communities_of(entries).contains_key(key) <==> exists|i: int|
            0 <= i < entries.len() && (#[trigger] entries[i]).0 == key,
    decreases entries.len(),
{
    if entries.len() > 0 {
        lemma_communities_of_domain(entries.drop_last(), key);
        if entries.last().0 == key {
            assert(entries[entries.len() - 1].0 == key);
        } else if communities_of(entries).contains_key(key) {
            let i = choose|i: int|
                0 <= i < entries.drop_last().len() && (#[trigger] entries.drop_last()[i]).0 == key;
            assert(entries[i].0 == key);
        } else {
            assert forall|i: int| 0 <= i < entries.len() implies (#[trigger] entries[i]).0
                != key by {
                if i < entries.len() - 1 {
                    assert(entries.drop_last()[i].0 != key);
                }
            }
        }
    }
}

/// Under unique ids, the entry that carries an id gives its map value.
pub proof fn lemma_communities_of_at(entries: Seq<(u64, CommunityRecord)>, i: int)
    requires
        kv::unique_keys(entries),
        0 <= i < entries.len(),
    ensures
        communities_of(entries).contains_key(entries[i].0),
        communities_of(entries)[entries[i].0] == entries[i].1@,
    decreases entries.len(),
{
    if i < entries.len() - 1 {
        lemma_communities_of_at(entries.drop_last(), i);
        assert(entries.drop_last()[i] == entries[i]);
    }
}

/// Appending an entry inserts its value into the denoted map.
pub proof fn lemma_communities_of_push(
    entries: Seq<(u64, CommunityRecord)>,
    key: u64,
    record: CommunityRecord,
)
    ensures
        communities_of(entries.push((key, record))) == communities_of(entries).insert(key, record@),
{
    assert(entries.push((key, record)).drop_last() =~= entries);
}

/// Under unique ids, removing an entry removes its id from the denoted map.
pub proof fn lemma_communities_of_remove(entries: Seq<(u64, CommunityRecord)>, i: int)
    requires
        kv::unique_keys(entries),
        0 <= i < entries.len(),
    ensures
        communities_of(entries.remove(i)) == communities_of(entries).remove(entries[i].0),
    decreases entries.len(),
{
    let key = entries[i].0;
    if i == entries.len() - 1 {
        assert(entries.remove(i) =~= entries.drop_last());
        lemma_communities_of_domain(entries.drop_last(), key);
        assert forall|j: int|
            0 <= j < entries.drop_last().len() implies (#[trigger] entries.drop_last()[j]).0
            != key by {
            assert(entries[j] == entries.drop_last()[j]);
        }
        assert(!communities_of(entries.drop_last()).contains_key(key));
        assert(communities_of(entries.drop_last()).insert(key, entries[i].1@).remove(key)
            =~= communities_of(entries.drop_last()));
    } else {
        lemma_communities_of_remove(entries.drop_last(), i);
        assert(entries.remove(i).drop_last() =~= entries.drop_last().remove(i));
        assert(entries.remove(i).last() == entries.last());
        assert(communities_of(entries).remove(key) =~= communities_of(
            entries.drop_last(),
        ).remove(key).insert(entries.last().0, entries.last().1@));
    }
}

impl View for Communities {
    type V = Map<u64, CommunityView>;

    open spec fn view(&self) -> Map<u64, CommunityView> {
        communities_of(self.entries@)
    }
}

/// A read position for one channel, as carried by a join event.
#[derive(Clone, Copy, PartialEq, Eq, Structural, Debug)]
pub struct ChannelRead {
    pub channel_id: u64,
    pub read_up_to: Option<u32>,
}

/// Channel read positions after overwriting with a list of updates, applied
/// in order.
pub open spec fn mark_read_spec(
    channels: Map<u64, Option<u32>>,
    updates: Seq<ChannelRead>,
) -> Map<u64, Option<u32>>
    decreases updates.len(),
{
    if updates.len() == 0 {
        channels
    } else {
        mark_read_spec(
            channels.insert(updates.first().channel_id, updates.first().read_up_to),
            updates.drop_first(),
        )
    }
}

/// Community memberships after a join: the record is created empty if the
/// id is absent, and left untouched if present.
pub open spec fn community_join_spec(
    communities: Map<u64, CommunityView>,
    community_id: u64,
    local_index: u64,
) -> Map<u64, CommunityView> {
    if communities.contains_key(community_id) {
        communities
    } else {
        communities.insert(
            community_id,
            CommunityView { local_index, channels: Map::empty() },
        )
    }
}

/// Community memberships after a bulk mark-read of one community's
/// channels; an unknown community id changes nothing.
pub open spec fn community_mark_read_spec(
    communities: Map<u64, CommunityView>,
    community_id: u64,
    updates: Seq<ChannelRead>,
) -> Map<u64, CommunityView> {
    if communities.contains_key(community_id) {
        communities.insert(
            community_id,
            CommunityView {
                local_index: communities[community_id].local_index,
                channels: mark_read_spec(communities[community_id].channels, updates),
            },
        )
    } else {
        communities
    }
}

impl Communities {
    /// A community id appears at most once, and each record is well-formed.
    pub open spec fn wf(self) -> bool {
        &&& kv::unique_keys(self.entries@)
        &&& forall|i: int|
            0 <= i < self.entries@.len() ==> (#[trigger] self.entries@[i]).1.wf()
    }

    /// No memberships.
    pub fn new() -> (c: Communities)
        ensures
            c.wf(),
            c@ == Map::<u64, CommunityView>::empty(),
    {
        Communities { entries: Vec::new() }
    }

    /// The index of the entry that carries `community_id`, if any.
    #[verifier::loop_isolation(false)]
    fn find(&self, community_id: u64) -> (r: Option<usize>)
        ensures
            match r {
                Some(i) => i < self.entries@.len() && self.entries@[i as int].0 == community_id,
                None => forall|i: int|
                    0 <= i < self.entries@.len() ==> (#[trigger] self.entries@[i]).0
                        != community_id,
            },
    {
        let mut i: usize = 0;
        while i < self.entries.len()
            invariant
                i <= self.entries@.len(),
                forall|j: int| 0 <= j < i ==> (#[trigger] self.entries@[j]).0 != community_id,
            decreases self.entries@.len() - i,
        {
            if self.entries[i].0 == community_id {
                return Some(i);
            }
            i = i + 1;
        }
        None
    }

    /// Joins `community_id`: inserts an empty membership record if the id is
    /// absent; re-joining leaves the existing record untouched.
    pub fn join(&mut self, community_id: u64, local_index: u64, _now: u64)
        requires
            old(self).wf(),
        ensures
            final(self).wf(),
            final(self)@ == community_join_spec(old(self)@, community_id, local_index),
    {
        let found = self.find(community_id);
        proof {
            lemma_communities_of_domain(self.entries@, community_id);
        }
        match found {
            Some(_) => {},
            None => {
                let ghost before = self.entries@;
                let record = CommunityRecord { local_index, channels: Vec::new() };
                let ghost record_snapshot = record;
                self.entries.push((community_id, record));
                proof {
                    lemma_communities_of_push(before, community_id, record_snapshot);
                    assert(self.entries@.last().1@ =~~= (CommunityView {
                        local_index,
                        channels: Map::empty(),
                    }));
                    assert forall|a: int, b: int|
                        0 <= a < b < self.entries@.len() implies (#[trigger] self.entries@[a]).0
                        != (#[trigger] self.entries@[b]).0 by {
                        if b < self.entries@.len() - 1 {
                            assert(self.entries@[a] == before[a] && self.entries@[b] == before[b]);
                        } else if a < self.entries@.len() - 1 {
                            assert(self.entries@[a] == before[a]);
                        }
                    }
                    assert forall|i: int|
                        0 <= i < self.entries@.len() implies (#[trigger] self.entries@[i]).1.wf() by {
                        if i < self.entries@.len() - 1 {
                            assert(self.entries@[i] == before[i]);
                        }
                    }
                }
            },
        }
    }

    /// Overwrites the read positions of the listed channels of
    /// `community_id`, in order; unlisted channels and unknown community ids
    /// are untouched.
    pub fn mark_read(&mut self, community_id: u64, updates: &Vec<ChannelRead>)
        requires
            old(self).wf(),
        ensures
            final(self).wf(),
            final(self)@ == community_mark_read_spec(old(self)@, community_id, updates@),
    {
        let found = self.find(community_id);
        proof {
            lemma_communities_of_domain(self.entries@, community_id);
        }
        match found {
            None => {},
            Some(i) => {
                let ghost before = self.entries@;
                proof {
                    lemma_communities_of_at(before, i as int);
                    lemma_communities_of_remove(before, i as int);
                }
                let (_, mut record) = self.entries.remove(i);
                proof {
                    assert forall|a: int, b: int|
                        0 <= a < b < self.entries@.len() implies (#[trigger] self.entries@[a]).0
                        != (#[trigger] self.entries@[b]).0 by {
                        if b < i {
                            assert(self.entries@[a] == before[a] && self.entries@[b] == before[b]);
                        } else if a < i {
                            assert(self.entries@[a] == before[a] && self.entries@[b] == before[b
                                + 1]);
                        } else {
                            assert(self.entries@[a] == before[a + 1] && self.entries@[b]
                                == before[b + 1]);
                        }
                    }
                    assert forall|a: int| 0 <= a < self.entries@.len() implies (
                    #[trigger] self.entries@[a]).0 != community_id by {
                        if a < i {
                            assert(self.entries@[a] == before[a]);
                        } else {
                            assert(self.entries@[a] == before[a + 1]);
                        }
                    }
                    assert forall|a: int|
                        0 <= a < self.entries@.len() implies (#[trigger] self.entries@[a]).1.wf() by {
                        if a < i {
                            assert(self.entries@[a] == before[a]);
                        } else {
                            assert(self.entries@[a] == before[a + 1]);
                        }
                    }
                }
                let ghost record0 = record;
                proof {
                    assert(updates@.skip(0) =~= updates@);
                }
                let mut j: usize = 0;
                while j < updates.len()
                    invariant
                        j <= updates@.len(),
                        record.wf(),
                        record.local_index == record0.local_index,
                        mark_read_spec(record0@.channels, updates@) == mark_read_spec(
                            record@.channels,
                            updates@.skip(j as int),
                        ),
                    decreases updates@.len() - j,
                {
                    let ghost channels_before = record.channels@;
                    let u = updates[j];
                    kv::upsert(&mut record.channels, u.channel_id, u.read_up_to);
                    proof {
                        assert(updates@.skip(j as int).first() == updates@[j as int]);
                        assert(updates@.skip(j as int).drop_first() =~= updates@.skip(j + 1));
                    }
                    j = j + 1;
                }
                proof {
                    assert(updates@.skip(updates@.len() as int) =~= Seq::<ChannelRead>::empty());
                    assert(mark_read_spec(record0@.channels, updates@) == record@.channels);
                }
                let ghost mid = self.entries@;
                self.entries.push((community_id, record));
                proof {
                    lemma_communities_of_push(mid, community_id, record);
                    assert(record@ =~~= (CommunityView {
                        local_index: before[i as int].1@.local_index,
                        channels: mark_read_spec(before[i as int].1@.channels, updates@),
                    }));
                    lemma_communities_of_domain(mid, community_id);
                    assert(communities_of(before).remove(community_id).insert(community_id, record@)
                        =~= communities_of(before).insert(community_id, record@));
                    assert forall|a: int, b: int|
                        0 <= a < b < self.entries@.len() implies (#[trigger] self.entries@[a]).0
                        != (#[trigger] self.entries@[b]).0 by {
                        if b < self.entries@.len() - 1 {
                            assert(self.entries@[a] == mid[a] && self.entries@[b] == mid[b]);
                        } else if a < self.entries@.len() - 1 {
                            assert(self.entries@[a] == mid[a]);
                        }
                    }
                    assert forall|a: int|
                        0 <= a < self.entries@.len() implies (#[trigger] self.entries@[a]).1.wf() by {
                        if a < self.entries@.len() - 1 {
                            assert(self.entries@[a] == mid[a]);
                        }
                    }
                }
            },
        }
    }

    /// The membership view of `community_id`: its local index and the read
    /// position of each listed channel.
    pub fn get(&self, community_id: u64) -> (r: Option<&CommunityRecord>)
        requires
            self.wf(),
        ensures
            match r {
                Some(record) => self@.contains_key(community_id) && self@[community_id] == record@,
                None => !self@.contains_key(community_id),
            },
    {
        let found = self.find(community_id);
        proof {
            lemma_communities_of_domain(self.entries@, community_id);
        }
        match found {
            Some(i) => {
                proof {
                    lemma_communities_of_at(self.entries@, i as int);
                }
                Some(&self.entries[i].1)
            },
            None => None,
        }
    }

    /// How many communities are joined.
    pub fn count(&self) -> (n: usize)
        requires
            self.wf(),
        ensures
            n == self.entries@.len(),
    {
        self.entries.len()
    }
}

impl CommunityRecord {
    /// The read position stored for `channel_id`, if the channel is listed.
    #[verifier::loop_isolation(false)]
    pub fn channel_read_up_to(&self, channel_id: u64) -> (r: Option<Option<u32>>)
        requires
            self.wf(),
        ensures
            match r {
                Some(position) => self@.channels.contains_key(channel_id)
                    && self@.channels[channel_id] == position,
                None => !self@.channels.contains_key(channel_id),
            },
    {
        proof {
            kv::lemma_map_of_domain(self.channels@, channel_id);
        }
        let mut i: usize = 0;
        while i < self.channels.len()
            invariant
                i <= self.channels@.len(),
                forall|j: int| 0 <= j < i ==> (#[trigger] self.channels@[j]).0 != channel_id,
            decreases self.channels@.len() - i,
        {
            if self.channels[i].0 == channel_id {
                proof {
                    kv::lemma_map_of_at(self.channels@, i as int);
                }
                return Some(self.channels[i].1);
            }
            i = i + 1;
        }
        None
    }
}

} // verus!

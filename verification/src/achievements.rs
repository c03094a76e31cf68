//! The achievement ledger: one-time-per-account milestone flags.
//!
//! Each milestone kind is held at most once, with the timestamp of its first
//! grant; re-granting a held kind is a no-op that reports nothing new.

use vstd::prelude::*;

verus! {

/// A milestone an account can unlock.
#[derive(Clone, Copy, PartialEq, Eq, Structural, Debug)]
pub enum Achievement {
    SetDisplayName,
    JoinedGroup,
    JoinedCommunity,
    UpgradedToDiamond,
    UpgradedToGoldDiamond,
    Streak3,
    Streak7,
    Streak14,
    Streak30,
}

/// The ledger and freshness signal a grant produces: insertion happens only
/// if the kind is absent.
pub open spec fn grant_spec(granted: Map<Achievement, u64>, kind: Achievement, now: u64) -> (
    Map<Achievement, u64>,
    bool,
) {
    if granted.contains_key(kind) {
        (granted, false)
    } else {
        (granted.insert(kind, now), true)
    }
}

/// Granted milestones, each entry pairing a kind with its earned-at
/// timestamp.
pub struct Achievements {
    pub entries: Vec<(Achievement, u64)>,
}

/// The map a sequence of grant entries denotes.
pub open spec fn grants_of(entries: Seq<(Achievement, u64)>) -> Map<Achievement, u64>
    decreases entries.len(),
{
    if entries.len() == 0 {
        Map::empty()
    } else {
        grants_of(entries.drop_last()).insert(entries.last().0, entries.last().1)
    }
}

/// A kind is in the denoted map exactly when some entry carries it.
pub proof fn lemma_grants_of_domain(entries: Seq<(Achievement, u64)>, kind: Achievement)
    ensures
        grants_of(entries).contains_key(kind) <==> exists|i: int|
            0 <= i < entries.len() && (#[trigger] entries[i]).0 == kind,
    decreases entries.len(),
{
    if entries.len() > 0 {
        lemma_grants_of_domain(entries.drop_last(), kind);
        if entries.last().0 == kind {
            assert(entries[entries.len() - 1].0 == kind);
        } else if grants_of(entries).contains_key(kind) {
            let i = choose|i: int|
                0 <= i < entries.drop_last().len() && (#[trigger] entries.drop_last()[i]).0 == kind;
            assert(entries[i].0 == kind);
        } else {
            assert forall|i: int| 0 <= i < entries.len() implies (#[trigger] entries[i]).0
                != kind by {
                if i < entries.len() - 1 {
                    assert(entries.drop_last()[i].0 != kind);
                }
            }
        }
    }
}

/// Under unique kinds, the entry that carries a kind gives its timestamp.
pub proof fn lemma_grants_of_at(entries: Seq<(Achievement, u64)>, i: int)
    requires
        unique_kinds(entries),
        0 <= i < entries.len(),
    ensures
        grants_of(entries).contains_key(entries[i].0),
        grants_of(entries)[entries[i].0] == entries[i].1,
    decreases entries.len(),
{
    if i < entries.len() - 1 {
        lemma_grants_of_at(entries.drop_last(), i);
        assert(entries.drop_last()[i] == entries[i]);
    }
}

/// No two entries carry the same kind.
pub open spec fn unique_kinds(entries: Seq<(Achievement, u64)>) -> bool {
    forall|i: int, j: int|
        0 <= i < j < entries.len() ==> (#[trigger] entries[i]).0 != (#[trigger] entries[j]).0
}

impl View for Achievements {
    type V = Map<Achievement, u64>;

    open spec fn view(&self) -> Map<Achievement, u64> {
        grants_of(self.entries@)
    }
}

impl Achievements {
    /// An achievement kind appears at most once.
    pub open spec fn wf(self) -> bool {
        unique_kinds(self.entries@)
    }

    /// An empty ledger.
    pub fn new() -> (a: Achievements)
        ensures
            a.wf(),
            a@ == Map::<Achievement, u64>::empty(),
    {
        Achievements { entries: Vec::new() }
    }

    /// Whether `kind` has been granted.
    #[verifier::loop_isolation(false)]
    pub fn contains(&self, kind: Achievement) -> (r: bool)
        ensures
            r == self@.contains_key(kind),
    {
        proof {
            lemma_grants_of_domain(self.entries@, kind);
        }
        let mut i: usize = 0;
        while i < self.entries.len()
            invariant
                i <= self.entries@.len(),
                forall|j: int| 0 <= j < i ==> (#[trigger] self.entries@[j]).0 != kind,
            decreases self.entries@.len() - i,
        {
            if self.entries[i].0 == kind {
                return true;
            }
            i = i + 1;
        }
        false
    }

    /// The earned-at timestamp of `kind`, if granted.
    #[verifier::loop_isolation(false)]
    pub fn earned_at(&self, kind: Achievement) -> (r: Option<u64>)
        requires
            self.wf(),
        ensures
            match r {
                Some(t) => self@.contains_key(kind) && self@[kind] == t,
                None => !self@.contains_key(kind),
            },
    {
        proof {
            lemma_grants_of_domain(self.entries@, kind);
        }
        let mut i: usize = 0;
        while i < self.entries.len()
            invariant
                i <= self.entries@.len(),
                forall|j: int| 0 <= j < i ==> (#[trigger] self.entries@[j]).0 != kind,
        decreases self.entries@.len() - i,
        {
            if self.entries[i].0 == kind {
                proof {
                    lemma_grants_of_at(self.entries@, i as int);
                }
                return Some(self.entries[i].1);
            }
            i = i + 1;
        }
        None
    }

    /// Grants `kind` with timestamp `now` if it is absent.  Returns whether
    /// insertion happened; a held kind keeps its original timestamp.
    pub fn grant(&mut self, kind: Achievement, now: u64) -> (is_new_grant: bool)
        requires
            old(self).wf(),
        ensures
            final(self).wf(),
            is_new_grant == grant_spec(old(self)@, kind, now).1,
            final(self)@ == grant_spec(old(self)@, kind, now).0,
    {
        if self.contains(kind) {
            false
        } else {
            let ghost before = self.entries@;
            self.entries.push((kind, now));
            proof {
                assert(before.push((kind, now)).drop_last() =~= before);
                lemma_grants_of_domain(before, kind);
                assert forall|a: int, b: int|
                    0 <= a < b < self.entries@.len() implies (#[trigger] self.entries@[a]).0
                    != (#[trigger] self.entries@[b]).0 by {
                    if b < self.entries@.len() - 1 {
                        assert(self.entries@[a] == before[a] && self.entries@[b] == before[b]);
                    } else if a < self.entries@.len() - 1 {
                        assert(self.entries@[a] == before[a]);
                    }
                }
            }
            true
        }
    }
}

/// Granting one kind never changes or removes another grant already held:
/// a held kind stays held, with its timestamp untouched.
pub proof fn lemma_grant_keeps_held(
    granted: Map<Achievement, u64>,
    new_kind: Achievement,
    now: u64,
    held: Achievement,
)
    requires
        granted.contains_key(held),
    ensures
        grant_spec(granted, new_kind, now).0.contains_key(held),
        grant_spec(granted, new_kind, now).0[held] == granted[held],
{
}

/// A grant is at most once: granting a kind at `t1` and again at a later
/// `t2` stores the kind exactly once, with the first timestamp, and the
/// second grant reports nothing new.
pub proof fn lemma_grant_idempotent(
    granted: Map<Achievement, u64>,
    kind: Achievement,
    t1: u64,
    t2: u64,
)
    requires
        !granted.contains_key(kind),
        t1 < t2,
    ensures
        grant_spec(granted, kind, t1).1,
        !grant_spec(grant_spec(granted, kind, t1).0, kind, t2).1,
        grant_spec(grant_spec(granted, kind, t1).0, kind, t2).0 == grant_spec(granted, kind, t1).0,
        grant_spec(grant_spec(granted, kind, t1).0, kind, t2).0[kind] == t1,
{
}

} // verus!

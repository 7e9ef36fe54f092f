//! What a resolution comes to against a file system that stays as it is while
//! the resolution runs: the states it goes through and the state it ends in.

use crate::plan::{lemma_next_candidate, lemma_next_session, Listed, Phase, Plan, Reply};
use crate::probe::{Facts, StatError};
use vstd::prelude::*;

verus! {

/// A directory that the resolver looks into: a root, or a directory of that
/// root.
pub struct Place {
    /// The position of the root among the roots.
    pub root: int,
    /// The name of the directory within the root, or `None` for the root
    /// itself.
    pub dir: Option<Seq<u8>>,
}

/// A file system, by what it answers.
pub struct World {
    /// The entries of a place, or `None` where it cannot be read.
    pub listing: spec_fn(Place) -> Option<Seq<Listed>>,
    /// The user that owns a directory of a root.
    pub owner: spec_fn(int, Seq<u8>) -> Result<u32, StatError>,
    /// What `stat` and a connection attempt give for a name in a place.
    pub facts: spec_fn(Place, Seq<u8>) -> Facts,
}

impl Plan {
    /// The directory that the state is looking into.
    pub open spec fn place(self) -> Place {
        Place {
            root: self.root,
            dir: if self.in_session() {
                Some(self.dirs[self.dir])
            } else {
                None
            },
        }
    }

    /// The roots that are still to be gone through, the one at hand counted.
    pub open spec fn roots_left(self) -> int {
        if self.root < self.flat.len() {
            self.flat.len() - self.root
        } else {
            0
        }
    }

    /// How far the work on the root at hand is from its end.
    pub open spec fn root_stage(self) -> int {
        match self.phase {
            Phase::FlatListing => 3,
            Phase::FlatStat | Phase::FlatConnect | Phase::FlatFound => 2,
            Phase::SharedListing => 1,
            _ => 0,
        }
    }

    /// The session directories that are still to be gone through, the one at
    /// hand counted.
    pub open spec fn dirs_left(self) -> int {
        if self.in_session() && self.dir < self.dirs.len() {
            self.dirs.len() - self.dir
        } else {
            0
        }
    }

    /// How far the work on the session directory at hand is from its end.
    pub open spec fn dir_stage(self) -> int {
        match self.phase {
            Phase::DirOwner => 2,
            Phase::DirListing => 1,
            _ => 0,
        }
    }

    /// The candidates that are still to be gone through, the one at hand
    /// counted.
    pub open spec fn names_left(self) -> int {
        if self.has_candidate() && self.name < self.names.len() {
            self.names.len() - self.name
        } else {
            0
        }
    }

    /// How far the work on the candidate at hand is from its end.
    pub open spec fn candidate_stage(self) -> int {
        match self.phase {
            Phase::FlatStat | Phase::DirStat => 2,
            Phase::FlatConnect | Phase::DirConnect => 1,
            _ => 0,
        }
    }

    /// The state is closer to the end of the resolution than `before`.
    pub open spec fn closer_than(self, before: Plan) -> bool {
        decreases_to!(
            before.roots_left(), before.root_stage(), before.dirs_left(), before.dir_stage(),
            before.names_left(), before.candidate_stage()
            => self.roots_left(), self.root_stage(), self.dirs_left(), self.dir_stage(),
            self.names_left(), self.candidate_stage())
    }
}

/// Every step brings the resolution closer to its end.
pub proof fn lemma_step_comes_closer(plan: Plan, reply: Reply)
    requires
        plan.wf(),
        plan.expects(reply),
    ensures
        plan.step(reply).closer_than(plan),
{
    if plan.has_candidate() {
        lemma_next_candidate(plan.names, plan.name + 1);
    }
    if plan.in_session() {
        lemma_next_session(plan.dirs, plan.dir + 1);
    }
    match reply {
        Reply::Listing(Some(entries)) => {
            lemma_next_candidate(crate::order::arranged(crate::plan::names_of(entries)), 0);
            lemma_next_session(crate::order::arranged(crate::plan::dir_names_of(entries)), 0);
        },
        _ => {},
    }
}

impl World {
    /// What the file system answers to what `plan` asks for.
    pub open spec fn reply(self, plan: Plan) -> Reply {
        match plan.phase {
            Phase::FlatListing | Phase::SharedListing | Phase::DirListing => Reply::Listing(
                (self.listing)(plan.place()),
            ),
            Phase::DirOwner => Reply::Owner((self.owner)(plan.root, plan.dirs[plan.dir])),
            Phase::FlatStat | Phase::DirStat => Reply::Mode(
                (self.facts)(plan.place(), plan.names[plan.name]).stat,
            ),
            _ => Reply::Connected((self.facts)(plan.place(), plan.names[plan.name]).connect),
        }
    }

    /// The state that follows `plan`.
    pub open spec fn next(self, plan: Plan) -> Plan {
        plan.step(self.reply(plan))
    }

    /// The state in which the resolution ends when it goes on from `plan`.
    pub open spec fn outcome(self, plan: Plan) -> Plan
        decreases plan.roots_left(), plan.root_stage(), plan.dirs_left(), plan.dir_stage(),
            plan.names_left(), plan.candidate_stage(),
    {
        if plan.done() || !plan.wf() {
            plan
        } else {
            proof {
                lemma_step_comes_closer(plan, self.reply(plan));
            }
            self.outcome(self.next(plan))
        }
    }

    /// The resolution that goes on from `plan` comes through `at`.
    pub open spec fn visits(self, plan: Plan, at: Plan) -> bool
        decreases plan.roots_left(), plan.root_stage(), plan.dirs_left(), plan.dir_stage(),
            plan.names_left(), plan.candidate_stage(),
    {
        plan == at || (!plan.done() && plan.wf() && {
            proof {
                lemma_step_comes_closer(plan, self.reply(plan));
            }
            self.visits(self.next(plan), at)
        })
    }
}

} // verus!

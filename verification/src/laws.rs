//! What holds of every resolution against a file system that stays as it is:
//! which candidate is chosen, what is never touched, and that the order in
//! which directories hand out their entries does not matter.

use crate::names::{session_dir_name, socket_name};
use crate::order::{arranged, in_order, lemma_arranged, lemma_arranged_unique};
use crate::plan::{
    dir_names_of, lemma_next_candidate, lemma_next_session, names_of, next_candidate,
    next_session, owned_by, Ask, Phase, Plan, Reply,
};
use crate::probe::{socket_mode, verdict};
use crate::world::{lemma_step_comes_closer, Place, World};
use vstd::prelude::*;

verus! {

impl World {
    /// The names of the entries of `place`; none where it cannot be read.
    pub open spec fn names_at(self, place: Place) -> Seq<Seq<u8>> {
        match (self.listing)(place) {
            Some(entries) => names_of(entries),
            None => Seq::empty(),
        }
    }

    /// The names of the directories of the root `root`; none where it cannot
    /// be read.
    pub open spec fn dirs_at(self, root: int) -> Seq<Seq<u8>> {
        match (self.listing)(Place { root, dir: None }) {
            Some(entries) => dir_names_of(entries),
            None => Seq::empty(),
        }
    }

    /// The candidate `name` of `place` passes the whole validation.
    pub open spec fn valid(self, place: Place, name: Seq<u8>) -> bool {
        verdict(name, (self.facts)(place, name)) is Ok
    }

    /// No entry of `place` passes the validation.
    pub open spec fn barren(self, place: Place) -> bool {
        forall|n: Seq<u8>| #[trigger] self.names_at(place).contains(n) ==> !self.valid(place, n)
    }

    /// The directory `dir` of the root `root` is a session directory of the
    /// user `uid`: it has the name of one and belongs to that user.
    pub open spec fn trusted(self, uid: u32, root: int, dir: Seq<u8>) -> bool {
        session_dir_name(dir) && owned_by((self.owner)(root, dir), uid)
    }

    /// No session directory of `uid` in the root `root` holds an entry that
    /// passes the validation.
    pub open spec fn sessions_barren(self, uid: u32, root: int) -> bool {
        forall|d: Seq<u8>| #[trigger]
            self.dirs_at(root).contains(d) && self.trusted(uid, root, d) ==> self.barren(
                Place { root, dir: Some(d) },
            )
    }

    /// The root `root` gives no agent by either convention.
    pub open spec fn root_barren(self, flat: Seq<bool>, uid: u32, root: int) -> bool {
        &&& flat[root] ==> self.barren(Place { root, dir: None })
        &&& self.sessions_barren(uid, root)
    }

    /// Every root before the one at hand gives no agent.
    pub open spec fn past_roots_barren(self, plan: Plan) -> bool {
        forall|r: int| 0 <= r < plan.root ==> #[trigger] self.root_barren(plan.flat, plan.uid, r)
    }

    /// The directories that `plan` holds are those of the root at hand, and
    /// the session directories of the user before position `upto` give no
    /// agent.
    pub open spec fn dirs_settled(self, plan: Plan, upto: int) -> bool {
        &&& plan.dirs == arranged(self.dirs_at(plan.root))
        &&& forall|k: int|
            0 <= k < upto && self.trusted(plan.uid, plan.root, #[trigger] plan.dirs[k])
                ==> self.barren(Place { root: plan.root, dir: Some(plan.dirs[k]) })
    }

    /// The names that `plan` holds are those of `place`, and none before
    /// position `upto` passes the validation.
    pub open spec fn names_settled(self, plan: Plan, place: Place, upto: int) -> bool {
        &&& plan.names == arranged(self.names_at(place))
        &&& forall|k: int| 0 <= k < upto ==> !self.valid(place, #[trigger] plan.names[k])
    }

    /// What holds of every state that a resolution comes through: all that
    /// was passed over gives no agent, and what is being looked into may be
    /// looked into.
    pub open spec fn on_course(self, plan: Plan) -> bool {
        &&& plan.wf()
        &&& self.past_roots_barren(plan)
        &&& (plan.phase == Phase::SharedListing || plan.in_session()) && plan.flat[plan.root]
            ==> self.barren(Place { root: plan.root, dir: None })
        &&& plan.in_session() ==> self.dirs_settled(plan, plan.dir)
        &&& plan.beneath_session() ==> self.trusted(plan.uid, plan.root, plan.dirs[plan.dir])
        &&& plan.has_candidate() ==> self.names_settled(plan, plan.place(), plan.name)
        &&& plan.pending() == Ask::Connect ==> ((self.facts)(
            plan.place(),
            plan.names[plan.name],
        ).stat matches Ok(mode) && socket_mode(mode))
        &&& plan.found() ==> self.valid(plan.place(), plan.names[plan.name])
    }
}

/// The arrangement of `names` holds the names that `names` holds.
pub proof fn lemma_arranged_contains(names: Seq<Seq<u8>>, n: Seq<u8>)
    ensures
        arranged(names).contains(n) <==> names.contains(n),
{
    lemma_arranged(names);
    vstd::seq_lib::to_multiset_contains(names, n);
    vstd::seq_lib::to_multiset_contains(arranged(names), n);
}

/// Turning to a root is on course when every root before it gives no agent.
proof fn lemma_at_root(world: World, plan: Plan, root: int)
    requires
        0 <= root <= plan.flat.len(),
        forall|r: int| 0 <= r < root ==> #[trigger] world.root_barren(plan.flat, plan.uid, r),
    ensures
        world.on_course(plan.at_root(root)),
{
}

/// Turning to the next session directory at or after `from` is on course
/// when the session directories of the user before `from` give no agent.
proof fn lemma_session_from(world: World, plan: Plan, from: int)
    requires
        0 <= plan.root < plan.flat.len(),
        world.past_roots_barren(plan),
        plan.flat[plan.root] ==> world.barren(Place { root: plan.root, dir: None }),
        0 <= from <= plan.dirs.len(),
        world.dirs_settled(plan, from),
    ensures
        world.on_course(plan.session_from(from)),
{
    lemma_next_session(plan.dirs, from);
    let dir = next_session(plan.dirs, from);
    let moved = Plan { dir, ..plan };
    assert(world.dirs_settled(moved, dir));
    if dir >= plan.dirs.len() {
        assert(world.sessions_barren(plan.uid, plan.root)) by {
            assert forall|d: Seq<u8>| #[trigger]
                world.dirs_at(plan.root).contains(d) && world.trusted(
                    plan.uid,
                    plan.root,
                    d,
                ) implies world.barren(Place { root: plan.root, dir: Some(d) }) by {
                lemma_arranged_contains(world.dirs_at(plan.root), d);
                let k = choose|k: int| 0 <= k < plan.dirs.len() && plan.dirs[k] == d;
                assert(world.trusted(plan.uid, plan.root, plan.dirs[k]));
            }
        }
        assert(world.root_barren(plan.flat, plan.uid, plan.root));
        lemma_at_root(world, moved, plan.root + 1);
    }
}

/// Turning to the next candidate at or after `from` is on course when no
/// entry before `from` passes the validation.
proof fn lemma_candidate_from(world: World, plan: Plan, flat: bool, from: int)
    requires
        0 <= plan.root < plan.flat.len(),
        world.past_roots_barren(plan),
        0 <= from <= plan.names.len(),
        flat ==> plan.flat[plan.root] && world.names_settled(
            plan,
            Place { root: plan.root, dir: None },
            from,
        ),
        !flat ==> {
            &&& plan.flat[plan.root] ==> world.barren(Place { root: plan.root, dir: None })
            &&& 0 <= plan.dir < plan.dirs.len()
            &&& world.dirs_settled(plan, plan.dir)
            &&& world.trusted(plan.uid, plan.root, plan.dirs[plan.dir])
            &&& world.names_settled(
                plan,
                Place { root: plan.root, dir: Some(plan.dirs[plan.dir]) },
                from,
            )
        },
    ensures
        world.on_course(plan.candidate_from(flat, from)),
{
    lemma_next_candidate(plan.names, from);
    let name = next_candidate(plan.names, from);
    let place = Place {
        root: plan.root,
        dir: if flat {
            None
        } else {
            Some(plan.dirs[plan.dir])
        },
    };
    let moved = Plan { name, ..plan };
    assert(world.names_settled(moved, place, name));
    if name >= plan.names.len() {
        assert(world.barren(place)) by {
            assert forall|n: Seq<u8>| #[trigger]
                world.names_at(place).contains(n) implies !world.valid(place, n) by {
                lemma_arranged_contains(world.names_at(place), n);
                let k = choose|k: int| 0 <= k < plan.names.len() && plan.names[k] == n;
                assert(!world.valid(place, plan.names[k]));
            }
        }
        if !flat {
            assert(world.dirs_settled(moved, plan.dir + 1));
            lemma_session_from(world, moved, plan.dir + 1);
        }
    }
}

/// A step with the answer of the file system keeps a resolution on course.
pub proof fn lemma_next_on_course(world: World, plan: Plan)
    requires
        world.on_course(plan),
        !plan.done(),
    ensures
        world.on_course(world.next(plan)),
{
    let reply = world.reply(plan);
    let place = plan.place();
    match plan.phase {
        Phase::FlatListing => {
            match reply {
                Reply::Listing(Some(entries)) => {
                    let listed = Plan { names: arranged(names_of(entries)), ..plan };
                    lemma_candidate_from(world, listed, true, 0);
                },
                _ => {
                    assert(world.names_at(place) =~= Seq::<Seq<u8>>::empty());
                },
            }
        },
        Phase::FlatStat | Phase::FlatConnect => {
            if world.next(plan).phase != Phase::FlatConnect && world.next(plan).phase
                != Phase::FlatFound {
                lemma_candidate_from(world, plan, true, plan.name + 1);
            }
        },
        Phase::SharedListing => {
            match reply {
                Reply::Listing(Some(entries)) => {
                    let listed = Plan { dirs: arranged(dir_names_of(entries)), ..plan };
                    lemma_session_from(world, listed, 0);
                },
                _ => {
                    assert(world.dirs_at(plan.root) =~= Seq::<Seq<u8>>::empty());
                    assert(world.sessions_barren(plan.uid, plan.root));
                    lemma_at_root(world, plan, plan.root + 1);
                },
            }
        },
        Phase::DirOwner => {
            if world.next(plan).phase != Phase::DirListing || world.next(plan).dir != plan.dir {
                assert(!world.trusted(plan.uid, plan.root, plan.dirs[plan.dir]));
                assert(world.dirs_settled(plan, plan.dir + 1));
                lemma_session_from(world, plan, plan.dir + 1);
            } else {
                assert(world.trusted(plan.uid, plan.root, plan.dirs[plan.dir]));
            }
        },
        Phase::DirListing => {
            match reply {
                Reply::Listing(Some(entries)) => {
                    let listed = Plan { names: arranged(names_of(entries)), ..plan };
                    lemma_candidate_from(world, listed, false, 0);
                },
                _ => {
                    assert(world.names_at(place) =~= Seq::<Seq<u8>>::empty());
                    assert(world.barren(place));
                    assert(world.dirs_settled(plan, plan.dir + 1));
                    lemma_session_from(world, plan, plan.dir + 1);
                },
            }
        },
        Phase::DirStat | Phase::DirConnect => {
            if world.next(plan).phase != Phase::DirConnect && world.next(plan).phase
                != Phase::DirFound {
                lemma_candidate_from(world, plan, false, plan.name + 1);
            }
        },
        _ => {},
    }
}

/// A resolution that is on course ends on course, and it ends.
pub proof fn lemma_outcome_on_course(world: World, plan: Plan)
    requires
        world.on_course(plan),
    ensures
        world.on_course(world.outcome(plan)),
        world.outcome(plan).done(),
        world.outcome(plan).flat == plan.flat,
        world.outcome(plan).uid == plan.uid,
    decreases plan.roots_left(), plan.root_stage(), plan.dirs_left(), plan.dir_stage(),
        plan.names_left(), plan.candidate_stage(),
{
    if !plan.done() {
        lemma_step_comes_closer(plan, world.reply(plan));
        lemma_next_on_course(world, plan);
        crate::plan::lemma_step_keeps_wf(plan, world.reply(plan));
        lemma_outcome_on_course(world, world.next(plan));
    }
}

/// A resolution that is on course is on course at every state that it comes
/// through.
pub proof fn lemma_visits_on_course(world: World, plan: Plan, at: Plan)
    requires
        world.on_course(plan),
        world.visits(plan, at),
    ensures
        world.on_course(at),
        at.flat == plan.flat,
        at.uid == plan.uid,
    decreases plan.roots_left(), plan.root_stage(), plan.dirs_left(), plan.dir_stage(),
        plan.names_left(), plan.candidate_stage(),
{
    if plan != at {
        lemma_step_comes_closer(plan, world.reply(plan));
        lemma_next_on_course(world, plan);
        crate::plan::lemma_step_keeps_wf(plan, world.reply(plan));
        lemma_visits_on_course(world, world.next(plan), at);
    }
}

impl World {
    /// The two file systems hold the same: every directory can be read in
    /// both or in neither, with the same names as often, the same of them
    /// are directories, and owners, modes and connections are the same. The
    /// order in which a directory hands out its entries may differ.
    pub open spec fn same_layout(self, other: World) -> bool {
        &&& forall|place: Place| (#[trigger] (self.listing)(place)) is Some <==> (other.listing)(
            place,
        ) is Some
        &&& forall|place: Place| #[trigger]
            self.names_at(place).to_multiset() == other.names_at(place).to_multiset()
        &&& forall|root: int| #[trigger]
            self.dirs_at(root).to_multiset() == other.dirs_at(root).to_multiset()
        &&& self.owner == other.owner
        &&& self.facts == other.facts
    }
}

/// Where a resolution finds an agent, the candidate that it takes is an entry
/// of the directory that was scanned, passes the validation, and comes before
/// every other entry of that directory that passes it, in whatever order the
/// directory handed out its entries.
pub proof fn lemma_first_valid_candidate_is_chosen(
    world: World,
    flat: Seq<bool>,
    uid: u32,
    other: Seq<u8>,
)
    ensures
        ({
            let end = world.outcome(Plan::start(flat, uid));
            end.found() ==> {
                &&& world.names_at(end.place()).contains(end.names[end.name])
                &&& world.valid(end.place(), end.names[end.name])
                &&& world.names_at(end.place()).contains(other) && world.valid(end.place(), other)
                    ==> in_order(end.names[end.name], other)
            }
        }),
{
    let end = world.outcome(Plan::start(flat, uid));
    lemma_outcome_on_course(world, Plan::start(flat, uid));
    if end.found() {
        let place = end.place();
        lemma_arranged(world.names_at(place));
        lemma_arranged_contains(world.names_at(place), end.names[end.name]);
        if world.names_at(place).contains(other) && world.valid(place, other) {
            lemma_arranged_contains(world.names_at(place), other);
            let k = choose|k: int| 0 <= k < end.names.len() && end.names[k] == other;
            assert(k >= end.name);
        }
    }
}

/// A resolution looks beneath a directory of a root, to list it or to try an
/// entry of it, only if the directory has the name of a session directory and
/// belongs to the user for whom the agent is sought.
pub proof fn lemma_only_trusted_dirs_are_entered(
    world: World,
    flat: Seq<bool>,
    uid: u32,
    at: Plan,
)
    requires
        world.visits(Plan::start(flat, uid), at),
    ensures
        at.beneath_session() ==> world.trusted(uid, at.root, at.dirs[at.dir]),
        at.pending() == Ask::Owner ==> session_dir_name(at.dirs[at.dir]),
{
    lemma_visits_on_course(world, Plan::start(flat, uid), at);
}

/// A resolution calls `stat` on an entry, or connects to it, only if the
/// entry has the name of a socket.
pub proof fn lemma_only_named_candidates_are_probed(
    world: World,
    flat: Seq<bool>,
    uid: u32,
    at: Plan,
)
    requires
        world.visits(Plan::start(flat, uid), at),
    ensures
        at.pending() == Ask::Stat || at.pending() == Ask::Connect ==> socket_name(
            at.names[at.name],
        ),
{
    lemma_visits_on_course(world, Plan::start(flat, uid), at);
}

/// A resolution ends, and it ends without an agent exactly when no root
/// gives one: no entry of a root under the home directory passes the
/// validation, and none of a session directory of the user does. What it
/// passed over before it found an agent gave none either: the roots before,
/// the root itself where the agent is in a session directory, and the session
/// directories of the user that come before in ascending order.
pub proof fn lemma_found_unless_barren(world: World, flat: Seq<bool>, uid: u32)
    ensures
        ({
            let end = world.outcome(Plan::start(flat, uid));
            &&& end.done()
            &&& !end.found() <==> forall|r: int|
                0 <= r < flat.len() ==> #[trigger] world.root_barren(flat, uid, r)
            &&& forall|r: int| 0 <= r < end.root ==> #[trigger] world.root_barren(flat, uid, r)
            &&& end.phase == Phase::DirFound && flat[end.root] ==> world.barren(
                Place { root: end.root, dir: None },
            )
            &&& end.phase == Phase::DirFound ==> end.dirs == arranged(world.dirs_at(end.root))
            &&& end.phase == Phase::DirFound ==> forall|k: int|
                0 <= k < end.dir && world.trusted(uid, end.root, #[trigger] end.dirs[k])
                    ==> world.barren(Place { root: end.root, dir: Some(end.dirs[k]) })
            &&& end.found() ==> end.names == arranged(world.names_at(end.place()))
        }),
{
    let end = world.outcome(Plan::start(flat, uid));
    lemma_outcome_on_course(world, Plan::start(flat, uid));
    if end.found() {
        let place = end.place();
        let chosen = end.names[end.name];
        lemma_arranged_contains(world.names_at(place), chosen);
        assert(!world.barren(place));
        if end.phase == Phase::DirFound {
            lemma_arranged_contains(world.dirs_at(end.root), end.dirs[end.dir]);
            assert(!world.sessions_barren(uid, end.root));
        }
        assert(!world.root_barren(flat, uid, end.root));
    }
}

/// File systems that hold the same lead from a state to the same state.
proof fn lemma_same_next(world: World, other: World, plan: Plan)
    requires
        world.same_layout(other),
    ensures
        world.next(plan) == other.next(plan),
{
    let place = plan.place();
    assert((world.listing)(place) is Some <==> (other.listing)(place) is Some);
    assert(world.names_at(place).to_multiset() == other.names_at(place).to_multiset());
    assert(world.dirs_at(plan.root).to_multiset() == other.dirs_at(plan.root).to_multiset());
    lemma_arranged(world.names_at(place));
    lemma_arranged_unique(other.names_at(place), arranged(world.names_at(place)));
    lemma_arranged(world.dirs_at(plan.root));
    lemma_arranged_unique(other.dirs_at(plan.root), arranged(world.dirs_at(plan.root)));
}

/// File systems that hold the same lead from a state to the same end.
proof fn lemma_same_outcome(world: World, other: World, plan: Plan)
    requires
        world.same_layout(other),
    ensures
        world.outcome(plan) == other.outcome(plan),
    decreases plan.roots_left(), plan.root_stage(), plan.dirs_left(), plan.dir_stage(),
        plan.names_left(), plan.candidate_stage(),
{
    if !plan.done() && plan.wf() {
        lemma_step_comes_closer(plan, world.reply(plan));
        lemma_same_next(world, other, plan);
        lemma_same_outcome(world, other, world.next(plan));
    }
}

/// Two resolutions for the same user over the same roots end alike when the
/// file system holds the same for both: the same candidate is chosen, or none
/// both times. So a resolution that is made again while nothing has changed
/// chooses as the one before, also where a directory hands out its entries in
/// another order the second time.
pub proof fn lemma_same_layout_same_choice(
    world: World,
    again: World,
    flat: Seq<bool>,
    uid: u32,
)
    requires
        world.same_layout(again),
    ensures
        world.outcome(Plan::start(flat, uid)) == again.outcome(Plan::start(flat, uid)),
{
    lemma_same_outcome(world, again, Plan::start(flat, uid));
}

} // verus!

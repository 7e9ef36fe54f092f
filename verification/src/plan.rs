//! The order in which the resolver goes through roots, session directories
//! and candidates, as a function from a state and the answer to what the state
//! asks for to the next state. Everything here is mathematics: the machine
//! that runs on real data follows it step by step.

use crate::names::{session_dir_name, socket_name};
use crate::order::arranged;
use crate::probe::{socket_mode, StatError};
use vstd::prelude::*;

verus! {

/// Where the resolver stands.
#[derive(Clone, Copy, Debug, PartialEq, Eq, Structural)]
pub enum Phase {
    /// Wants the entries of the root, to try them as sockets.
    FlatListing,
    /// Wants the mode of a candidate that lies in the root.
    FlatStat,
    /// Wants a connection to a candidate that lies in the root.
    FlatConnect,
    /// Holds a connection to a candidate that lies in the root.
    FlatFound,
    /// Wants the entries of the root, to find its session directories.
    SharedListing,
    /// Wants the owner of a session directory.
    DirOwner,
    /// Wants the entries of a session directory.
    DirListing,
    /// Wants the mode of a candidate that lies in a session directory.
    DirStat,
    /// Wants a connection to a candidate that lies in a session directory.
    DirConnect,
    /// Holds a connection to a candidate that lies in a session directory.
    DirFound,
    /// Went through every root and found no agent.
    Empty,
}

/// What is to be done for the resolver to go on.
#[derive(Clone, Copy, Debug, PartialEq, Eq, Structural)]
pub enum Ask {
    /// List a directory.
    List,
    /// Find out who owns a session directory.
    Owner,
    /// Call `stat` on a candidate.
    Stat,
    /// Connect to a candidate.
    Connect,
    /// Nothing: the resolution has ended, with a connection or without.
    Nothing,
}

/// An entry of a directory: the bytes of its name, and whether it is a
/// directory itself.
pub struct Listed {
    pub name: Seq<u8>,
    pub is_dir: bool,
}

/// An answer to what the resolver asked for.
pub enum Reply {
    /// The entries of the directory, or `None` where it cannot be read.
    Listing(Option<Seq<Listed>>),
    /// The user that owns the directory.
    Owner(Result<u32, StatError>),
    /// The file mode of the candidate.
    Mode(Result<u32, StatError>),
    /// The end of the connection attempt.
    Connected(Result<(), i32>),
}

/// The names of `entries`, in the same positions.
pub open spec fn names_of(entries: Seq<Listed>) -> Seq<Seq<u8>> {
    entries.map_values(|e: Listed| e.name)
}

/// The names of those of `entries` that are directories.
pub open spec fn dir_names_of(entries: Seq<Listed>) -> Seq<Seq<u8>> {
    names_of(entries.filter(|e: Listed| e.is_dir))
}

/// The directory belongs to the user `uid`: `stat` gave its owner, and the
/// owner is that user.
pub open spec fn owned_by(owner: Result<u32, StatError>, uid: u32) -> bool {
    owner == Ok::<u32, StatError>(uid)
}

/// The first position at or after `from` at which `names` holds the name of a
/// socket, or the length of `names` where there is none.
pub open spec fn next_candidate(names: Seq<Seq<u8>>, from: int) -> int
    decreases names.len() - from,
{
    if from < 0 || from >= names.len() {
        names.len() as int
    } else if socket_name(names[from]) {
        from
    } else {
        next_candidate(names, from + 1)
    }
}

/// The first position at or after `from` at which `dirs` holds the name of a
/// session directory, or the length of `dirs` where there is none.
pub open spec fn next_session(dirs: Seq<Seq<u8>>, from: int) -> int
    decreases dirs.len() - from,
{
    if from < 0 || from >= dirs.len() {
        dirs.len() as int
    } else if session_dir_name(dirs[from]) {
        from
    } else {
        next_session(dirs, from + 1)
    }
}

/// The state of a resolution.
pub struct Plan {
    /// For each root, in the order given, whether it lies under the home
    /// directory and so is tried by the flat convention first.
    pub flat: Seq<bool>,
    /// The user for whom the agent is sought.
    pub uid: u32,
    /// The root at hand.
    pub root: int,
    /// What is being done there.
    pub phase: Phase,
    /// The directories of the root at hand, in ascending order.
    pub dirs: Seq<Seq<u8>>,
    /// The directory at hand.
    pub dir: int,
    /// The entries of the directory that is being scanned, in ascending order.
    pub names: Seq<Seq<u8>>,
    /// The candidate at hand.
    pub name: int,
}

impl Plan {
    /// The state from which a resolution starts.
    pub open spec fn start(flat: Seq<bool>, uid: u32) -> Plan {
        Plan {
            flat,
            uid,
            root: 0,
            phase: Phase::Empty,
            dirs: Seq::empty(),
            dir: 0,
            names: Seq::empty(),
            name: 0,
        }.at_root(0)
    }

    /// The state is one that a resolution can be in.
    pub open spec fn wf(self) -> bool {
        &&& 0 <= self.root <= self.flat.len()
        &&& self.phase != Phase::Empty <==> self.root < self.flat.len()
        &&& self.in_root() ==> self.flat[self.root]
        &&& self.has_candidate() ==> 0 <= self.name < self.names.len() && socket_name(
            self.names[self.name],
        )
        &&& self.in_session() ==> 0 <= self.dir < self.dirs.len() && session_dir_name(
            self.dirs[self.dir],
        )
    }

    /// The resolver is scanning the root itself.
    pub open spec fn in_root(self) -> bool {
        self.phase == Phase::FlatListing || self.phase == Phase::FlatStat || self.phase
            == Phase::FlatConnect || self.phase == Phase::FlatFound
    }

    /// The resolver is at a session directory of the root.
    pub open spec fn in_session(self) -> bool {
        self.phase == Phase::DirOwner || self.beneath_session()
    }

    /// The resolver is at what lies in a session directory.
    pub open spec fn beneath_session(self) -> bool {
        self.phase == Phase::DirListing || self.phase == Phase::DirStat || self.phase
            == Phase::DirConnect || self.phase == Phase::DirFound
    }

    /// The resolver is at a candidate.
    pub open spec fn has_candidate(self) -> bool {
        self.phase == Phase::FlatStat || self.phase == Phase::FlatConnect || self.phase
            == Phase::FlatFound || self.phase == Phase::DirStat || self.phase == Phase::DirConnect
            || self.phase == Phase::DirFound
    }

    /// The resolution has ended with a connection.
    pub open spec fn found(self) -> bool {
        self.phase == Phase::FlatFound || self.phase == Phase::DirFound
    }

    /// The resolution has ended.
    pub open spec fn done(self) -> bool {
        self.found() || self.phase == Phase::Empty
    }

    /// What the state asks for.
    pub open spec fn pending(self) -> Ask {
        match self.phase {
            Phase::FlatListing | Phase::SharedListing | Phase::DirListing => Ask::List,
            Phase::DirOwner => Ask::Owner,
            Phase::FlatStat | Phase::DirStat => Ask::Stat,
            Phase::FlatConnect | Phase::DirConnect => Ask::Connect,
            Phase::FlatFound | Phase::DirFound | Phase::Empty => Ask::Nothing,
        }
    }

    /// `reply` answers what the state asks for.
    pub open spec fn expects(self, reply: Reply) -> bool {
        match self.pending() {
            Ask::List => reply is Listing,
            Ask::Owner => reply is Owner,
            Ask::Stat => reply is Mode,
            Ask::Connect => reply is Connected,
            Ask::Nothing => false,
        }
    }

    /// Turns to the root `root`, or ends where there is none.
    pub open spec fn at_root(self, root: int) -> Plan {
        if 0 <= root < self.flat.len() {
            Plan {
                root,
                phase: if self.flat[root] {
                    Phase::FlatListing
                } else {
                    Phase::SharedListing
                },
                ..self
            }
        } else {
            Plan { root, phase: Phase::Empty, ..self }
        }
    }

    /// Turns to the first session directory at or after `from`, or to the
    /// next root where there is none.
    pub open spec fn session_from(self, from: int) -> Plan {
        let dir = next_session(self.dirs, from);
        if dir < self.dirs.len() {
            Plan { dir, phase: Phase::DirOwner, ..self }
        } else {
            Plan { dir, ..self }.at_root(self.root + 1)
        }
    }

    /// Turns to the first candidate at or after `from`. Where there is none,
    /// a root is next scanned for session directories, and a session
    /// directory gives way to the one after it.
    pub open spec fn candidate_from(self, flat: bool, from: int) -> Plan {
        let name = next_candidate(self.names, from);
        if name < self.names.len() {
            Plan {
                name,
                phase: if flat {
                    Phase::FlatStat
                } else {
                    Phase::DirStat
                },
                ..self
            }
        } else if flat {
            Plan { name, phase: Phase::SharedListing, ..self }
        } else {
            Plan { name, ..self }.session_from(self.dir + 1)
        }
    }

    /// The state after `reply`. A reply that does not answer what the state
    /// asks for leaves it as it is.
    pub open spec fn step(self, reply: Reply) -> Plan {
        match (self.phase, reply) {
            (Phase::FlatListing, Reply::Listing(None)) => Plan {
                phase: Phase::SharedListing,
                ..self
            },
            (Phase::FlatListing, Reply::Listing(Some(entries))) => Plan {
                names: arranged(names_of(entries)),
                ..self
            }.candidate_from(true, 0),
            (Phase::FlatStat, Reply::Mode(Ok(mode))) => if socket_mode(mode) {
                Plan { phase: Phase::FlatConnect, ..self }
            } else {
                self.candidate_from(true, self.name + 1)
            },
            (Phase::FlatStat, Reply::Mode(Err(_))) => self.candidate_from(true, self.name + 1),
            (Phase::FlatConnect, Reply::Connected(Ok(_))) => Plan {
                phase: Phase::FlatFound,
                ..self
            },
            (Phase::FlatConnect, Reply::Connected(Err(_))) => self.candidate_from(
                true,
                self.name + 1,
            ),
            (Phase::SharedListing, Reply::Listing(None)) => self.at_root(self.root + 1),
            (Phase::SharedListing, Reply::Listing(Some(entries))) => Plan {
                dirs: arranged(dir_names_of(entries)),
                ..self
            }.session_from(0),
            (Phase::DirOwner, Reply::Owner(owner)) => if owned_by(owner, self.uid) {
                Plan { phase: Phase::DirListing, ..self }
            } else {
                self.session_from(self.dir + 1)
            },
            (Phase::DirListing, Reply::Listing(None)) => self.session_from(self.dir + 1),
            (Phase::DirListing, Reply::Listing(Some(entries))) => Plan {
                names: arranged(names_of(entries)),
                ..self
            }.candidate_from(false, 0),
            (Phase::DirStat, Reply::Mode(Ok(mode))) => if socket_mode(mode) {
                Plan { phase: Phase::DirConnect, ..self }
            } else {
                self.candidate_from(false, self.name + 1)
            },
            (Phase::DirStat, Reply::Mode(Err(_))) => self.candidate_from(false, self.name + 1),
            (Phase::DirConnect, Reply::Connected(Ok(_))) => Plan {
                phase: Phase::DirFound,
                ..self
            },
            (Phase::DirConnect, Reply::Connected(Err(_))) => self.candidate_from(
                false,
                self.name + 1,
            ),
            _ => self,
        }
    }
}

/// The position that `next_candidate` gives is at or after `from`, holds the
/// name of a socket if it is a position of `names`, and no position between
/// holds one.
pub proof fn lemma_next_candidate(names: Seq<Seq<u8>>, from: int)
    requires
        0 <= from,
    ensures
        from <= next_candidate(names, from) || next_candidate(names, from) == names.len(),
        next_candidate(names, from) <= names.len(),
        next_candidate(names, from) < names.len() ==> socket_name(
            names[next_candidate(names, from)],
        ),
        forall|k: int| from <= k < next_candidate(names, from) ==> !socket_name(#[trigger] names[k]),
    decreases names.len() - from,
{
    if from < names.len() && !socket_name(names[from]) {
        lemma_next_candidate(names, from + 1);
    }
}

/// The position that `next_session` gives is at or after `from`, holds the
/// name of a session directory if it is a position of `dirs`, and no position
/// between holds one.
pub proof fn lemma_next_session(dirs: Seq<Seq<u8>>, from: int)
    requires
        0 <= from,
    ensures
        from <= next_session(dirs, from) || next_session(dirs, from) == dirs.len(),
        next_session(dirs, from) <= dirs.len(),
        next_session(dirs, from) < dirs.len() ==> session_dir_name(
            dirs[next_session(dirs, from)],
        ),
        forall|k: int| from <= k < next_session(dirs, from) ==> !session_dir_name(#[trigger] dirs[k]),
    decreases dirs.len() - from,
{
    if from < dirs.len() && !session_dir_name(dirs[from]) {
        lemma_next_session(dirs, from + 1);
    }
}

/// A step from a state that a resolution can be in leads to another such.
pub proof fn lemma_step_keeps_wf(plan: Plan, reply: Reply)
    requires
        plan.wf(),
    ensures
        plan.step(reply).wf(),
        plan.step(reply).flat == plan.flat,
        plan.step(reply).uid == plan.uid,
{
    let next = plan.step(reply);
    if plan.has_candidate() {
        lemma_next_candidate(plan.names, plan.name + 1);
    }
    if plan.in_session() {
        lemma_next_session(plan.dirs, plan.dir + 1);
    }
    match reply {
        Reply::Listing(Some(entries)) => {
            lemma_next_candidate(arranged(names_of(entries)), 0);
            lemma_next_session(arranged(dir_names_of(entries)), 0);
        },
        _ => {},
    }
}

} // verus!

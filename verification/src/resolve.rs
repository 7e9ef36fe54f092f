//! The resolver: it goes through the roots in the order given, and in each
//! through what the root holds in ascending order of names, until a candidate
//! takes a connection. It touches nothing itself. It says what it needs to
//! know next, and moves on when it is told.

use crate::names::is_session_dir_name;
use crate::order::{bytes_of, sort_names};
use crate::plan::{
    dir_names_of, lemma_step_keeps_wf, names_of, next_candidate, next_session, owned_by, Ask,
    Listed, Phase, Plan, Reply,
};
use crate::probe::{after_connect, after_stat, begin, StatError, Step};
use vstd::prelude::*;
use vstd::string::StringSliceAdditionalSpecFns;
use vstd::utf8::encode_utf8;

verus! {

/// A directory under which agent sockets may appear.
#[derive(Clone, Debug, PartialEq, Eq)]
pub struct Root {
    /// The path of the directory.
    pub path: String,
    /// Whether the directory lies under the home directory of the user, where
    /// sockets stand directly in it.
    pub under_home: bool,
}

/// An entry of a directory.
#[derive(Clone, Debug, PartialEq, Eq)]
pub struct Entry {
    /// The name of the entry, without the directory.
    pub name: String,
    /// Whether the entry is a directory itself.
    pub is_dir: bool,
}

impl View for Entry {
    type V = Listed;

    open spec fn view(&self) -> Listed {
        Listed { name: encode_utf8(self.name@), is_dir: self.is_dir }
    }
}

/// The entries `entries` as the plan sees them.
pub open spec fn listed(entries: Seq<Entry>) -> Seq<Listed> {
    Seq::new(entries.len(), |i: int| entries[i]@)
}

/// For each of `roots`, whether it lies under the home directory.
pub open spec fn flat_flags(roots: Seq<Root>) -> Seq<bool> {
    Seq::new(roots.len(), |i: int| roots[i].under_home)
}

/// Whether the path `path` lies under the path `base`: `base` is `path` or a
/// directory above it, both read component by component.
pub uninterp spec fn path_under(path: Seq<char>, base: Seq<char>) -> bool;

/// `std::path::Path::starts_with`: whether `base` is a prefix of `path`, whole
/// components only.
#[verifier::external_body]
fn lies_under(path: &str, base: &str) -> (under: bool)
    ensures
        under == path_under(path@, base@),
{
    std::path::Path::new(path).starts_with(base)
}

/// Makes roots of the directories `dirs`, in their order: one lies under the
/// home directory if there is a home directory and the path of the root lies
/// under it.
pub fn plan_roots(dirs: Vec<String>, home: Option<&str>) -> (roots: Vec<Root>)
    ensures
        roots@.len() == dirs@.len(),
        forall|i: int|
            0 <= i < dirs@.len() ==> (#[trigger] roots@[i]).path@ == dirs@[i]@ && (
            roots@[i].under_home <==> (home matches Some(base) && path_under(dirs@[i]@, base@))),
{
    let mut roots: Vec<Root> = Vec::new();
    let mut i: usize = 0;
    while i < dirs.len()
        invariant
            i <= dirs.len(),
            roots@.len() == i,
            forall|k: int|
                0 <= k < i ==> (#[trigger] roots@[k]).path@ == dirs@[k]@ && (roots@[k].under_home
                    <==> (home matches Some(base) && path_under(dirs@[k]@, base@))),
        decreases dirs.len() - i,
    {
        let under_home = match home {
            Some(base) => lies_under(dirs[i].as_str(), base),
            None => false,
        };
        roots.push(Root { path: dirs[i].clone(), under_home });
        i += 1;
    }
    roots
}

/// An answer to what the resolver asked for.
#[derive(Debug, PartialEq, Eq)]
pub enum Answer {
    /// The entries of the directory, or `None` where it cannot be read.
    Listing(Option<Vec<Entry>>),
    /// The user that owns the directory, or why `stat` gave nothing.
    Owner(Result<u32, StatError>),
    /// The file mode of the candidate, or why `stat` gave nothing.
    Mode(Result<u32, StatError>),
    /// The end of the connection attempt: done, or the error number.
    Connected(Result<(), i32>),
}

impl View for Answer {
    type V = Reply;

    open spec fn view(&self) -> Reply {
        match *self {
            Answer::Listing(None) => Reply::Listing(None),
            Answer::Listing(Some(entries)) => Reply::Listing(Some(listed(entries@))),
            Answer::Owner(owner) => Reply::Owner(owner),
            Answer::Mode(mode) => Reply::Mode(mode),
            Answer::Connected(end) => Reply::Connected(end),
        }
    }
}

/// Tells whether a directory of which `stat` gave the owner `owner`, or
/// nothing, belongs to the user `uid`.
pub fn owner_matches(owner: Result<u32, StatError>, uid: u32) -> (yes: bool)
    ensures
        yes == owned_by(owner, uid),
{
    match owner {
        Ok(owner) => owner == uid,
        Err(_) => false,
    }
}

/// The names of `entries`, in the same positions.
pub fn entry_names(entries: &Vec<Entry>) -> (names: Vec<String>)
    ensures
        bytes_of(names@) == names_of(listed(entries@)),
{
    let mut names: Vec<String> = Vec::new();
    let mut i: usize = 0;
    while i < entries.len()
        invariant
            i <= entries.len(),
            names@.len() == i,
            forall|k: int| 0 <= k < i ==> (#[trigger] names@[k])@ == entries@[k].name@,
        decreases entries.len() - i,
    {
        names.push(entries[i].name.clone());
        i += 1;
    }
    assert(bytes_of(names@) =~= names_of(listed(entries@)));
    names
}

/// The names of those of `entries` that are directories, in the order in
/// which they stand.
pub fn dir_names(entries: &Vec<Entry>) -> (names: Vec<String>)
    ensures
        bytes_of(names@) == dir_names_of(listed(entries@)),
{
    let ghost is_dir = |e: Listed| e.is_dir;
    let mut names: Vec<String> = Vec::new();
    let mut i: usize = 0;
    assert(listed(entries@).take(0).filter(is_dir) =~= Seq::<Listed>::empty());
    while i < entries.len()
        invariant
            i <= entries.len(),
            is_dir == |e: Listed| e.is_dir,
            bytes_of(names@) == names_of(listed(entries@).take(i as int).filter(is_dir)),
        decreases entries.len() - i,
    {
        let ghost before = listed(entries@).take(i as int);
        let ghost kept = before.filter(is_dir);
        let ghost entry = entries@[i as int]@;
        let ghost names_before = names@;
        proof {
            assert(listed(entries@).take(i + 1) =~= before.push(entry));
            before.lemma_filter_push(entry, is_dir);
        }
        if entries[i].is_dir {
            names.push(entries[i].name.clone());
            proof {
                assert(bytes_of(names@) =~= bytes_of(names_before).push(entry.name));
                assert(names_of(kept.push(entry)) =~= names_of(kept).push(entry.name));
            }
        }
        i += 1;
    }
    assert(listed(entries@).take(i as int) =~= listed(entries@));
    names
}

/// A resolution in progress.
pub struct Resolver {
    roots: Vec<Root>,
    uid: u32,
    root: usize,
    phase: Phase,
    dirs: Vec<String>,
    dir: usize,
    names: Vec<String>,
    name: usize,
}

impl View for Resolver {
    type V = Plan;

    closed spec fn view(&self) -> Plan {
        Plan {
            flat: flat_flags(self.roots@),
            uid: self.uid,
            root: self.root as int,
            phase: self.phase,
            dirs: bytes_of(self.dirs@),
            dir: self.dir as int,
            names: bytes_of(self.names@),
            name: self.name as int,
        }
    }
}

impl Resolver {
    /// The roots that the resolver goes through.
    pub closed spec fn roots(&self) -> Seq<Root> {
        self.roots@
    }

    /// The resolver is in a state that a resolution can be in.
    pub closed spec fn wf(&self) -> bool {
        &&& self@.wf()
        &&& self@.has_candidate() ==> self.name < self.names.len()
        &&& self@.in_session() ==> self.dir < self.dirs.len()
        &&& self.root <= self.roots.len()
    }

    /// A well-formed resolver stands for a well-formed plan over its roots.
    pub proof fn lemma_wf(&self)
        requires
            self.wf(),
        ensures
            self@.wf(),
            self@.flat == flat_flags(self.roots()),
    {
    }

    /// Starts a resolution over `roots`, for the user `uid`.
    pub fn new(roots: Vec<Root>, uid: u32) -> (resolver: Resolver)
        ensures
            resolver.wf(),
            resolver.roots() == roots@,
            resolver@ == Plan::start(flat_flags(roots@), uid),
    {
        let mut resolver = Resolver {
            roots,
            uid,
            root: 0,
            phase: Phase::Empty,
            dirs: Vec::new(),
            dir: 0,
            names: Vec::new(),
            name: 0,
        };
        assert(bytes_of(resolver.dirs@) =~= Seq::<Seq<u8>>::empty());
        assert(bytes_of(resolver.names@) =~= Seq::<Seq<u8>>::empty());
        resolver.at_root(0);
        resolver
    }

    fn at_root(&mut self, root: usize)
        requires
            root <= old(self).roots.len(),
        ensures
            final(self)@ == old(self)@.at_root(root as int),
            final(self).roots == old(self).roots,
    {
        self.root = root;
        if root < self.roots.len() {
            if self.roots[root].under_home {
                self.phase = Phase::FlatListing;
            } else {
                self.phase = Phase::SharedListing;
            }
        } else {
            self.phase = Phase::Empty;
        }
    }

    fn after_root(&mut self)
        requires
            old(self).root < old(self).roots.len(),
        ensures
            final(self)@ == old(self)@.at_root(old(self)@.root + 1),
            final(self).roots == old(self).roots,
    {
        let next: usize = self.root + 1;
        self.at_root(next);
    }

    fn session_from(&mut self, from: usize)
        requires
            from <= old(self).dirs.len(),
            old(self).root < old(self).roots.len(),
        ensures
            final(self)@ == old(self)@.session_from(from as int),
            final(self).roots == old(self).roots,
    {
        let mut dir: usize = from;
        while dir < self.dirs.len() && !is_session_dir_name(self.dirs[dir].as_str())
            invariant
                *self == *old(self),
                from <= dir <= self.dirs.len(),
                next_session(bytes_of(self.dirs@), from as int) == next_session(
                    bytes_of(self.dirs@),
                    dir as int,
                ),
            decreases self.dirs.len() - dir,
        {
            dir += 1;
        }
        self.dir = dir;
        if dir < self.dirs.len() {
            self.phase = Phase::DirOwner;
        } else {
            self.after_root();
        }
    }

    fn after_session(&mut self)
        requires
            old(self).dir < old(self).dirs.len(),
            old(self).root < old(self).roots.len(),
        ensures
            final(self)@ == old(self)@.session_from(old(self)@.dir + 1),
            final(self).roots == old(self).roots,
    {
        let next: usize = self.dir + 1;
        self.session_from(next);
    }

    fn candidate_from(&mut self, flat: bool, from: usize)
        requires
            from <= old(self).names.len(),
            old(self).root < old(self).roots.len(),
            !flat ==> old(self).dir < old(self).dirs.len(),
        ensures
            final(self)@ == old(self)@.candidate_from(flat, from as int),
            final(self).roots == old(self).roots,
    {
        let mut name: usize = from;
        while name < self.names.len() && begin(self.names[name].as_str()) != Step::Stat
            invariant
                *self == *old(self),
                from <= name <= self.names.len(),
                next_candidate(bytes_of(self.names@), from as int) == next_candidate(
                    bytes_of(self.names@),
                    name as int,
                ),
            decreases self.names.len() - name,
        {
            name += 1;
        }
        self.name = name;
        if name < self.names.len() {
            if flat {
                self.phase = Phase::FlatStat;
            } else {
                self.phase = Phase::DirStat;
            }
        } else if flat {
            self.phase = Phase::SharedListing;
        } else {
            self.after_session();
        }
    }

    fn after_candidate(&mut self, flat: bool)
        requires
            old(self).name < old(self).names.len(),
            old(self).root < old(self).roots.len(),
            !flat ==> old(self).dir < old(self).dirs.len(),
        ensures
            final(self)@ == old(self)@.candidate_from(flat, old(self)@.name + 1),
            final(self).roots == old(self).roots,
    {
        let next: usize = self.name + 1;
        self.candidate_from(flat, next);
    }

    /// What the resolver needs next.
    pub fn pending(&self) -> (ask: Ask)
        ensures
            ask == self@.pending(),
    {
        match self.phase {
            Phase::FlatListing | Phase::SharedListing | Phase::DirListing => Ask::List,
            Phase::DirOwner => Ask::Owner,
            Phase::FlatStat | Phase::DirStat => Ask::Stat,
            Phase::FlatConnect | Phase::DirConnect => Ask::Connect,
            Phase::FlatFound | Phase::DirFound | Phase::Empty => Ask::Nothing,
        }
    }

    /// Tells whether `answer` answers what the resolver needs next.
    pub fn accepts(&self, answer: &Answer) -> (yes: bool)
        ensures
            yes == self@.expects(answer@),
    {
        match self.pending() {
            Ask::List => match answer {
                Answer::Listing(_) => true,
                _ => false,
            },
            Ask::Owner => match answer {
                Answer::Owner(_) => true,
                _ => false,
            },
            Ask::Stat => match answer {
                Answer::Mode(_) => true,
                _ => false,
            },
            Ask::Connect => match answer {
                Answer::Connected(_) => true,
                _ => false,
            },
            Ask::Nothing => false,
        }
    }

    /// Tells whether the resolution has ended with a connection.
    pub fn found(&self) -> (yes: bool)
        ensures
            yes == self@.found(),
    {
        self.phase == Phase::FlatFound || self.phase == Phase::DirFound
    }

    /// Tells whether the resolution has ended, with a connection or without.
    pub fn done(&self) -> (yes: bool)
        ensures
            yes == self@.done(),
    {
        self.found() || self.phase == Phase::Empty
    }

    /// The root at hand: its position among the roots, and its path. `None`
    /// once every root has been gone through.
    pub fn root(&self) -> (at: Option<(usize, &str)>)
        requires
            self.wf(),
        ensures
            match at {
                Some((index, path)) => index == self@.root && index < self.roots().len()
                    && path@ == self.roots()[index as int].path@,
                None => self@.phase == Phase::Empty,
            },
    {
        if self.root < self.roots.len() {
            Some((self.root, self.roots[self.root].path.as_str()))
        } else {
            None
        }
    }

    /// The session directory at hand, by its name within the root. `None`
    /// while the resolver is not at a session directory.
    pub fn session_dir(&self) -> (dir: Option<&str>)
        requires
            self.wf(),
        ensures
            match dir {
                Some(name) => self@.in_session() && name.spec_bytes() == self@.dirs[self@.dir],
                None => !self@.in_session(),
            },
    {
        match self.phase {
            Phase::DirOwner | Phase::DirListing | Phase::DirStat | Phase::DirConnect
            | Phase::DirFound => Some(self.dirs[self.dir].as_str()),
            _ => None,
        }
    }

    /// The candidate at hand, by its name within the directory that is being
    /// scanned. `None` while the resolver is not at a candidate.
    pub fn candidate(&self) -> (candidate: Option<&str>)
        requires
            self.wf(),
        ensures
            match candidate {
                Some(name) => self@.has_candidate() && name.spec_bytes() == self@.names[self@.name],
                None => !self@.has_candidate(),
            },
    {
        match self.phase {
            Phase::FlatStat | Phase::FlatConnect | Phase::FlatFound | Phase::DirStat
            | Phase::DirConnect | Phase::DirFound => Some(self.names[self.name].as_str()),
            _ => None,
        }
    }

    /// Moves on with `answer`. An answer to something that the resolver did
    /// not ask for changes nothing.
    pub fn advance(&mut self, answer: Answer)
        requires
            old(self).wf(),
        ensures
            final(self).wf(),
            final(self).roots() == old(self).roots(),
            final(self)@ == old(self)@.step(answer@),
    {
        proof {
            lemma_step_keeps_wf(self@, answer@);
        }
        match self.phase {
            Phase::FlatListing => match answer {
                Answer::Listing(None) => {
                    self.phase = Phase::SharedListing;
                },
                Answer::Listing(Some(entries)) => {
                    self.names = sort_names(entry_names(&entries));
                    self.candidate_from(true, 0);
                },
                _ => {},
            },
            Phase::FlatStat => match answer {
                Answer::Mode(stat) => {
                    if after_stat(stat) == Step::Connect {
                        self.phase = Phase::FlatConnect;
                    } else {
                        self.after_candidate(true);
                    }
                },
                _ => {},
            },
            Phase::FlatConnect => match answer {
                Answer::Connected(end) => {
                    if after_connect(end) == Step::Accept {
                        self.phase = Phase::FlatFound;
                    } else {
                        self.after_candidate(true);
                    }
                },
                _ => {},
            },
            Phase::SharedListing => match answer {
                Answer::Listing(None) => {
                    self.after_root();
                },
                Answer::Listing(Some(entries)) => {
                    self.dirs = sort_names(dir_names(&entries));
                    self.session_from(0);
                },
                _ => {},
            },
            Phase::DirOwner => match answer {
                Answer::Owner(owner) => {
                    if owner_matches(owner, self.uid) {
                        self.phase = Phase::DirListing;
                    } else {
                        self.after_session();
                    }
                },
                _ => {},
            },
            Phase::DirListing => match answer {
                Answer::Listing(None) => {
                    self.after_session();
                },
                Answer::Listing(Some(entries)) => {
                    self.names = sort_names(entry_names(&entries));
                    self.candidate_from(false, 0);
                },
                _ => {},
            },
            Phase::DirStat => match answer {
                Answer::Mode(stat) => {
                    if after_stat(stat) == Step::Connect {
                        self.phase = Phase::DirConnect;
                    } else {
                        self.after_candidate(false);
                    }
                },
                _ => {},
            },
            Phase::DirConnect => match answer {
                Answer::Connected(end) => {
                    if after_connect(end) == Step::Accept {
                        self.phase = Phase::DirFound;
                    } else {
                        self.after_candidate(false);
                    }
                },
                _ => {},
            },
            _ => {},
        }
    }
}

} // verus!

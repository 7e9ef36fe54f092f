use ssh_agent_switcher::plan::Ask;
use ssh_agent_switcher::probe::StatError;
use ssh_agent_switcher::resolve::{
    dir_names, entry_names, owner_matches, plan_roots, Answer, Entry, Resolver, Root,
};
use std::collections::BTreeMap;

const SOCKET: u32 = 0o140600;
const FILE: u32 = 0o100644;
const DIR: u32 = 0o040700;
const ME: u32 = 1000;
const OTHER: u32 = 1001;

/// A file system in memory: what each directory lists, in the order in which
/// it lists it, and what is known of each path.
struct Disk {
    listings: BTreeMap<String, Vec<String>>,
    modes: BTreeMap<String, u32>,
    owners: BTreeMap<String, u32>,
    live: Vec<String>,
}

impl Disk {
    fn new() -> Disk {
        Disk {
            listings: BTreeMap::new(),
            modes: BTreeMap::new(),
            owners: BTreeMap::new(),
            live: Vec::new(),
        }
    }

    fn add(&mut self, path: &str, mode: u32, owner: u32) {
        if let Some(cut) = path.rfind('/') {
            let parent = &path[..cut];
            if let Some(entries) = self.listings.get_mut(parent) {
                entries.push(path[cut + 1..].to_string());
            }
        }
        self.modes.insert(path.to_string(), mode);
        self.owners.insert(path.to_string(), owner);
    }

    fn dir(&mut self, path: &str, owner: u32) {
        self.add(path, DIR, owner);
        self.listings.insert(path.to_string(), Vec::new());
    }

    fn file(&mut self, path: &str) {
        self.add(path, FILE, ME);
    }

    fn dead_socket(&mut self, path: &str) {
        self.add(path, SOCKET, ME);
    }

    fn socket(&mut self, path: &str) {
        self.add(path, SOCKET, ME);
        self.live.push(path.to_string());
    }

    fn remove(&mut self, path: &str) {
        let cut = path.rfind('/').unwrap();
        if let Some(entries) = self.listings.get_mut(&path[..cut]) {
            entries.retain(|name| name != &path[cut + 1..]);
        }
        self.modes.remove(path);
        self.owners.remove(path);
        self.live.retain(|live| live != path);
    }

    fn reverse(&mut self) {
        for entries in self.listings.values_mut() {
            entries.reverse();
        }
    }

    fn list(&self, path: &str) -> Option<Vec<Entry>> {
        let names = self.listings.get(path)?;
        Some(
            names
                .iter()
                .map(|name| Entry {
                    name: name.clone(),
                    is_dir: self.listings.contains_key(&format!("{}/{}", path, name)),
                })
                .collect(),
        )
    }
}

/// What a resolution came to, and everything that it asked for on the way.
struct Run {
    chosen: Option<String>,
    asked: Vec<String>,
}

impl Run {
    fn asked_for(&self, what: &str) -> bool {
        self.asked.iter().any(|asked| asked == what)
    }

    fn touched_beneath(&self, dir: &str) -> bool {
        let inside = format!("{}/", dir);
        self.asked.iter().any(|asked| {
            asked.split_once(' ').map(|(_, path)| path == dir && asked.starts_with("list ")
                || path.starts_with(&inside)).unwrap_or(false)
        })
    }
}

fn path_at(resolver: &Resolver) -> String {
    let mut path = resolver.root().map(|(_, root)| root.to_string()).unwrap_or_default();
    if let Some(dir) = resolver.session_dir() {
        path = format!("{}/{}", path, dir);
    }
    if let Some(name) = resolver.candidate() {
        path = format!("{}/{}", path, name);
    }
    path
}

fn resolve(disk: &Disk, roots: Vec<Root>, uid: u32) -> Run {
    let mut resolver = Resolver::new(roots, uid);
    let mut asked = Vec::new();
    loop {
        let path = path_at(&resolver);
        let answer = match resolver.pending() {
            Ask::List => {
                asked.push(format!("list {}", path));
                Answer::Listing(disk.list(&path))
            }
            Ask::Owner => {
                asked.push(format!("owner {}", path));
                Answer::Owner(disk.owners.get(&path).copied().ok_or(StatError::Vanished))
            }
            Ask::Stat => {
                asked.push(format!("stat {}", path));
                Answer::Mode(disk.modes.get(&path).copied().ok_or(StatError::Vanished))
            }
            Ask::Connect => {
                asked.push(format!("connect {}", path));
                Answer::Connected(if disk.live.contains(&path) { Ok(()) } else { Err(111) })
            }
            Ask::Nothing => {
                assert!(resolver.done());
                let chosen = if resolver.found() { Some(path) } else { None };
                return Run { chosen, asked };
            }
        };
        assert!(resolver.accepts(&answer));
        resolver.advance(answer);
    }
}

fn shared(path: &str) -> Root {
    Root { path: path.to_string(), under_home: false }
}

fn home(path: &str) -> Root {
    Root { path: path.to_string(), under_home: true }
}

fn two_backends() -> Disk {
    let mut disk = Disk::new();
    disk.dir("/tmp", 0);
    disk.dir("/tmp/ssh-echo", ME);
    disk.socket("/tmp/ssh-echo/agent.echo");
    disk.dir("/tmp/ssh-always-a", ME);
    disk.socket("/tmp/ssh-always-a/agent.always-a");
    disk
}

#[test]
fn the_first_session_directory_by_name_is_chosen() {
    let run = resolve(&two_backends(), vec![shared("/tmp")], ME);
    assert_eq!(run.chosen.as_deref(), Some("/tmp/ssh-always-a/agent.always-a"));
    assert!(!run.touched_beneath("/tmp/ssh-echo"));
}

#[test]
fn the_next_session_directory_is_chosen_once_the_first_has_lost_its_socket() {
    let mut disk = two_backends();
    let first = resolve(&disk, vec![shared("/tmp")], ME);
    assert_eq!(first.chosen.as_deref(), Some("/tmp/ssh-always-a/agent.always-a"));
    disk.remove("/tmp/ssh-always-a/agent.always-a");
    let second = resolve(&disk, vec![shared("/tmp")], ME);
    assert_eq!(second.chosen.as_deref(), Some("/tmp/ssh-echo/agent.echo"));
    assert!(second.asked_for("list /tmp/ssh-always-a"));
}

#[test]
fn nothing_is_chosen_where_no_candidate_is_valid() {
    let mut disk = Disk::new();
    disk.dir("/tmp", 0);
    disk.dir("/tmp/ssh-empty", ME);
    disk.dir("/tmp/ssh-dead", ME);
    disk.dead_socket("/tmp/ssh-dead/agent.1");
    disk.dir("/home/me/.ssh/agent", ME);
    disk.file("/home/me/.ssh/agent/agent.file");
    let run = resolve(&disk, vec![home("/home/me/.ssh/agent"), shared("/tmp")], ME);
    assert_eq!(run.chosen, None);
    assert!(run.asked_for("connect /tmp/ssh-dead/agent.1"));
    assert!(run.asked_for("stat /home/me/.ssh/agent/agent.file"));
    assert!(!run.asked_for("connect /home/me/.ssh/agent/agent.file"));
}

#[test]
fn nothing_is_chosen_where_there_are_no_roots() {
    let run = resolve(&Disk::new(), Vec::new(), ME);
    assert_eq!(run.chosen, None);
    assert!(run.asked.is_empty());
}

#[test]
fn a_root_that_cannot_be_read_is_passed_over() {
    let mut disk = two_backends();
    disk.dir("/run", 0);
    let run = resolve(&disk, vec![shared("/missing"), home("/missing-too"), shared("/tmp")], ME);
    assert_eq!(run.chosen.as_deref(), Some("/tmp/ssh-always-a/agent.always-a"));
    assert_eq!(
        run.asked[..4],
        [
            "list /missing".to_string(),
            "list /missing-too".to_string(),
            "list /missing-too".to_string(),
            "list /tmp".to_string()
        ]
    );
}

#[test]
fn the_first_valid_candidate_by_name_is_chosen_whatever_the_listing_order() {
    let names = ["agent.3", "agent.1", "s.h.sshd.9", "agent.2", "agent.10"];
    let orders: [[usize; 5]; 4] = [[0, 1, 2, 3, 4], [4, 3, 2, 1, 0], [2, 0, 4, 1, 3], [1, 4, 3, 0, 2]];
    for order in orders {
        let mut disk = Disk::new();
        disk.dir("/home/me/agents", ME);
        for at in order {
            let path = format!("/home/me/agents/{}", names[at]);
            if names[at] == "agent.1" || names[at] == "agent.10" {
                disk.dead_socket(&path);
            } else {
                disk.socket(&path);
            }
        }
        let run = resolve(&disk, vec![home("/home/me/agents")], ME);
        assert_eq!(run.chosen.as_deref(), Some("/home/me/agents/agent.2"));
        assert_eq!(
            run.asked,
            [
                "list /home/me/agents",
                "stat /home/me/agents/agent.1",
                "connect /home/me/agents/agent.1",
                "stat /home/me/agents/agent.10",
                "connect /home/me/agents/agent.10",
                "stat /home/me/agents/agent.2",
                "connect /home/me/agents/agent.2"
            ]
        );
    }
}

#[test]
fn a_directory_of_another_user_is_never_looked_into() {
    let mut disk = Disk::new();
    disk.dir("/tmp", 0);
    disk.dir("/tmp/ssh-aaa", OTHER);
    disk.socket("/tmp/ssh-aaa/agent.1");
    disk.dir("/tmp/ssh-zzz", ME);
    disk.socket("/tmp/ssh-zzz/agent.2");
    let run = resolve(&disk, vec![shared("/tmp")], ME);
    assert_eq!(run.chosen.as_deref(), Some("/tmp/ssh-zzz/agent.2"));
    assert!(run.asked_for("owner /tmp/ssh-aaa"));
    assert!(!run.touched_beneath("/tmp/ssh-aaa"));
}

#[test]
fn a_directory_without_the_prefix_is_never_looked_into() {
    let mut disk = Disk::new();
    disk.dir("/tmp", 0);
    disk.dir("/tmp/dir-unknown", ME);
    disk.socket("/tmp/dir-unknown/agent.1");
    disk.dir("/tmp/a-ssh-", ME);
    disk.socket("/tmp/a-ssh-/agent.2");
    let run = resolve(&disk, vec![shared("/tmp")], ME);
    assert_eq!(run.chosen, None);
    assert_eq!(run.asked, ["list /tmp"]);
}

#[test]
fn only_another_users_agents_means_no_agent() {
    let mut disk = Disk::new();
    disk.dir("/tmp", 0);
    disk.dir("/tmp/ssh-one", OTHER);
    disk.socket("/tmp/ssh-one/agent.1");
    disk.dir("/tmp/ssh-two", 0);
    disk.socket("/tmp/ssh-two/agent.2");
    let run = resolve(&disk, vec![shared("/tmp")], ME);
    assert_eq!(run.chosen, None);
    assert_eq!(run.asked, ["list /tmp", "owner /tmp/ssh-one", "owner /tmp/ssh-two"]);
}

#[test]
fn a_session_directory_that_vanished_is_passed_over() {
    let mut disk = two_backends();
    disk.owners.remove("/tmp/ssh-always-a");
    let run = resolve(&disk, vec![shared("/tmp")], ME);
    assert_eq!(run.chosen.as_deref(), Some("/tmp/ssh-echo/agent.echo"));
    assert!(!run.touched_beneath("/tmp/ssh-always-a"));
}

#[test]
fn a_name_of_neither_convention_is_never_looked_at() {
    let mut disk = Disk::new();
    disk.dir("/tmp", 0);
    disk.dir("/tmp/ssh-foo", ME);
    disk.socket("/tmp/ssh-foo/unknown");
    disk.socket("/tmp/ssh-foo/agent");
    disk.socket("/tmp/ssh-foo/sshd.1");
    let run = resolve(&disk, vec![shared("/tmp")], ME);
    assert_eq!(run.chosen, None);
    assert_eq!(run.asked, ["list /tmp", "owner /tmp/ssh-foo", "list /tmp/ssh-foo"]);
}

#[test]
fn a_second_resolution_chooses_as_the_first() {
    let mut disk = two_backends();
    let first = resolve(&disk, vec![shared("/tmp")], ME);
    let second = resolve(&disk, vec![shared("/tmp")], ME);
    assert_eq!(first.chosen, second.chosen);
    assert_eq!(first.asked, second.asked);
    disk.reverse();
    let third = resolve(&disk, vec![shared("/tmp")], ME);
    assert_eq!(first.chosen, third.chosen);
    assert_eq!(first.asked, third.asked);
}

#[test]
fn unknown_files_are_ignored_among_session_directories() {
    let mut disk = Disk::new();
    disk.dir("/tmp", 0);
    disk.file("/tmp/file-unknown");
    disk.dir("/tmp/dir-unknown", ME);
    disk.file("/tmp/ssh-not-a-dir");
    disk.dir("/tmp/ssh-empty", ME);
    disk.dir("/tmp/ssh-foo", ME);
    disk.file("/tmp/ssh-foo/unknown");
    disk.dir("/tmp/ssh-bar", ME);
    disk.file("/tmp/ssh-bar/agent.not-a-socket");
    disk.dir("/tmp/ssh-real", ME);
    disk.socket("/tmp/ssh-real/agent.4321");
    let run = resolve(&disk, vec![shared("/tmp")], ME);
    assert_eq!(run.chosen.as_deref(), Some("/tmp/ssh-real/agent.4321"));
    assert_eq!(
        run.asked,
        [
            "list /tmp",
            "owner /tmp/ssh-bar",
            "list /tmp/ssh-bar",
            "stat /tmp/ssh-bar/agent.not-a-socket",
            "owner /tmp/ssh-empty",
            "list /tmp/ssh-empty",
            "owner /tmp/ssh-foo",
            "list /tmp/ssh-foo",
            "owner /tmp/ssh-real",
            "list /tmp/ssh-real",
            "stat /tmp/ssh-real/agent.4321",
            "connect /tmp/ssh-real/agent.4321"
        ]
    );
}

#[test]
fn unknown_files_are_ignored_under_the_home_directory() {
    let mut disk = Disk::new();
    disk.dir("/home/me/.ssh/agent", ME);
    disk.file("/home/me/.ssh/agent/file-unknown");
    disk.dir("/home/me/.ssh/agent/dir-unknown", ME);
    disk.file("/home/me/.ssh/agent/agent.not-a-socket");
    disk.file("/home/me/.ssh/agent/not-a-socket.sshd.foobar");
    disk.socket("/home/me/.ssh/agent/s.host.sshd.real");
    let run = resolve(&disk, vec![home("/home/me/.ssh/agent")], ME);
    assert_eq!(run.chosen.as_deref(), Some("/home/me/.ssh/agent/s.host.sshd.real"));
    assert_eq!(
        run.asked,
        [
            "list /home/me/.ssh/agent",
            "stat /home/me/.ssh/agent/agent.not-a-socket",
            "stat /home/me/.ssh/agent/not-a-socket.sshd.foobar",
            "stat /home/me/.ssh/agent/s.host.sshd.real",
            "connect /home/me/.ssh/agent/s.host.sshd.real"
        ]
    );
}

#[test]
fn a_root_under_home_is_tried_flat_and_then_for_session_directories() {
    let mut disk = Disk::new();
    disk.dir("/home/me/agents", ME);
    disk.dead_socket("/home/me/agents/agent.dead");
    disk.dir("/home/me/agents/ssh-inner", ME);
    disk.socket("/home/me/agents/ssh-inner/agent.live");
    let run = resolve(&disk, vec![home("/home/me/agents")], ME);
    assert_eq!(run.chosen.as_deref(), Some("/home/me/agents/ssh-inner/agent.live"));
    assert_eq!(
        run.asked,
        [
            "list /home/me/agents",
            "stat /home/me/agents/agent.dead",
            "connect /home/me/agents/agent.dead",
            "list /home/me/agents",
            "owner /home/me/agents/ssh-inner",
            "list /home/me/agents/ssh-inner",
            "stat /home/me/agents/ssh-inner/agent.live",
            "connect /home/me/agents/ssh-inner/agent.live"
        ]
    );
}

#[test]
fn a_root_outside_home_is_not_tried_flat() {
    let mut disk = Disk::new();
    disk.dir("/tmp", 0);
    disk.socket("/tmp/agent.stray");
    let run = resolve(&disk, vec![shared("/tmp")], ME);
    assert_eq!(run.chosen, None);
    assert_eq!(run.asked, ["list /tmp"]);
}

#[test]
fn roots_are_tried_in_the_order_given() {
    let mut disk = two_backends();
    disk.dir("/home/me/.ssh/agent", ME);
    disk.socket("/home/me/.ssh/agent/s.host.sshd.1");
    let home_first = resolve(&disk, vec![home("/home/me/.ssh/agent"), shared("/tmp")], ME);
    assert_eq!(home_first.chosen.as_deref(), Some("/home/me/.ssh/agent/s.host.sshd.1"));
    assert!(!home_first.asked_for("list /tmp"));
    let shared_first = resolve(&disk, vec![shared("/tmp"), home("/home/me/.ssh/agent")], ME);
    assert_eq!(shared_first.chosen.as_deref(), Some("/tmp/ssh-always-a/agent.always-a"));
    assert!(!shared_first.asked_for("list /home/me/.ssh/agent"));
}

#[test]
fn a_candidate_that_vanished_is_passed_over() {
    let mut disk = two_backends();
    disk.modes.remove("/tmp/ssh-always-a/agent.always-a");
    let run = resolve(&disk, vec![shared("/tmp")], ME);
    assert_eq!(run.chosen.as_deref(), Some("/tmp/ssh-echo/agent.echo"));
    assert!(run.asked_for("stat /tmp/ssh-always-a/agent.always-a"));
    assert!(!run.asked_for("connect /tmp/ssh-always-a/agent.always-a"));
}

#[test]
fn an_answer_that_was_not_asked_for_changes_nothing() {
    let mut resolver = Resolver::new(vec![shared("/tmp")], ME);
    assert_eq!(resolver.pending(), Ask::List);
    let stray = Answer::Connected(Ok(()));
    assert!(!resolver.accepts(&stray));
    resolver.advance(stray);
    assert_eq!(resolver.pending(), Ask::List);
    assert_eq!(resolver.root(), Some((0, "/tmp")));
    assert!(!resolver.done());
    let stray = Answer::Owner(Ok(ME));
    assert!(!resolver.accepts(&stray));
    resolver.advance(stray);
    assert_eq!(resolver.pending(), Ask::List);
    resolver.advance(Answer::Listing(None));
    assert!(resolver.done());
    assert!(!resolver.found());
    assert!(!resolver.accepts(&Answer::Listing(None)));
    resolver.advance(Answer::Listing(None));
    assert!(resolver.done());
    assert_eq!(resolver.root(), None);
    assert_eq!(resolver.session_dir(), None);
    assert_eq!(resolver.candidate(), None);
}

#[test]
fn the_resolver_names_what_it_is_at() {
    let mut resolver = Resolver::new(vec![shared("/run"), shared("/tmp")], ME);
    resolver.advance(Answer::Listing(None));
    assert_eq!(resolver.root(), Some((1, "/tmp")));
    assert_eq!(resolver.session_dir(), None);
    resolver.advance(Answer::Listing(Some(vec![
        Entry { name: "ssh-b".to_string(), is_dir: true },
        Entry { name: "ssh-a".to_string(), is_dir: true },
    ])));
    assert_eq!(resolver.pending(), Ask::Owner);
    assert_eq!(resolver.session_dir(), Some("ssh-a"));
    assert_eq!(resolver.candidate(), None);
    resolver.advance(Answer::Owner(Ok(ME)));
    assert_eq!(resolver.pending(), Ask::List);
    resolver.advance(Answer::Listing(Some(vec![
        Entry { name: "agent.2".to_string(), is_dir: false },
        Entry { name: "agent.1".to_string(), is_dir: false },
    ])));
    assert_eq!(resolver.pending(), Ask::Stat);
    assert_eq!(resolver.candidate(), Some("agent.1"));
    resolver.advance(Answer::Mode(Ok(SOCKET)));
    assert_eq!(resolver.pending(), Ask::Connect);
    resolver.advance(Answer::Connected(Err(111)));
    assert_eq!(resolver.pending(), Ask::Stat);
    assert_eq!(resolver.candidate(), Some("agent.2"));
    resolver.advance(Answer::Mode(Ok(SOCKET)));
    resolver.advance(Answer::Connected(Ok(())));
    assert!(resolver.found());
    assert_eq!(resolver.pending(), Ask::Nothing);
    assert_eq!(resolver.root(), Some((1, "/tmp")));
    assert_eq!(resolver.session_dir(), Some("ssh-a"));
    assert_eq!(resolver.candidate(), Some("agent.2"));
}

#[test]
fn entries_give_their_names() {
    let entries = vec![
        Entry { name: "b".to_string(), is_dir: true },
        Entry { name: "a".to_string(), is_dir: false },
        Entry { name: "c".to_string(), is_dir: true },
    ];
    assert_eq!(entry_names(&entries), ["b", "a", "c"]);
    assert_eq!(dir_names(&entries), ["b", "c"]);
    assert_eq!(entry_names(&Vec::new()), Vec::<String>::new());
}

#[test]
fn roots_under_the_home_directory_are_marked() {
    let dirs = vec![
        "/home/me/.ssh/agent".to_string(),
        "/tmp".to_string(),
        "/home/me".to_string(),
        "/home/mellow/agents".to_string(),
        "/home/me//x/".to_string(),
    ];
    let roots = plan_roots(dirs.clone(), Some("/home/me"));
    let paths: Vec<&str> = roots.iter().map(|root| root.path.as_str()).collect();
    assert_eq!(paths, dirs);
    let flags: Vec<bool> = roots.iter().map(|root| root.under_home).collect();
    assert_eq!(flags, [true, false, true, false, true]);
}

#[test]
fn no_root_is_under_a_home_directory_that_is_not_known() {
    let roots = plan_roots(vec!["/home/me/.ssh/agent".to_string(), "/tmp".to_string()], None);
    assert_eq!(roots.len(), 2);
    assert!(roots.iter().all(|root| !root.under_home));
}

#[test]
fn a_directory_belongs_to_the_user_only_if_stat_says_so() {
    assert!(owner_matches(Ok(ME), ME));
    assert!(owner_matches(Ok(0), 0));
    assert!(!owner_matches(Ok(OTHER), ME));
    assert!(!owner_matches(Ok(0), ME));
    assert!(!owner_matches(Err(StatError::Vanished), ME));
    assert!(!owner_matches(Err(StatError::Other), 0));
}

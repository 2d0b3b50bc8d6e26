use unix_fd::chroot::Chroot;
use unix_fd::dir::{RawRead, ReadDir, Verdict};
use unix_fd::error::{Error, Op};
use unix_fd::link::{next_link_capacity, LINK_BUF_START};
use unix_fd::full_path::{entry_may_match_exec, join_full_path, plain_name, stat_confirms_exec};
use unix_fd::path::{components, Component};
use unix_fd::stat::{same_file_by_stat, DirEntry, Stat, DT_DIR, DT_UNKNOWN, S_IFDIR, S_IFLNK, S_IFREG};
use unix_fd::walk::{Action, Event, Goal, Walker};

fn show(cs: &[Component]) -> Vec<String> {
    cs.iter()
        .map(|c| match c {
            Component::RootDir => "/".to_string(),
            Component::CurDir => ".".to_string(),
            Component::ParentDir => "..".to_string(),
            Component::Normal(n) => String::from_utf8(n.clone()).unwrap(),
        })
        .collect()
}

#[test]
fn components_of_absolute_path() {
    assert_eq!(show(&components(b"/tmp//d0/./../x/")), vec!["/", "tmp", "d0", "..", "x"]);
    assert_eq!(show(&components(b"/")), vec!["/"]);
    assert_eq!(show(&components(b"/..")), vec!["/", ".."]);
}

#[test]
fn components_of_relative_path() {
    assert_eq!(show(&components(b"./a")), vec![".", "a"]);
    assert_eq!(show(&components(b".")), vec!["."]);
    assert_eq!(show(&components(b"a/.")), vec!["a"]);
    assert_eq!(show(&components(b"..")), vec![".."]);
    assert_eq!(show(&components(b".a/b")), vec![".a", "b"]);
    assert!(components(b"").is_empty());
}

#[test]
fn components_keep_raw_bytes() {
    let cs = components(b"/\xff\xfe/x");
    assert!(matches!(&cs[1], Component::Normal(n) if n == &vec![0xff, 0xfe]));
}

#[test]
fn join_full_path_orders_names_from_the_top() {
    let up = vec![b"d1".to_vec(), b"d0".to_vec(), b"tmp".to_vec()];
    assert_eq!(join_full_path(&up, Some(b"f0")), b"/tmp/d0/d1/f0".to_vec());
    assert_eq!(join_full_path(&up, None), b"/tmp/d0/d1".to_vec());
    assert_eq!(join_full_path(&Vec::new(), None), b"/".to_vec());
    assert_eq!(join_full_path(&Vec::new(), Some(b"x")), b"/x".to_vec());
}

#[test]
fn plain_names() {
    assert!(plain_name(b"passwd"));
    assert!(plain_name(b"..."));
    assert!(!plain_name(b""));
    assert!(!plain_name(b"."));
    assert!(!plain_name(b".."));
    assert!(!plain_name(b"a/b"));
}

fn entry(name: &[u8], ino: u64, kind: u8) -> DirEntry {
    DirEntry { d_name: name.to_vec(), d_ino: ino, d_off: 0, d_type: kind }
}

#[test]
fn read_dir_skips_dot_entries() {
    let mut rd = ReadDir::new();
    assert!(matches!(rd.on_read(RawRead::Entry(entry(b".", 1, DT_DIR))), Verdict::Skip));
    assert!(matches!(rd.on_read(RawRead::Entry(entry(b"..", 2, DT_DIR))), Verdict::Skip));
    match rd.on_read(RawRead::Entry(entry(b"etc", 3, DT_DIR))) {
        Verdict::Yield(e) => {
            assert_eq!(e.name(), b"etc");
            assert_eq!(e.d_ino, 3);
        }
        v => panic!("unexpected {:?}", v),
    }
    assert!(matches!(rd.on_read(RawRead::End), Verdict::End));
}

#[test]
fn read_dir_reports_an_error_once() {
    let mut rd = ReadDir::new();
    assert!(matches!(rd.on_read(RawRead::Entry(entry(b"a", 3, DT_DIR))), Verdict::Yield(_)));
    match rd.on_read(RawRead::Failed(5)) {
        Verdict::Fail(Error::Io { errno, op, path }) => {
            assert_eq!(errno, 5);
            assert_eq!(op, Op::Readdir);
            assert!(path.is_empty());
        }
        v => panic!("unexpected {:?}", v),
    }
    assert!(rd.failed);
    assert!(matches!(rd.on_read(RawRead::Failed(5)), Verdict::End));
    // after an error the stream has ended, whatever a later read finds
    assert!(matches!(rd.on_read(RawRead::Entry(entry(b"x", 4, DT_UNKNOWN))), Verdict::End));
    assert!(matches!(rd.on_read(RawRead::End), Verdict::End));
    assert!(rd.failed);
}

#[test]
fn link_buffer_grows_until_target_fits() {
    assert_eq!(next_link_capacity(10, LINK_BUF_START), None);
    assert_eq!(next_link_capacity(256, 256), Some(512));
    assert_eq!(next_link_capacity(0, 0), Some(1));
    assert_eq!(next_link_capacity(usize::MAX, usize::MAX), Some(usize::MAX));
    assert_eq!(next_link_capacity(511, 512), None);
}

#[test]
fn stat_type_tests() {
    let d = Stat { dev: 1, ino: 2, mode: S_IFDIR | 0o755 };
    let f = Stat { dev: 1, ino: 3, mode: S_IFREG | 0o644 };
    let l = Stat { dev: 1, ino: 4, mode: S_IFLNK | 0o777 };
    assert!(d.is_dir() && !d.is_reg() && !d.is_lnk());
    assert!(f.is_reg() && !f.is_dir());
    assert!(l.is_lnk() && !l.is_reg());
    assert!(d.is_type(S_IFDIR));
}

#[test]
fn stat_identity() {
    let a = Stat { dev: 1, ino: 2, mode: S_IFDIR };
    let b = Stat { dev: 1, ino: 2, mode: S_IFREG };
    let c = Stat { dev: 2, ino: 2, mode: S_IFDIR };
    assert!(a.same_object(&b));
    assert!(!a.same_object(&c));
    assert!(!same_file_by_stat(&a, &b));
    assert!(same_file_by_stat(&a, &a.clone()));
}

#[test]
fn entry_matching() {
    let t = Stat { dev: 1, ino: 7, mode: S_IFDIR };
    assert!(entry_may_match_exec(&entry(b"d", 7, DT_DIR), &t));
    assert!(entry_may_match_exec(&entry(b"d", 7, DT_UNKNOWN), &t));
    assert!(!entry_may_match_exec(&entry(b"d", 7, 8), &t));
    assert!(!entry_may_match_exec(&entry(b"d", 8, DT_DIR), &t));
    assert!(stat_confirms_exec(&Stat { dev: 1, ino: 7, mode: S_IFDIR | 0o700 }, &t));
    assert!(!stat_confirms_exec(&Stat { dev: 2, ino: 7, mode: S_IFDIR }, &t));
    assert!(!stat_confirms_exec(&Stat { dev: 1, ino: 7, mode: S_IFREG }, &t));
}

#[test]
fn error_messages() {
    assert_eq!(Error::NoEntryFound.message(), "full_path(): no entry found");
    assert_eq!(Error::NotAbsolute(b"x".to_vec()).message(), "path not absolute");
    assert_eq!(
        Error::TooManyLoops(Vec::new()).message(),
        "too many loops while resolving symbolic link"
    );
    assert_eq!(
        Error::Io { errno: 2, op: Op::Fstatat, path: b"x".to_vec() }.message(),
        "file-system operation failed"
    );
    assert_eq!(Op::Readlinkat.name(), "readlinkat");
    assert_eq!(Op::Readdir.name(), "readdir");
}

#[test]
fn chroot_keeps_its_root() {
    let c = Chroot::new(b"/srv/www");
    assert_eq!(c.root(), b"/srv/www");
}

#[test]
fn walker_first_steps() {
    let mut w = Walker::new(Goal::Parent, b"/etc/passwd");
    assert!(matches!(w.resume(Event::Ready), Action::OpenRoot));
    assert!(matches!(w.resume(Event::Ready), Action::CheckLink(n) if n == b"etc".to_vec()));
    assert!(!w.accepts(&Event::Ready));
    assert!(matches!(w.resume(Event::IsLink(false)), Action::OpenDir(n) if n == b"etc".to_vec()));
    assert!(matches!(w.resume(Event::Ready), Action::Found(n) if n == b"passwd".to_vec()));
    assert!(!w.accepts(&Event::Ready));
}

#[test]
fn walker_parent_asks_for_root_status_once() {
    let root = Stat { dev: 1, ino: 2, mode: S_IFDIR };
    let other = Stat { dev: 1, ino: 3, mode: S_IFDIR };
    let mut w = Walker::new(Goal::Dir, b"a/../..");
    assert!(matches!(w.resume(Event::Ready), Action::CheckLink(_)));
    assert!(matches!(w.resume(Event::IsLink(false)), Action::OpenDir(_)));
    assert!(matches!(w.resume(Event::Ready), Action::StatRoot));
    assert!(matches!(w.resume(Event::Stat(root)), Action::StatCur));
    assert!(matches!(w.resume(Event::Stat(other)), Action::OpenParent));
    assert!(matches!(w.resume(Event::Ready), Action::StatCur));
    assert!(matches!(w.resume(Event::Stat(root)), Action::Done));
}

#[test]
fn walker_final_link_reads_target() {
    let mut w = Walker::new(Goal::File, b"lf");
    assert!(matches!(w.resume(Event::Ready), Action::CheckLink(n) if n == b"lf".to_vec()));
    assert!(matches!(w.resume(Event::IsLink(true)), Action::ReadLink(n) if n == b"lf".to_vec()));
    assert!(matches!(w.resume(Event::Target(b"/x".to_vec())), Action::OpenRoot));
    assert!(matches!(w.resume(Event::Ready), Action::CheckLink(n) if n == b"x".to_vec()));
    assert!(matches!(w.resume(Event::IsLink(false)), Action::OpenFile(n) if n == b"x".to_vec()));
}

#[test]
fn walker_open_of_dir_path_uses_dot() {
    let mut w = Walker::new(Goal::File, b"d/..");
    assert!(matches!(w.resume(Event::Ready), Action::CheckLink(n) if n == b"d".to_vec()));
    assert!(matches!(w.resume(Event::IsLink(false)), Action::OpenDir(_)));
    assert!(matches!(w.resume(Event::Ready), Action::StatRoot));
}

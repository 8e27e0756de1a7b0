use companion::singleton::{
    acquire, is_alive, lock_content, lock_path, read_owner_pid, release, Acquire, LockBase,
    LockEvent, LockStep, OwnerRead, CREATE_ROUNDS, READ_ATTEMPTS, READ_PAUSE_MS,
};

/// Reads a lock file that holds `contents` in turn (`None` where it cannot be read), the way
/// the owner is looked for, and counts the reads.
fn owner(contents: &[Option<&str>]) -> (Option<u32>, u32) {
    let mut attempt = 0;
    while attempt < READ_ATTEMPTS {
        let content = contents[(attempt as usize).min(contents.len() - 1)];
        match read_owner_pid(attempt, content) {
            OwnerRead::Found(pid) => return (Some(pid), attempt + 1),
            OwnerRead::Released => return (None, attempt + 1),
            OwnerRead::Wait => attempt += 1,
        }
    }
    (None, attempt)
}

fn content(s: &str) -> LockEvent {
    LockEvent::Content(s.to_string())
}

#[test]
fn reads_written_pid() {
    assert_eq!(lock_content(4242), "4242");
    assert_eq!(owner(&[Some("4242")]).0, Some(4242));
}

#[test]
fn empty_file_reads_as_no_owner_after_grace() {
    // An owner that never finishes writing (crashed mid-create) is
    // eventually treated as absent so the lock can be reclaimed.
    assert_eq!(owner(&[Some("")]), (None, 10));
    assert_eq!(READ_PAUSE_MS, 20);
}

#[test]
fn slow_owner_is_waited_for_and_a_released_lock_is_not() {
    assert_eq!(owner(&[Some(""), Some("4"), Some("77")]), (Some(4), 2));
    assert_eq!(owner(&[None, Some(" 12\n")]), (Some(12), 2));
    assert_eq!(owner(&[Some(""), None]), (None, 2));
    assert_eq!(owner(&[None, None]), (None, 2));
    assert_eq!(read_owner_pid(0, None), OwnerRead::Wait);
    assert_eq!(read_owner_pid(1, None), OwnerRead::Released);
    assert_eq!(read_owner_pid(9, Some("x")), OwnerRead::Wait);
}

#[test]
fn created_lock_is_held() {
    let s = acquire(Acquire::start(7), LockEvent::Created);
    assert_eq!(s.step, LockStep::Finish(true));
    assert_eq!(acquire(s, LockEvent::Failed), s);
}

#[test]
fn lock_that_cannot_be_created_is_not_held() {
    let s = acquire(Acquire::start(7), LockEvent::Failed);
    assert_eq!(s.step, LockStep::Finish(false));
}

#[test]
fn later_process_exits_while_the_owner_lives() {
    let s = acquire(Acquire::start(7), LockEvent::Exists);
    assert_eq!(s.step, LockStep::Read);
    let s = acquire(s, content(""));
    assert_eq!(s.step, LockStep::Pause);
    let s = acquire(s, LockEvent::Paused);
    let s = acquire(s, content(&lock_content(8)));
    assert_eq!(s.step, LockStep::Probe(8));
    assert_eq!(acquire(s, LockEvent::Paused), s);
    let s = acquire(s, LockEvent::Alive(true));
    assert_eq!(s.step, LockStep::Finish(false));
}

#[test]
fn lock_of_a_dead_process_is_taken_over() {
    let s = acquire(Acquire::start(7), LockEvent::Exists);
    let s = acquire(s, content("8"));
    let s = acquire(s, LockEvent::Alive(false));
    assert_eq!(s.step, LockStep::Remove);
    let s = acquire(s, LockEvent::Removed);
    assert_eq!(s.step, LockStep::Create);
    let s = acquire(s, LockEvent::Created);
    assert_eq!(s.step, LockStep::Finish(true));
}

#[test]
fn own_stale_lock_is_removed_without_a_probe() {
    let s = acquire(Acquire::start(7), LockEvent::Exists);
    assert_eq!(acquire(s, content("7")).step, LockStep::Remove);
}

#[test]
fn second_stale_lock_ends_the_attempt() {
    assert_eq!(CREATE_ROUNDS, 2);
    let mut s = Acquire::start(7);
    for _ in 0..2 {
        s = acquire(s, LockEvent::Exists);
        for _ in 0..10 {
            assert_eq!(s.step, LockStep::Read);
            s = acquire(s, content("no id"));
            s = acquire(s, LockEvent::Paused);
        }
        assert_eq!(s.step, LockStep::Remove);
        s = acquire(s, LockEvent::Removed);
    }
    assert_eq!(s.step, LockStep::Finish(false));
}

#[test]
fn released_lock_is_created_again() {
    let s = acquire(Acquire::start(7), LockEvent::Exists);
    let s = acquire(s, LockEvent::Unreadable);
    assert_eq!(s.step, LockStep::Pause);
    let s = acquire(s, LockEvent::Paused);
    let s = acquire(s, LockEvent::Unreadable);
    assert_eq!(s.step, LockStep::Remove);
}

#[test]
fn only_the_owner_releases() {
    assert!(release(Some("4242"), 4242));
    assert!(release(Some(" 4242\n"), 4242));
    assert!(!release(Some("4242"), 4243));
    assert!(!release(Some(""), 4242));
    assert!(!release(None, 4242));
}

#[test]
fn process_is_alive_only_where_it_can_be_signalled() {
    assert!(is_alive(Some(0)));
    assert!(!is_alive(Some(-1)));
    assert!(!is_alive(None));
}

#[test]
fn lock_stands_below_the_data_directory() {
    let below = vec!["opencode", "storage", "oh-my-opencode-slim", "companion.pid"];
    let path = lock_path(Some("/data".to_string()), true);
    assert_eq!(path.base, LockBase::DataHome("/data".to_string()));
    assert_eq!(path.segments, below);
    let mut at_home = vec![".local", "share"];
    at_home.extend(below);
    let path = lock_path(Some(String::new()), true);
    assert_eq!((path.base, path.segments), (LockBase::Home, at_home.iter().map(|s| s.to_string()).collect()));
    let path = lock_path(None, false);
    assert_eq!(path.base, LockBase::Current);
    assert_eq!(path.segments, at_home);
}

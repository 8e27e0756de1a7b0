//! The lock file that keeps one companion window per user.
//!
//! A single window aggregates every session, so the lock is global: whichever process
//! creates the lock file first wins, and later ones exit. The functions here decide;
//! the caller performs each step on the file system and hands back what happened.

use vstd::prelude::*;

use crate::text::{decimal_text, parse_trimmed_u32};
#[allow(unused_imports)]
use crate::text::{
    blank, decimal, law_decimal_reads_back, law_number_is_read, law_only_numbers_are_read, spelled,
    trimmed_u32,
};

verus! {

/// How often the lock file is tried to be created before giving up.
pub const CREATE_ROUNDS: u32 = 2;

/// How often the owner is read from a lock file before it counts as absent.
pub const READ_ATTEMPTS: u32 = 10;

/// How long to pause between two reads of the owner, in milliseconds.
pub const READ_PAUSE_MS: u64 = 20;

// ---- where the lock file is ----

/// The directory that the path of the lock file starts from.
#[derive(Debug, PartialEq, Eq)]
pub enum LockBase {
    /// The user's data directory, as the environment names it.
    DataHome(String),
    /// The user's home directory.
    Home,
    /// The current directory, where no home directory is known.
    Current,
}

/// The path of the lock file: a directory, and the names to append to it in turn.
#[derive(Debug, PartialEq, Eq)]
pub struct LockPath {
    pub base: LockBase,
    pub segments: Vec<String>,
}

/// A lock path by the characters in it.
pub struct LockPathView {
    /// The data directory that the environment names, if the path starts there.
    pub data_home: Option<Seq<char>>,
    /// Where the path does not start in a data directory: whether it starts at home.
    pub at_home: bool,
    pub segments: Seq<Seq<char>>,
}

impl View for LockPath {
    type V = LockPathView;

    open spec fn view(&self) -> LockPathView {
        LockPathView {
            data_home: match self.base {
                LockBase::DataHome(dir) => Some(dir@),
                _ => None,
            },
            at_home: self.base is Home,
            segments: self.segments.deep_view(),
        }
    }
}

/// The names below the data directory.
pub open spec fn storage_segments() -> Seq<Seq<char>> {
    seq!["opencode"@, "storage"@, "oh-my-opencode-slim"@, "companion.pid"@]
}

/// The lock file stands below the data directory where the environment names one that is
/// not empty, else below `.local/share` of the home directory, or of the current one where
/// there is no home.
pub open spec fn lock_path_of(data_home: Option<Seq<char>>, has_home: bool) -> LockPathView {
    match data_home {
        Some(dir) if dir.len() > 0 => LockPathView {
            data_home: Some(dir),
            at_home: false,
            segments: storage_segments(),
        },
        _ => LockPathView {
            data_home: None,
            at_home: has_home,
            segments: seq![".local"@, "share"@] + storage_segments(),
        },
    }
}

/// Where the lock file stands, given the data directory that the environment names and
/// whether a home directory is known.
pub fn lock_path(data_home: Option<String>, has_home: bool) -> (r: LockPath)
    ensures
        r@ == lock_path_of(data_home.deep_view(), has_home),
        (data_home matches Some(dir) && dir@.len() > 0) ==> r.base == LockBase::DataHome(
            data_home->0,
        ),
        !(data_home matches Some(dir) && dir@.len() > 0) && has_home ==> r.base is Home,
        !(data_home matches Some(dir) && dir@.len() > 0) && !has_home ==> r.base is Current,
        r.segments.len() == (if r.base is DataHome {
            4int
        } else {
            6int
        }),
        !(r.base is DataHome) ==> r.segments@[0]@ == ".local"@ && r.segments@[1]@ == "share"@,
        ({
            let n = r.segments.len() as int;
            &&& r.segments@[n - 4]@ == "opencode"@ && r.segments@[n - 3]@ == "storage"@
            &&& r.segments@[n - 2]@ == "oh-my-opencode-slim"@
            &&& r.segments@[n - 1]@ == "companion.pid"@
        }),
{
    let mut segments: Vec<String> = Vec::new();
    let base = match data_home {
        Some(dir) => {
            if dir.as_str().is_empty() {
                None
            } else {
                Some(dir)
            }
        },
        None => None,
    };
    let base = match base {
        Some(dir) => LockBase::DataHome(dir),
        None => {
            segments.push(".local".to_owned());
            segments.push("share".to_owned());
            if has_home {
                LockBase::Home
            } else {
                LockBase::Current
            }
        },
    };
    segments.push("opencode".to_owned());
    segments.push("storage".to_owned());
    segments.push("oh-my-opencode-slim".to_owned());
    segments.push("companion.pid".to_owned());
    let r = LockPath { base, segments };
    assert(r@.segments =~= lock_path_of(data_home.deep_view(), has_home).segments);
    assert(r@.segments.len() == r.segments.len());
    r
}

// ---- who owns it ----

/// What the owner writes into the lock file: its process id in decimal digits.
pub fn lock_content(pid: u32) -> (r: String)
    ensures
        r@ == decimal(pid as nat),
{
    decimal_text(pid as u64)
}

/// Whether a process exists, from what `kill` with signal 0 returned for it; `None` where
/// the platform has no such call, and then no process counts as alive.
pub fn is_alive(kill_result: Option<i32>) -> (r: bool)
    ensures
        r == (kill_result == Some(0i32)),
{
    match kill_result {
        Some(code) => code == 0,
        None => false,
    }
}

/// What one attempt to read the owner came to.
#[derive(Clone, Copy, Debug, PartialEq, Eq, Structural)]
pub enum OwnerRead {
    /// The file names this owner.
    Found(u32),
    /// The owner released the lock in the meantime.
    Released,
    /// The owner has not written its id yet: pause, then read again.
    Wait,
}

/// What the attempt with this number (from 0) comes to, where `content` is what the file
/// held, `None` if it could not be read.
pub open spec fn owner_read(attempt: nat, content: Option<Seq<char>>) -> OwnerRead {
    match content {
        Some(c) => match trimmed_u32(c) {
            Some(pid) => OwnerRead::Found(pid),
            None => OwnerRead::Wait,
        },
        None => if attempt > 0 {
            OwnerRead::Released
        } else {
            OwnerRead::Wait
        },
    }
}

/// Judges one attempt to read the owner's process id from the lock file.
///
/// Creating the file and writing the id into it is not atomic: a racing process can see
/// the file before the owner has written its id. So a file that holds no id is not stale
/// at once; it gets a short grace period in which the owner can finish writing.
pub fn read_owner_pid(attempt: u32, content: Option<&str>) -> (r: OwnerRead)
    ensures
        r == owner_read(
            attempt as nat,
            match content {
                Some(c) => Some(c@),
                None => None,
            },
        ),
{
    match content {
        Some(c) => match parse_trimmed_u32(c) {
            Some(pid) => OwnerRead::Found(pid),
            None => OwnerRead::Wait,
        },
        None => if attempt > 0 {
            OwnerRead::Released
        } else {
            OwnerRead::Wait
        },
    }
}

// ---- taking the lock ----

/// What the caller does next.
#[derive(Clone, Copy, Debug, PartialEq, Eq, Structural)]
pub enum LockStep {
    /// Create the lock file, which must not exist yet, and write the own id into it.
    Create,
    /// Read the lock file.
    Read,
    /// Pause for `READ_PAUSE_MS`.
    Pause,
    /// Find out whether the process with this id is alive.
    Probe(u32),
    /// Remove the lock file.
    Remove,
    /// Stop: the process runs on if true, and exits if false.
    Finish(bool),
}

/// What came of a step.
#[derive(Debug)]
pub enum LockEvent {
    /// The lock file was created.
    Created,
    /// The lock file exists already.
    Exists,
    /// The lock file could not be created for another reason.
    Failed,
    /// The lock file holds this text.
    Content(String),
    /// The lock file could not be read.
    Unreadable,
    /// The pause is over.
    Paused,
    /// The process that was probed is alive, or is not.
    Alive(bool),
    /// The lock file was removed, as far as that went.
    Removed,
}

/// An event by the characters in it.
pub enum LockEventView {
    Created,
    Exists,
    Failed,
    Content(Seq<char>),
    Unreadable,
    Paused,
    Alive(bool),
    Removed,
}

impl View for LockEvent {
    type V = LockEventView;

    open spec fn view(&self) -> LockEventView {
        match *self {
            LockEvent::Created => LockEventView::Created,
            LockEvent::Exists => LockEventView::Exists,
            LockEvent::Failed => LockEventView::Failed,
            LockEvent::Content(c) => LockEventView::Content(c@),
            LockEvent::Unreadable => LockEventView::Unreadable,
            LockEvent::Paused => LockEventView::Paused,
            LockEvent::Alive(b) => LockEventView::Alive(b),
            LockEvent::Removed => LockEventView::Removed,
        }
    }
}

/// How far an attempt to take the lock has come.
#[derive(Clone, Copy, Debug, PartialEq, Eq, Structural)]
pub struct Acquire {
    /// The id of this process.
    pub own_pid: u32,
    /// How often the file has been created in vain.
    pub round: u32,
    /// How often the owner has been read in vain.
    pub attempt: u32,
    /// What the caller does next.
    pub step: LockStep,
}

impl Acquire {
    /// The counters are within their limits.
    pub open spec fn wf(self) -> bool {
        self.round < CREATE_ROUNDS && self.attempt < READ_ATTEMPTS
    }

    pub open spec fn with_step(self, step: LockStep) -> Acquire {
        Acquire { step, ..self }
    }

    pub open spec fn begin(own_pid: u32) -> Acquire {
        Acquire { own_pid, round: 0, attempt: 0, step: LockStep::Create }
    }

    /// The first step of an attempt to take the lock.
    pub fn start(own_pid: u32) -> (r: Acquire)
        ensures
            r == Acquire::begin(own_pid),
            r.wf(),
    {
        Acquire { own_pid, round: 0, attempt: 0, step: LockStep::Create }
    }
}

/// `event` is an answer to `step`.
pub open spec fn answers(step: LockStep, event: LockEventView) -> bool {
    match step {
        LockStep::Create => event is Created || event is Exists || event is Failed,
        LockStep::Read => event is Content || event is Unreadable,
        LockStep::Pause => event is Paused,
        LockStep::Probe(_) => event is Alive,
        LockStep::Remove => event is Removed,
        LockStep::Finish(_) => false,
    }
}

/// The step once the owner is known to be `owner`, or known to be absent: another process
/// is probed; a lock of nobody, or of this process, is stale.
pub open spec fn judged(state: Acquire, owner: Option<u32>) -> Acquire {
    match owner {
        Some(pid) if pid != state.own_pid => state.with_step(LockStep::Probe(pid)),
        _ => state.with_step(LockStep::Remove),
    }
}

/// The state after one attempt to read the owner.
pub open spec fn after_read(state: Acquire, content: Option<Seq<char>>) -> Acquire {
    match owner_read(state.attempt as nat, content) {
        OwnerRead::Found(pid) => judged(state, Some(pid)),
        OwnerRead::Released => judged(state, None),
        OwnerRead::Wait => state.with_step(LockStep::Pause),
    }
}

/// The state after `event`. An event that does not answer the step changes nothing.
pub open spec fn acquired(state: Acquire, event: LockEventView) -> Acquire {
    if !answers(state.step, event) {
        state
    } else {
        match event {
            LockEventView::Created => state.with_step(LockStep::Finish(true)),
            LockEventView::Exists => Acquire { attempt: 0, step: LockStep::Read, ..state },
            LockEventView::Failed => state.with_step(LockStep::Finish(false)),
            LockEventView::Content(c) => after_read(state, Some(c)),
            LockEventView::Unreadable => after_read(state, None),
            LockEventView::Paused => if state.attempt + 1 < READ_ATTEMPTS {
                Acquire {
                    attempt: (state.attempt + 1) as u32,
                    step: LockStep::Read,
                    ..state
                }
            } else {
                judged(state, None)
            },
            LockEventView::Alive(true) => state.with_step(LockStep::Finish(false)),
            LockEventView::Alive(false) => state.with_step(LockStep::Remove),
            LockEventView::Removed => if state.round + 1 < CREATE_ROUNDS {
                Acquire { round: (state.round + 1) as u32, step: LockStep::Create, ..state }
            } else {
                state.with_step(LockStep::Finish(false))
            },
        }
    }
}

fn judge(state: Acquire, owner: Option<u32>) -> (r: Acquire)
    ensures
        r == judged(state, owner),
{
    match owner {
        Some(pid) => if pid != state.own_pid {
            Acquire { step: LockStep::Probe(pid), ..state }
        } else {
            Acquire { step: LockStep::Remove, ..state }
        },
        None => Acquire { step: LockStep::Remove, ..state },
    }
}

fn judge_read(state: Acquire, content: Option<&str>) -> (r: Acquire)
    ensures
        r == after_read(
            state,
            match content {
                Some(c) => Some(c@),
                None => None,
            },
        ),
{
    match read_owner_pid(state.attempt, content) {
        OwnerRead::Found(pid) => judge(state, Some(pid)),
        OwnerRead::Released => judge(state, None),
        OwnerRead::Wait => Acquire { step: LockStep::Pause, ..state },
    }
}

/// Takes the lock one event further. Once the step is `Finish`, it says whether this
/// process should continue running; it should not if another companion is alive.
pub fn acquire(state: Acquire, event: LockEvent) -> (r: Acquire)
    requires
        state.wf(),
    ensures
        r == acquired(state, event@),
        r.wf(),
{
    match (state.step, event) {
        (LockStep::Create, LockEvent::Created) => Acquire {
            step: LockStep::Finish(true),
            ..state
        },
        (LockStep::Create, LockEvent::Exists) => Acquire {
            attempt: 0,
            step: LockStep::Read,
            ..state
        },
        (LockStep::Create, LockEvent::Failed) => Acquire {
            step: LockStep::Finish(false),
            ..state
        },
        (LockStep::Read, LockEvent::Content(c)) => judge_read(state, Some(c.as_str())),
        (LockStep::Read, LockEvent::Unreadable) => judge_read(state, None),
        (LockStep::Pause, LockEvent::Paused) => if state.attempt + 1 < READ_ATTEMPTS {
            Acquire { attempt: state.attempt + 1, step: LockStep::Read, ..state }
        } else {
            judge(state, None)
        },
        (LockStep::Probe(_), LockEvent::Alive(alive)) => if alive {
            Acquire { step: LockStep::Finish(false), ..state }
        } else {
            Acquire { step: LockStep::Remove, ..state }
        },
        (LockStep::Remove, LockEvent::Removed) => if state.round + 1 < CREATE_ROUNDS {
            Acquire { round: state.round + 1, step: LockStep::Create, ..state }
        } else {
            Acquire { step: LockStep::Finish(false), ..state }
        },
        _ => state,
    }
}

// ---- giving the lock back ----

/// The lock is this process's to release: the file names it as the owner.
pub open spec fn releases(content: Option<Seq<char>>, own_pid: u32) -> bool {
    match content {
        Some(c) => trimmed_u32(c) == Some(own_pid),
        None => false,
    }
}

/// Whether to remove the lock file on exit, given what it holds (`None` if it cannot be
/// read): only where this process still owns it.
pub fn release(content: Option<&str>, own_pid: u32) -> (r: bool)
    ensures
        r == releases(
            match content {
                Some(c) => Some(c@),
                None => None,
            },
            own_pid,
        ),
{
    match content {
        Some(c) => match parse_trimmed_u32(c) {
            Some(pid) => pid == own_pid,
            None => false,
        },
        None => false,
    }
}

// ---- laws ----

/// The state after a run of events.
pub open spec fn run(state: Acquire, events: Seq<LockEventView>) -> Acquire
    decreases events.len(),
{
    if events.len() == 0 {
        state
    } else {
        acquired(run(state, events.drop_last()), events.last())
    }
}

/// What a process sees of a lock file that holds these texts in turn, none of them an id.
pub open spec fn waiting(contents: Seq<Seq<char>>) -> Seq<LockEventView>
    decreases contents.len(),
{
    if contents.len() == 0 {
        Seq::empty()
    } else {
        waiting(contents.drop_last()).push(LockEventView::Content(contents.last())).push(
            LockEventView::Paused,
        )
    }
}

/// How many more events an attempt to take the lock can need.
pub open spec fn steps_left(state: Acquire) -> int {
    let in_round = match state.step {
        LockStep::Create => 24,
        LockStep::Read => 2 * (READ_ATTEMPTS - state.attempt) + 2,
        LockStep::Pause => 2 * (READ_ATTEMPTS - state.attempt) + 1,
        LockStep::Probe(_) => 2,
        LockStep::Remove => 1,
        LockStep::Finish(_) => 0,
    };
    if state.step is Finish {
        0
    } else {
        (CREATE_ROUNDS - 1 - state.round) * 25 + in_round
    }
}

proof fn lemma_run_push(state: Acquire, events: Seq<LockEventView>, event: LockEventView)
    ensures
        run(state, events.push(event)) == acquired(run(state, events), event),
{
    assert(events.push(event).drop_last() =~= events);
}

/// Each answer brings the attempt nearer to its end: it takes at most 49 events.
pub proof fn law_acquire_terminates(state: Acquire, event: LockEventView)
    requires
        state.wf(),
    ensures
        0 <= steps_left(state) <= 49,
        answers(state.step, event) ==> steps_left(acquired(state, event)) < steps_left(state),
        steps_left(state) == 0 <==> state.step is Finish,
{
}

/// A process runs on only where it created the lock file itself.
pub proof fn law_only_the_creator_runs_on(own_pid: u32, events: Seq<LockEventView>)
    requires
        run(Acquire::begin(own_pid), events).step == LockStep::Finish(true),
    ensures
        exists|i: int|
            {
                &&& 0 <= i < events.len()
                &&& #[trigger] events[i] is Created
                &&& run(Acquire::begin(own_pid), events.take(i)).step is Create
            },
    decreases events.len(),
{
    if events.len() > 0 {
        let before = events.drop_last();
        if run(Acquire::begin(own_pid), before).step == LockStep::Finish(true) {
            law_only_the_creator_runs_on(own_pid, before);
            let i = choose|i: int|
                {
                    &&& 0 <= i < before.len()
                    &&& #[trigger] before[i] is Created
                    &&& run(Acquire::begin(own_pid), before.take(i)).step is Create
                };
            assert(events[i] == before[i]);
            assert(events.take(i) =~= before.take(i));
        } else {
            let i = events.len() - 1;
            assert(events[i] is Created);
            assert(events.take(i) =~= before);
        }
    }
}

/// The lock is removed only where it is stale: it names this process, or its owner is gone,
/// or it stayed without an id through every attempt to read it, or its owner is dead.
pub proof fn law_only_a_stale_lock_is_removed(state: Acquire, event: LockEventView)
    requires
        state.wf(),
        !(state.step is Remove),
        acquired(state, event).step is Remove,
    ensures
        match state.step {
            LockStep::Read => {
                ||| event matches LockEventView::Content(c) && trimmed_u32(c) == Some(
                    state.own_pid,
                )
                ||| event is Unreadable && state.attempt > 0
            },
            LockStep::Pause => event is Paused && state.attempt + 1 == READ_ATTEMPTS,
            LockStep::Probe(_) => event == LockEventView::Alive(false),
            _ => false,
        },
{
}

/// A lock that holds no id yet is read again, up to the last attempt, and counts as
/// abandoned only then.
pub proof fn law_unwritten_lock_has_a_grace_period(state: Acquire, contents: Seq<Seq<char>>)
    requires
        state.wf(),
        state.step is Read,
        state.attempt == 0,
        contents.len() <= READ_ATTEMPTS,
        forall|i: int|
            0 <= i < contents.len() ==> trimmed_u32(#[trigger] contents[i]) is None,
    ensures
        contents.len() < READ_ATTEMPTS ==> run(state, waiting(contents)) == (Acquire {
            attempt: contents.len() as u32,
            ..state
        }),
        contents.len() == READ_ATTEMPTS ==> run(state, waiting(contents)).step is Remove,
    decreases contents.len(),
{
    if contents.len() > 0 {
        let before = contents.drop_last();
        law_unwritten_lock_has_a_grace_period(state, before);
        assert(trimmed_u32(contents[contents.len() - 1]) is None);
        let read = waiting(before).push(LockEventView::Content(contents.last()));
        lemma_run_push(state, waiting(before), LockEventView::Content(contents.last()));
        lemma_run_push(state, read, LockEventView::Paused);
    }
}

/// A process that reads what the owner of the lock wrote finds the owner's id, whichever
/// attempt it is.
pub proof fn law_owner_reads_back(pid: u32, attempt: nat)
    ensures
        owner_read(attempt, Some(decimal(pid as nat))) == OwnerRead::Found(pid),
{
    law_decimal_reads_back(pid);
}

/// Whichever process takes the lock first wins: another one that finds it taken, however
/// long the owner needs to write its id within the grace period, exits while the owner is
/// alive, and does not touch the lock.
pub proof fn law_later_process_exits(own_pid: u32, owner: u32, contents: Seq<Seq<char>>)
    requires
        own_pid != owner,
        contents.len() < READ_ATTEMPTS,
        forall|i: int|
            0 <= i < contents.len() ==> trimmed_u32(#[trigger] contents[i]) is None,
    ensures
        ({
            let read = acquired(Acquire::begin(own_pid), LockEventView::Exists);
            let waited = run(read, waiting(contents));
            let found = acquired(waited, LockEventView::Content(decimal(owner as nat)));
            &&& waited.step is Read
            &&& found.step == LockStep::Probe(owner)
            &&& acquired(found, LockEventView::Alive(true)).step == LockStep::Finish(false)
        }),
{
    let read = acquired(Acquire::begin(own_pid), LockEventView::Exists);
    law_unwritten_lock_has_a_grace_period(read, contents);
    law_decimal_reads_back(owner);
}

/// The lock of a dead process is taken over.
pub proof fn law_dead_owner_is_replaced(own_pid: u32, owner: u32)
    requires
        own_pid != owner,
    ensures
        ({
            let read = acquired(Acquire::begin(own_pid), LockEventView::Exists);
            let found = acquired(read, LockEventView::Content(decimal(owner as nat)));
            let stale = acquired(found, LockEventView::Alive(false));
            let again = acquired(stale, LockEventView::Removed);
            &&& stale.step is Remove
            &&& again.step is Create
            &&& acquired(again, LockEventView::Created).step == LockStep::Finish(true)
        }),
{
    law_decimal_reads_back(owner);
}

/// A process releases the lock that it wrote, and no other process does.
pub proof fn law_release_is_for_the_owner(owner: u32, pid: u32)
    ensures
        releases(Some(decimal(owner as nat)), pid) <==> pid == owner,
{
    law_decimal_reads_back(owner);
}

/// Where the lock file stands. A data directory that the environment names counts, unless it is
/// empty: an empty one is the same as none. Without one the lock stands below the home
/// directory, and only where there is no home, below the current one. So wherever a data
/// directory or a home is known, the place does not depend on the working directory.
pub proof fn law_lock_path(data_home: Option<Seq<char>>, has_home: bool)
    ensures
        ({
            let path = lock_path_of(data_home, has_home);
            let named = data_home is Some && data_home->0.len() > 0;
            let n = path.segments.len() as int;
            &&& named ==> path.data_home == data_home && !path.at_home && n == 4
            &&& !named ==> path.data_home is None && path.at_home == has_home && n == 6
            &&& !named ==> path.segments[0] == ".local"@ && path.segments[1] == "share"@
            &&& path.segments[n - 4] == "opencode"@ && path.segments[n - 3] == "storage"@
            &&& path.segments[n - 2] == "oh-my-opencode-slim"@
            &&& path.segments[n - 1] == "companion.pid"@
        }),
        lock_path_of(Some(Seq::empty()), has_home) == lock_path_of(None, has_home),
        data_home is Some && data_home->0.len() > 0 ==> lock_path_of(data_home, true)
            == lock_path_of(data_home, false),
{
}

/// Paths that look the same start at the same directory and go through the same names.
pub proof fn law_lock_path_shows_all(a: LockPath, b: LockPath)
    requires
        a@ == b@,
    ensures
        a.base is Home <==> b.base is Home,
        a.base is Current <==> b.base is Current,
        a.base is DataHome ==> b.base is DataHome && a.base->DataHome_0@ == b.base->DataHome_0@,
        a.segments.len() == b.segments.len(),
        forall|i: int| 0 <= i < a.segments.len() ==> (#[trigger] a.segments@[i])@ == b.segments@[i]@,
{
    let (x, y) = (a.segments.deep_view(), b.segments.deep_view());
    assert(x.len() == a.segments.len() && y.len() == b.segments.len());
    assert forall|i: int| 0 <= i < a.segments.len() implies (#[trigger] a.segments@[i])@
        == b.segments@[i]@ by {
        assert(x[i] == a.segments@[i]@ && y[i] == b.segments@[i]@);
    }
}

/// What one attempt to read the owner comes to. A file that holds a number, with white space
/// around it or not, with a sign and zeros in front or not, names its owner. One that holds anything else has an owner that is still
/// writing. One that cannot be read at the first attempt is read again, and one that cannot be
/// read later was released.
pub proof fn law_owner_read(
    attempt: nat,
    before: Seq<char>,
    plus: bool,
    zeros: nat,
    pid: u32,
    after: Seq<char>,
    content: Seq<char>,
)
    requires
        blank(before),
        blank(after),
    ensures
        owner_read(attempt, Some(spelled(before, plus, zeros, pid as nat, after)))
            == OwnerRead::Found(pid),
        owner_read(attempt, Some(before + decimal(pid as nat) + after)) == OwnerRead::Found(pid),
        (forall|b: Seq<char>, plus: bool, zeros: nat, n: u32, a: Seq<char>|
            blank(b) && blank(a) ==> content != #[trigger] spelled(b, plus, zeros, n as nat, a))
            ==> owner_read(attempt, Some(content)) == OwnerRead::Wait,
        owner_read(0, None) == OwnerRead::Wait,
        attempt > 0 ==> owner_read(attempt, None) == OwnerRead::Released,
{
    law_number_is_read(before, plus, zeros, pid, after);
    law_number_is_read(before, false, 0, pid, after);
    assert(spelled(before, false, 0, pid as nat, after) =~= before + decimal(pid as nat) + after);
    if trimmed_u32(content) is Some {
        law_only_numbers_are_read(content);
    }
}

/// The steps of taking the lock. Creating the file ends well; failing to for another reason
/// than that it exists ends the process. A lock that exists is read from the first attempt on.
/// An owner that is alive ends the process, one that is dead has its lock removed, and after
/// that the file is created once more, but no more than twice in all. An answer to another
/// question changes nothing, and no step changes which process this is.
pub proof fn law_steps_of_the_lock(state: Acquire, event: LockEventView, owner: u32)
    requires
        state.round < 2 && state.attempt < 10,
    ensures
        acquired(state, event).own_pid == state.own_pid,
        state.step is Create ==> {
            &&& acquired(state, LockEventView::Created).step == LockStep::Finish(true)
            &&& acquired(state, LockEventView::Failed).step == LockStep::Finish(false)
            &&& acquired(state, LockEventView::Exists).step is Read
            &&& acquired(state, LockEventView::Exists).attempt == 0
            &&& acquired(state, LockEventView::Exists).round == state.round
        },
        state.step is Read ==> {
            let found = acquired(state, LockEventView::Content(decimal(owner as nat)));
            let gone = acquired(state, LockEventView::Unreadable);
            &&& owner != state.own_pid ==> found.step == LockStep::Probe(owner)
            &&& owner == state.own_pid ==> found.step is Remove
            &&& state.attempt == 0 ==> gone.step is Pause
            &&& state.attempt > 0 ==> gone.step is Remove
            &&& found.round == state.round && gone.round == state.round
            &&& gone.attempt == state.attempt
        },
        state.step is Pause ==> {
            let next = acquired(state, LockEventView::Paused);
            &&& state.attempt < 9 ==> next.step is Read && next.attempt == state.attempt + 1
            &&& state.attempt == 9 ==> next.step is Remove
            &&& next.round == state.round
        },
        state.step is Probe ==> {
            &&& acquired(state, LockEventView::Alive(true)).step == LockStep::Finish(false)
            &&& acquired(state, LockEventView::Alive(false)).step is Remove
            &&& acquired(state, LockEventView::Alive(false)).round == state.round
        },
        state.step is Remove ==> {
            let next = acquired(state, LockEventView::Removed);
            &&& state.round == 0 ==> next.step is Create && next.round == 1
            &&& state.round == 1 ==> next.step == LockStep::Finish(false)
        },
        state.step is Finish ==> acquired(state, event) == state,
        event is Created || event is Exists || event is Failed ==> state.step is Create
            || acquired(state, event) == state,
        event is Content || event is Unreadable ==> state.step is Read || acquired(state, event)
            == state,
        event is Paused ==> state.step is Pause || acquired(state, event) == state,
        event is Alive ==> state.step is Probe || acquired(state, event) == state,
        event is Removed ==> state.step is Remove || acquired(state, event) == state,
        ({
            let first = Acquire::begin(owner);
            first.own_pid == owner && first.round == 0 && first.attempt == 0 && first.step is Create
        }),
{
    law_decimal_reads_back(owner);
}

/// Whoever reads the number of a process in the lock file, however it is spelled, finds out
/// whether that process is alive, unless it is the own one: that lock is stale.
pub proof fn law_owner_is_probed(
    state: Acquire,
    before: Seq<char>,
    plus: bool,
    zeros: nat,
    owner: u32,
    after: Seq<char>,
)
    requires
        state.step is Read,
        blank(before),
        blank(after),
    ensures
        ({
            let content = spelled(before, plus, zeros, owner as nat, after);
            let next = acquired(state, LockEventView::Content(content));
            &&& owner != state.own_pid ==> next.step == LockStep::Probe(owner)
            &&& owner == state.own_pid ==> next.step is Remove
            &&& next.own_pid == state.own_pid && next.round == state.round
        }),
{
    law_number_is_read(before, plus, zeros, owner, after);
}

/// A file that holds no number yet is read again after a pause.
pub proof fn law_unwritten_lock_is_read_again(state: Acquire, content: Seq<char>)
    requires
        state.step is Read,
        forall|b: Seq<char>, plus: bool, zeros: nat, n: u32, a: Seq<char>|
            blank(b) && blank(a) ==> content != #[trigger] spelled(b, plus, zeros, n as nat, a),
    ensures
        ({
            let next = acquired(state, LockEventView::Content(content));
            next.step is Pause && next.attempt == state.attempt && next.round == state.round
        }),
{
    if trimmed_u32(content) is Some {
        law_only_numbers_are_read(content);
    }
}

/// On its way out a process removes the lock file where it holds the number of this process,
/// with white space around it or not, and leaves it where it holds anything else or cannot be
/// read.
pub proof fn law_release(content: Seq<char>, own_pid: u32)
    ensures
        releases(Some(content), own_pid) <==> exists|
            before: Seq<char>,
            plus: bool,
            zeros: nat,
            after: Seq<char>,
        |
            blank(before) && blank(after) && content == #[trigger] spelled(
                before,
                plus,
                zeros,
                own_pid as nat,
                after,
            ),
        !releases(None, own_pid),
{
    if releases(Some(content), own_pid) {
        law_only_numbers_are_read(content);
    }
    assert forall|before: Seq<char>, plus: bool, zeros: nat, after: Seq<char>|
        blank(before) && blank(after) && content == #[trigger] spelled(
            before,
            plus,
            zeros,
            own_pid as nat,
            after,
        ) implies releases(Some(content), own_pid) by {
        law_number_is_read(before, plus, zeros, own_pid, after);
    }
}

/// The lock is tried twice, its owner is read ten times, and 20 milliseconds pass between two
/// reads: an owner has a fifth of a second to write its number.
pub proof fn law_patience()
    ensures
        CREATE_ROUNDS == 2 && READ_ATTEMPTS == 10 && READ_PAUSE_MS == 20,
{
}

/// Events that look the same are the same.
pub proof fn law_event_shows_all(a: LockEvent, b: LockEvent)
    requires
        a@ == b@,
    ensures
        a is Created <==> b is Created,
        a is Exists <==> b is Exists,
        a is Failed <==> b is Failed,
        a is Content <==> b is Content,
        a is Content ==> a->Content_0@ == b->Content_0@,
        a is Unreadable <==> b is Unreadable,
        a is Paused <==> b is Paused,
        a is Alive ==> b is Alive && a->Alive_0 == b->Alive_0,
        a is Removed <==> b is Removed,
{
}

/// A process that `kill` finds counts as alive, and one that it does not find, or that it cannot
/// be asked about, as dead.
pub proof fn law_alive(kill_result: Option<i32>, r: bool)
    requires
        call_ensures(is_alive, (kill_result,), r),
    ensures
        kill_result == Some(0i32) ==> r,
        kill_result is None ==> !r,
        kill_result is Some && kill_result->0 != 0 ==> !r,
{
}

} // verus!

//! Which sessions are still running.

use vstd::prelude::*;

use crate::state::SessionInfo;
#[allow(unused_imports)]
use crate::state::SessionView;

verus! {

/// Whether a process exists, from what `kill` with signal 0 returned for it; `None` where
/// the platform has no such call, and then every process counts as alive.
pub fn is_pid_alive(kill_result: Option<i32>) -> (r: bool)
    ensures
        r == (kill_result is None || kill_result == Some(0i32)),
{
    match kill_result {
        Some(code) => code == 0,
        None => true,
    }
}

/// The sessions at which `keep` is true, in their order.
pub open spec fn kept(s: Seq<SessionView>, keep: Seq<bool>) -> Seq<SessionView>
    decreases s.len(),
{
    if s.len() == 0 {
        Seq::empty()
    } else if keep.last() {
        kept(s.drop_last(), keep.drop_last()).push(s.last())
    } else {
        kept(s.drop_last(), keep.drop_last())
    }
}

/// Whether a session stays may be `stays`: one that names its process stays if `alive`
/// answers so, and one that names none stays where the state file has no top-level
/// configuration.
pub open spec fn may_stay<F: Fn(u32) -> bool>(
    session: SessionView,
    has_modern_config: bool,
    alive: F,
    stays: bool,
) -> bool {
    match session.pid {
        Some(pid) => alive.ensures((pid,), stays),
        None => stays == !has_modern_config,
    }
}

/// `keep` says of each session whether it stays.
pub open spec fn may_keep<F: Fn(u32) -> bool>(
    s: Seq<SessionView>,
    has_modern_config: bool,
    alive: F,
    keep: Seq<bool>,
) -> bool {
    &&& keep.len() == s.len()
    &&& forall|i: int|
        0 <= i < s.len() ==> may_stay(s[i], has_modern_config, alive, #[trigger] keep[i])
}

/// Drops the sessions whose process has ended.
pub fn retain_live<F: Fn(u32) -> bool>(
    sessions: &mut Vec<SessionInfo>,
    has_modern_config: bool,
    alive: F,
)
    requires
        forall|pid: u32| alive.requires((pid,)),
    ensures
        exists|keep: Seq<bool>| #[trigger]
            may_keep(old(sessions).deep_view(), has_modern_config, alive, keep)
                && final(sessions).deep_view() == kept(old(sessions).deep_view(), keep),
{
    let ghost s = sessions.deep_view();
    let ghost mut keep: Seq<bool> = Seq::empty();
    let mut i: usize = 0;
    assert(s.take(0) =~= Seq::<SessionView>::empty());
    assert(sessions.deep_view() =~= kept(s.take(0), keep) + s.skip(0));
    while i < sessions.len()
        invariant
            forall|pid: u32| alive.requires((pid,)),
            i <= sessions.len(),
            keep.len() <= s.len(),
            i == kept(s.take(keep.len() as int), keep).len(),
            may_keep(s.take(keep.len() as int), has_modern_config, alive, keep),
            sessions.deep_view() == kept(s.take(keep.len() as int), keep) + s.skip(
                keep.len() as int,
            ),
        decreases s.len() - keep.len(),
    {
        let ghost n = keep.len() as int;
        let ghost head = kept(s.take(n), keep);
        let ghost before = sessions@;
        let ghost whole = sessions.deep_view();
        assert(sessions.deep_view()[i as int] == s[n]);
        let stays: bool = match sessions[i].pid {
            Some(pid) => alive(pid),
            None => !has_modern_config,
        };
        proof {
            assert(may_stay(s[n], has_modern_config, alive, stays));
            assert(s.take(n + 1).drop_last() =~= s.take(n));
            assert(keep.push(stays).drop_last() =~= keep);
            assert forall|j: int| 0 <= j < n + 1 implies may_stay(
                s.take(n + 1)[j],
                has_modern_config,
                alive,
                #[trigger] keep.push(stays)[j],
            ) by {
                if j < n {
                    assert(keep.push(stays)[j] == keep[j]);
                    assert(s.take(n + 1)[j] == s.take(n)[j]);
                }
            }
        }
        if stays {
            i += 1;
            assert(head + s.skip(n) =~= head.push(s[n]) + s.skip(n + 1));
        } else {
            sessions.remove(i);
            assert(sessions@ =~= before.remove(i as int));
            assert(before.len() == whole.len() && whole.len() == i + (s.len() - n));
            assert forall|j: int| 0 <= j < sessions@.len() implies #[trigger] sessions.deep_view()[j]
                == (head + s.skip(n + 1))[j] by {
                assert(whole == head + s.skip(n) && head.len() == i);
                if j < i {
                    assert(sessions.deep_view()[j] == whole[j]);
                    assert((head + s.skip(n + 1))[j] == head[j]);
                } else {
                    assert(sessions.deep_view()[j] == whole[j + 1]);
                    assert(whole[j + 1] == s.skip(n)[j + 1 - i]);
                    assert((head + s.skip(n + 1))[j] == s.skip(n + 1)[j - i]);
                }
            }
            assert(sessions.deep_view() =~= head + s.skip(n + 1));
        }
        proof {
            keep = keep.push(stays);
        }
    }
    proof {
        let n = keep.len() as int;
        assert((kept(s.take(n), keep) + s.skip(n)).len() == kept(s.take(n), keep).len());
        assert(s.skip(n).len() == 0);
        assert(s.take(n) =~= s);
        assert(kept(s, keep) + s.skip(n) =~= kept(s, keep));
    }
}

/// Where liveness is a fact about the process, the sessions that stay are exactly those that
/// name a live process, and those that name none where the state file has no top-level
/// configuration.
pub proof fn law_live_sessions_stay<F: Fn(u32) -> bool>(
    s: Seq<SessionView>,
    has_modern_config: bool,
    alive: F,
    p: spec_fn(u32) -> bool,
    keep: Seq<bool>,
)
    requires
        forall|pid: u32, b: bool| #[trigger] alive.ensures((pid,), b) ==> b == p(pid),
        may_keep(s, has_modern_config, alive, keep),
    ensures
        kept(s, keep) == s.filter(|x: SessionView| stays_by(x, has_modern_config, p)),
    decreases s.len(),
{
    reveal(Seq::filter);
    if s.len() > 0 {
        let top = s.drop_last();
        let k = keep.drop_last();
        assert forall|i: int| 0 <= i < top.len() implies may_stay(
            top[i],
            has_modern_config,
            alive,
            #[trigger] k[i],
        ) by {
            assert(k[i] == keep[i]);
        }
        law_live_sessions_stay(top, has_modern_config, alive, p, k);
        assert(may_stay(s[s.len() - 1], has_modern_config, alive, keep[s.len() - 1]));
    }
}

/// The session stays where `p` says which processes are alive.
pub open spec fn stays_by(
    session: SessionView,
    has_modern_config: bool,
    p: spec_fn(u32) -> bool,
) -> bool {
    match session.pid {
        Some(pid) => p(pid),
        None => !has_modern_config,
    }
}

/// The sessions that stay are in their order, each of them once, and no other ones: `places`
/// says where each of them stood.
pub proof fn law_kept_sessions(s: Seq<SessionView>, keep: Seq<bool>) -> (places: Seq<int>)
    requires
        keep.len() == s.len(),
    ensures
        places.len() == kept(s, keep).len(),
        forall|k: int|
            0 <= k < places.len() ==> 0 <= #[trigger] places[k] < s.len() && keep[places[k]]
                && kept(s, keep)[k] == s[places[k]],
        forall|a: int, b: int|
            0 <= a < b < places.len() ==> #[trigger] places[a] < #[trigger] places[b],
        forall|i: int| 0 <= i < s.len() && #[trigger] keep[i] ==> places.contains(i),
    decreases s.len(),
{
    if s.len() == 0 {
        Seq::empty()
    } else {
        let n = s.len() - 1;
        let k0 = keep.drop_last();
        let above = law_kept_sessions(s.drop_last(), k0);
        if keep[n] {
            let places = above.push(n);
            assert forall|k: int| 0 <= k < places.len() implies 0 <= #[trigger] places[k]
                < s.len() && keep[places[k]] && kept(s, keep)[k] == s[places[k]] by {
                if k < above.len() {
                    assert(places[k] == above[k]);
                }
            }
            assert forall|a: int, b: int| 0 <= a < b < places.len() implies #[trigger] places[a]
                < #[trigger] places[b] by {
                assert(places[a] == above[a]);
                if b < above.len() {
                    assert(places[b] == above[b]);
                }
            }
            assert forall|i: int| 0 <= i < s.len() && #[trigger] keep[i] implies places.contains(
                i,
            ) by {
                if i < n {
                    assert(k0[i]);
                    let k = choose|k: int| 0 <= k < above.len() && above[k] == i;
                    assert(places[k] == i);
                } else {
                    assert(places[above.len() as int] == i);
                }
            }
            places
        } else {
            assert forall|i: int| 0 <= i < s.len() && #[trigger] keep[i] implies above.contains(
                i,
            ) by {
                assert(k0[i]);
            }
            above
        }
    }
}

/// A session whose process is alive stays and one whose process has ended goes; one that names
/// no process goes where the state file has a top-level configuration, and stays where not.
pub proof fn law_ended_sessions_go<F: Fn(u32) -> bool>(
    s: Seq<SessionView>,
    has_modern_config: bool,
    alive: F,
    p: spec_fn(u32) -> bool,
    keep: Seq<bool>,
)
    requires
        forall|pid: u32, b: bool| #[trigger] alive.ensures((pid,), b) ==> b == p(pid),
        may_keep(s, has_modern_config, alive, keep),
    ensures
        kept(s, keep) == s.filter(
            |x: SessionView| (x.pid is Some && p(x.pid->0)) || (x.pid is None && !has_modern_config),
        ),
        forall|i: int|
            0 <= i < s.len() ==> #[trigger] keep[i] == (match s[i].pid {
                Some(pid) => p(pid),
                None => !has_modern_config,
            }),
{
    law_live_sessions_stay(s, has_modern_config, alive, p, keep);
    let f = |x: SessionView|
        (x.pid is Some && p(x.pid->0)) || (x.pid is None && !has_modern_config);
    let g = |x: SessionView| stays_by(x, has_modern_config, p);
    assert(f =~= g);
    assert forall|i: int| 0 <= i < s.len() implies #[trigger] keep[i] == (match s[i].pid {
        Some(pid) => p(pid),
        None => !has_modern_config,
    }) by {
        assert(may_stay(s[i], has_modern_config, alive, keep[i]));
    }
}

/// A session's process that `kill` finds counts as alive, and so does one that it cannot be
/// asked about; one that it does not find has ended.
pub proof fn law_pid_alive(kill_result: Option<i32>, r: bool)
    requires
        call_ensures(is_pid_alive, (kill_result,), r),
    ensures
        kill_result == Some(0i32) ==> r,
        kill_result is None ==> r,
        kill_result is Some && kill_result->0 != 0 ==> !r,
{
}

} // verus!

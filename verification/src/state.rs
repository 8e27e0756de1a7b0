//! What the state file tells the companion: the sessions, their configuration and the
//! window positions that were saved.

use vstd::prelude::*;

verus! {

/// How the companion is configured.
#[derive(Debug, PartialEq, Eq)]
pub struct CompanionConfigState {
    pub enabled: bool,
    /// The corner of the screen that the window stands in.
    pub position: String,
    /// The name of the size preset.
    pub size: String,
    pub gif_pack: String,
    pub loop_style: String,
    /// The speed of the animation, as the animation player normalized it: the bits of a
    /// single-precision number.
    pub speed_bits: u32,
}

/// A configuration by the characters in it.
pub struct ConfigView {
    pub enabled: bool,
    pub position: Seq<char>,
    pub size: Seq<char>,
    pub gif_pack: Seq<char>,
    pub loop_style: Seq<char>,
    pub speed_bits: u32,
}

impl View for CompanionConfigState {
    type V = ConfigView;

    open spec fn view(&self) -> ConfigView {
        ConfigView {
            enabled: self.enabled,
            position: self.position@,
            size: self.size@,
            gif_pack: self.gif_pack@,
            loop_style: self.loop_style@,
            speed_bits: self.speed_bits,
        }
    }
}

impl DeepView for CompanionConfigState {
    type V = ConfigView;

    open spec fn deep_view(&self) -> ConfigView {
        self@
    }
}

impl Clone for CompanionConfigState {
    fn clone(&self) -> (r: Self)
        ensures
            r@ == self@,
    {
        CompanionConfigState {
            enabled: self.enabled,
            position: self.position.clone(),
            size: self.size.clone(),
            gif_pack: self.gif_pack.clone(),
            loop_style: self.loop_style.clone(),
            speed_bits: self.speed_bits,
        }
    }
}

/// A running session.
#[derive(Debug, PartialEq, Eq)]
pub struct SessionInfo {
    pub session_id: String,
    /// The directory that the session works in.
    pub cwd: String,
    pub active_agents: Vec<String>,
    pub status: String,
    /// The process of the session, where the session names it.
    pub pid: Option<u32>,
    pub active_agent: Option<String>,
    pub config: Option<CompanionConfigState>,
}

/// A session by the characters in it.
pub struct SessionView {
    pub session_id: Seq<char>,
    pub cwd: Seq<char>,
    pub active_agents: Seq<Seq<char>>,
    pub status: Seq<char>,
    pub pid: Option<u32>,
    pub active_agent: Option<Seq<char>>,
    pub config: Option<ConfigView>,
}

impl View for SessionInfo {
    type V = SessionView;

    open spec fn view(&self) -> SessionView {
        SessionView {
            session_id: self.session_id@,
            cwd: self.cwd@,
            active_agents: self.active_agents.deep_view(),
            status: self.status@,
            pid: self.pid,
            active_agent: self.active_agent.deep_view(),
            config: self.config.deep_view(),
        }
    }
}

impl DeepView for SessionInfo {
    type V = SessionView;

    open spec fn deep_view(&self) -> SessionView {
        self@
    }
}

impl Clone for SessionInfo {
    fn clone(&self) -> (r: Self)
        ensures
            r@ == self@,
    {
        let r = SessionInfo {
            session_id: self.session_id.clone(),
            cwd: self.cwd.clone(),
            active_agents: self.active_agents.clone(),
            status: self.status.clone(),
            pid: self.pid,
            active_agent: self.active_agent.clone(),
            config: self.config.clone(),
        };
        assert(r.active_agents.deep_view() =~= self.active_agents.deep_view());
        r
    }
}

/// A position of the window, in sub-point units (see `geometry::POINT`).
///
/// `geometry::NOT_A_NUMBER`, the coordinate after it and `i64::MAX` stand for coordinates that
/// are not finite.
#[derive(Clone, Copy, Debug, PartialEq, Eq, Structural)]
pub struct WindowPositionState {
    pub x: i64,
    pub y: i64,
}

/// A window position that was saved, and the key that it was saved under.
#[derive(Debug, PartialEq, Eq)]
pub struct SavedWindow {
    pub key: String,
    pub position: WindowPositionState,
}

impl DeepView for SavedWindow {
    type V = (Seq<char>, WindowPositionState);

    open spec fn deep_view(&self) -> (Seq<char>, WindowPositionState) {
        (self.key@, self.position)
    }
}

/// The contents of the state file. No two saved positions have the same key.
#[derive(Debug, PartialEq, Eq)]
pub struct CompanionState {
    pub sessions: Vec<SessionInfo>,
    pub config: Option<CompanionConfigState>,
    pub window_positions: Vec<SavedWindow>,
}

/// The state file by the characters in it.
pub struct StateView {
    pub sessions: Seq<SessionView>,
    pub config: Option<ConfigView>,
    pub window_positions: Seq<(Seq<char>, WindowPositionState)>,
}

impl View for CompanionState {
    type V = StateView;

    open spec fn view(&self) -> StateView {
        StateView {
            sessions: self.sessions.deep_view(),
            config: self.config.deep_view(),
            window_positions: self.window_positions.deep_view(),
        }
    }
}

// ---- laws ----

/// Configurations that look the same hold the same.
pub proof fn law_config_shows_all(a: CompanionConfigState, b: CompanionConfigState)
    requires
        a@ == b@,
    ensures
        a.enabled == b.enabled && a.position@ == b.position@ && a.size@ == b.size@,
        a.gif_pack@ == b.gif_pack@ && a.loop_style@ == b.loop_style@,
        a.speed_bits == b.speed_bits,
{
}

/// Sessions that look the same hold the same.
pub proof fn law_session_shows_all(a: SessionInfo, b: SessionInfo)
    requires
        a@ == b@,
    ensures
        a.session_id@ == b.session_id@ && a.cwd@ == b.cwd@ && a.status@ == b.status@,
        a.pid == b.pid,
        a.active_agents.len() == b.active_agents.len(),
        forall|i: int|
            0 <= i < a.active_agents.len() ==> (#[trigger] a.active_agents@[i])@
                == b.active_agents@[i]@,
        a.active_agent is Some <==> b.active_agent is Some,
        a.active_agent is Some ==> a.active_agent->0@ == b.active_agent->0@,
        a.config is Some <==> b.config is Some,
        a.config is Some ==> a.config->0@ == b.config->0@,
{
    assert(a.active_agents.deep_view() == b.active_agents.deep_view());
    assert(a.active_agents.deep_view().len() == a.active_agents.len());
    assert(b.active_agents.deep_view().len() == b.active_agents.len());
    assert forall|i: int| 0 <= i < a.active_agents.len() implies (#[trigger] a.active_agents@[i])@
        == b.active_agents@[i]@ by {
        assert(a.active_agents.deep_view()[i] == a.active_agents@[i]@);
        assert(b.active_agents.deep_view()[i] == b.active_agents@[i]@);
    }
}

/// State files that look the same hold the same.
pub proof fn law_state_shows_all(a: CompanionState, b: CompanionState)
    requires
        a@ == b@,
    ensures
        a.sessions.len() == b.sessions.len(),
        forall|i: int| 0 <= i < a.sessions.len() ==> (#[trigger] a.sessions@[i])@ == b.sessions@[i]@,
        a.config is Some <==> b.config is Some,
        a.config is Some ==> a.config->0@ == b.config->0@,
        a.window_positions.len() == b.window_positions.len(),
        forall|i: int|
            0 <= i < a.window_positions.len() ==> (#[trigger] a.window_positions@[i]).key@
                == b.window_positions@[i].key@ && a.window_positions@[i].position
                == b.window_positions@[i].position,
{
    let (x, y) = (a.sessions.deep_view(), b.sessions.deep_view());
    assert(x.len() == a.sessions.len() && y.len() == b.sessions.len());
    assert forall|i: int| 0 <= i < a.sessions.len() implies (#[trigger] a.sessions@[i])@
        == b.sessions@[i]@ by {
        assert(x[i] == a.sessions@[i]@ && y[i] == b.sessions@[i]@);
    }
    let (u, v) = (a.window_positions.deep_view(), b.window_positions.deep_view());
    assert(u.len() == a.window_positions.len() && v.len() == b.window_positions.len());
    assert forall|i: int| 0 <= i < a.window_positions.len() implies (
    #[trigger] a.window_positions@[i]).key@ == b.window_positions@[i].key@
        && a.window_positions@[i].position == b.window_positions@[i].position by {
        assert(u[i] == a.window_positions@[i].deep_view());
        assert(v[i] == b.window_positions@[i].deep_view());
    }
}

} // verus!

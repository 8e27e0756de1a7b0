//! The window's state, and what it decides from one frame to the next.
//!
//! The caller reads the state file, the pointer and the monitor, hands them in, and performs
//! what comes back: it draws, moves the window, writes the position.

use vstd::prelude::*;
use vstd::string::*;

use crate::config::{apply_config, config_global, config_key, same_key, ConfigKey};
#[allow(unused_imports)]
use crate::config::{
    effective_config, gif_pack_under, loop_style_under, opt_config_view, opt_key_of,
    opt_key_view, position_under, size_under, speed_under, KeyView, DEFAULT_SIZE,
    DEFAULT_SPEED_BITS,
};
use crate::drawing::{agents_by_row, content_signature, max_agents};
#[allow(unused_imports)]
use crate::drawing::{
    all_row_agents, law_row_agents, law_widest_row, shown, signature_of, widest,
    MAX_AGENTS_PER_ROW,
};
use crate::geometry::{
    desired_position, fitting_rows, is_finite_coord, list_layout, round_to_i32, round_to_u32,
    ListLayout, POINT,
};
#[allow(unused_imports)]
use crate::geometry::{
    clamped, desired, finite_coord, height_of, label_of, law_rows_fit, nearest_point,
    point_on_scale, row_height_of, rows_that_fit, thumb_of, whole_coord, width_of,
};
use crate::liveness::retain_live;
#[allow(unused_imports)]
use crate::liveness::{kept, law_ended_sessions_go, may_keep};
use crate::picker::{open_menu, MenuState};
#[allow(unused_imports)]
use crate::picker::{is_preset, menu_after_release};
use crate::rows::ordered_sessions;
#[allow(unused_imports)]
use crate::rows::{ordered_rows, MAX_ROWS};
use crate::state::{CompanionState, SavedWindow, SessionInfo, WindowPositionState};
#[allow(unused_imports)]
use crate::state::{SessionView, StateView};
use crate::text::same_text;

verus! {

/// The key that the position of the window is saved under. The window is global, so there is
/// one saved position.
pub const GLOBAL_POSITION_KEY: &'static str = "__companion_window__";

// ---- the geometry that was applied last ----

/// Everything that the size and the position of the window depend on.
#[derive(Debug, PartialEq, Eq)]
pub struct WindowGeometryKey {
    pub position: String,
    pub custom_x: Option<i32>,
    pub custom_y: Option<i32>,
    pub size_px: u32,
    pub win_w: u32,
    pub win_h: u32,
    pub screen_w: u32,
    pub screen_h: u32,
}

/// A geometry key by the characters in it.
pub struct GeometryView {
    pub position: Seq<char>,
    pub custom_x: Option<i32>,
    pub custom_y: Option<i32>,
    pub size_px: u32,
    pub win_w: u32,
    pub win_h: u32,
    pub screen_w: u32,
    pub screen_h: u32,
}

impl View for WindowGeometryKey {
    type V = GeometryView;

    open spec fn view(&self) -> GeometryView {
        GeometryView {
            position: self.position@,
            custom_x: self.custom_x,
            custom_y: self.custom_y,
            size_px: self.size_px,
            win_w: self.win_w,
            win_h: self.win_h,
            screen_w: self.screen_w,
            screen_h: self.screen_h,
        }
    }
}

impl DeepView for WindowGeometryKey {
    type V = GeometryView;

    open spec fn deep_view(&self) -> GeometryView {
        self@
    }
}

fn same_option(a: Option<i32>, b: Option<i32>) -> (r: bool)
    ensures
        r == (a == b),
{
    match (a, b) {
        (Some(x), Some(y)) => x == y,
        (None, None) => true,
        _ => false,
    }
}

/// Whether the geometry `b` is the one that was applied.
fn is_applied(a: &Option<WindowGeometryKey>, b: &WindowGeometryKey) -> (r: bool)
    ensures
        r == (a.deep_view() == Some(b@)),
{
    match a {
        Some(a) => a.position == b.position && same_option(a.custom_x, b.custom_x) && same_option(
            a.custom_y,
            b.custom_y,
        ) && a.size_px == b.size_px && a.win_w == b.win_w && a.win_h == b.win_h && a.screen_w
            == b.screen_w && a.screen_h == b.screen_h,
        None => false,
    }
}

// ---- the state of the window ----

/// The window that lists the sessions.
#[derive(Debug)]
pub struct CompanionApp {
    sessions: Vec<SessionInfo>,
    registered: bool,
    size: u32,
    gif_pack: String,
    loop_style: String,
    speed_bits: u32,
    screen: [i64; 2],
    position: String,
    has_modern_config: bool,
    applied_config: Option<ConfigKey>,
    applied_geometry: Option<WindowGeometryKey>,
    last_logged_signature: Option<String>,
    saved_position: Option<WindowPositionState>,
    dragging: bool,
    niri_generation: u64,
}

/// The state of the window by the characters in it.
pub struct AppView {
    /// The sessions that run.
    pub sessions: Seq<SessionView>,
    /// The window has drawn a frame.
    pub registered: bool,
    /// The size preset, in points.
    pub size: u32,
    pub gif_pack: Seq<char>,
    pub loop_style: Seq<char>,
    pub speed_bits: u32,
    /// The extent of the monitor, in sub-point units.
    pub screen: [i64; 2],
    /// The corner that the window stands in.
    pub position: Seq<char>,
    /// The state file has a top-level configuration.
    pub has_modern_config: bool,
    /// The configuration that is in force.
    pub applied_config: Option<KeyView>,
    /// The geometry that the window has.
    pub applied_geometry: Option<GeometryView>,
    /// The content that was logged last.
    pub last_logged_signature: Option<Seq<char>>,
    /// Where the user dragged the window.
    pub saved_position: Option<WindowPositionState>,
    /// The user is dragging the window.
    pub dragging: bool,
    /// The number of the latest request to the compositor, so that an older one can be told
    /// from it.
    pub niri_generation: u64,
}

impl View for CompanionApp {
    type V = AppView;

    closed spec fn view(&self) -> AppView {
        AppView {
            sessions: self.sessions.deep_view(),
            registered: self.registered,
            size: self.size,
            gif_pack: self.gif_pack@,
            loop_style: self.loop_style@,
            speed_bits: self.speed_bits,
            screen: self.screen,
            position: self.position@,
            has_modern_config: self.has_modern_config,
            applied_config: self.applied_config.deep_view(),
            applied_geometry: self.applied_geometry.deep_view(),
            last_logged_signature: self.last_logged_signature.deep_view(),
            saved_position: self.saved_position,
            dragging: self.dragging,
            niri_generation: self.niri_generation,
        }
    }
}

impl AppView {
    /// What the configuration in force decides is set as it says. The size is not among it:
    /// the user can pick another one.
    pub open spec fn wf(self) -> bool {
        &&& self.position == position_under(self.applied_config)
        &&& self.gif_pack == gif_pack_under(self.applied_config)
        &&& self.loop_style == loop_style_under(self.applied_config)
        &&& self.speed_bits == speed_under(self.applied_config)
        &&& point_on_scale(self.screen)
    }
}

/// The position that was saved for the window.
pub open spec fn saved_for_window(
    positions: Seq<(Seq<char>, WindowPositionState)>,
) -> Option<WindowPositionState>
    decreases positions.len(),
{
    if positions.len() == 0 {
        None
    } else if positions[0].0 == GLOBAL_POSITION_KEY@ {
        Some(positions[0].1)
    } else {
        saved_for_window(positions.drop_first())
    }
}

/// Looks up the position that was saved for the window.
pub fn global_position(positions: &Vec<SavedWindow>) -> (r: Option<WindowPositionState>)
    ensures
        r == saved_for_window(positions.deep_view()),
{
    let ghost all = positions.deep_view();
    assert(all.skip(0) =~= all);
    let mut i: usize = 0;
    while i < positions.len()
        invariant
            i <= positions.len(),
            all == positions.deep_view(),
            saved_for_window(all) == saved_for_window(all.skip(i as int)),
        decreases positions.len() - i,
    {
        assert(all.skip(i as int)[0] == positions@[i as int].deep_view());
        if same_text(positions[i].key.as_str(), GLOBAL_POSITION_KEY) {
            return Some(positions[i].position);
        }
        assert(all.skip(i as int).drop_first() =~= all.skip(i + 1));
        i += 1;
    }
    None
}

// ---- starting, and following the state file ----

/// The configuration key that a state file puts in force.
pub open spec fn key_in(state: StateView) -> Option<KeyView> {
    opt_key_of(effective_config(state.sessions, state.config))
}

/// The window before its first frame.
pub open spec fn opened(state: StateView, screen: [i64; 2]) -> AppView {
    let key = key_in(state);
    AppView {
        sessions: state.sessions,
        registered: false,
        size: size_under(key),
        gif_pack: gif_pack_under(key),
        loop_style: loop_style_under(key),
        speed_bits: speed_under(key),
        screen,
        position: position_under(key),
        has_modern_config: state.config is Some,
        applied_config: key,
        applied_geometry: None,
        last_logged_signature: None,
        saved_position: saved_for_window(state.window_positions),
        dragging: false,
        niri_generation: 0,
    }
}

/// The window after the state file has changed. A configuration that differs from the one in
/// force is applied as a whole, the size with it; one that does not leaves everything as it
/// is, a size that the user picked too.
pub open spec fn refreshed(app: AppView, state: StateView) -> AppView {
    let key = key_in(state);
    let changed = app.applied_config != key;
    AppView {
        sessions: state.sessions,
        size: if changed {
            size_under(key)
        } else {
            app.size
        },
        gif_pack: gif_pack_under(key),
        loop_style: loop_style_under(key),
        speed_bits: speed_under(key),
        position: position_under(key),
        has_modern_config: state.config is Some,
        applied_config: key,
        saved_position: saved_for_window(state.window_positions),
        ..app
    }
}

impl CompanionApp {
    /// The window for what the state file holds, on a screen of the given extent.
    pub fn new(state: CompanionState, screen: [i64; 2]) -> (r: CompanionApp)
        requires
            point_on_scale(screen),
        ensures
            r@ == opened(state@, screen),
            r@.wf(),
    {
        let saved_position = global_position(&state.window_positions);
        let mut size: u32 = DEFAULT_SIZE;
        let mut position = "bottom-right".to_owned();
        let mut gif_pack = "default".to_owned();
        let mut loop_style = "classic".to_owned();
        let mut speed_bits: u32 = DEFAULT_SPEED_BITS;
        let has_modern_config: bool = state.config.is_some();
        let listed: &[SessionInfo] = state.sessions.as_slice();
        assert(listed.deep_view() =~= state.sessions.deep_view());
        let applied_config = config_key(config_global(listed, state.config.as_ref()));
        apply_config(
            applied_config.as_ref(),
            &mut position,
            &mut size,
            &mut gif_pack,
            &mut loop_style,
            &mut speed_bits,
        );
        CompanionApp {
            sessions: state.sessions,
            registered: false,
            size,
            gif_pack,
            loop_style,
            speed_bits,
            screen,
            position,
            has_modern_config,
            applied_config,
            applied_geometry: None,
            last_logged_signature: None,
            saved_position,
            dragging: false,
            niri_generation: 0,
        }
    }
}

/// The window while the state file does not change: the sessions that `alive` does not keep are
/// gone, and nothing else has changed.
pub open spec fn lives_on<F: Fn(u32) -> bool>(before: AppView, alive: F, after: AppView) -> bool {
    &&& after == (AppView { sessions: after.sessions, ..before })
    &&& exists|keep: Seq<bool>| #[trigger]
        may_keep(before.sessions, before.has_modern_config, alive, keep) && after.sessions == kept(
            before.sessions,
            keep,
        )
}

impl CompanionApp {
    /// Follows the state file: takes over what it holds where it has changed, else drops the
    /// sessions whose process has ended. Returns whether another configuration came in force.
    pub fn poll<F: Fn(u32) -> bool>(&mut self, update: Option<CompanionState>, alive: F) -> (r:
        bool)
        requires
            old(self)@.wf(),
            forall|pid: u32| alive.requires((pid,)),
        ensures
            final(self)@.wf(),
            update matches Some(state) ==> final(self)@ == refreshed(old(self)@, state@) && r == (
            old(self)@.applied_config != key_in(state@)),
            update matches Some(state) ==> {
                &&& final(self)@.sessions == state.sessions.deep_view()
                &&& final(self)@.has_modern_config == (state.config is Some)
                &&& final(self)@.saved_position == saved_for_window(
                    state.window_positions.deep_view(),
                )
                &&& final(self)@.dragging == old(self)@.dragging
            },
            update is None ==> !r && lives_on(old(self)@, alive, final(self)@),
            update is None ==> !r && final(self)@ == (AppView {
                sessions: final(self)@.sessions,
                ..old(self)@
            }) && exists|keep: Seq<bool>| #[trigger]
                may_keep(old(self)@.sessions, old(self)@.has_modern_config, alive, keep)
                    && final(self)@.sessions == kept(old(self)@.sessions, keep),
    {
        match update {
            Some(state) => {
                let listed: &[SessionInfo] = state.sessions.as_slice();
                assert(listed.deep_view() =~= state.sessions.deep_view());
                let next_config = config_key(config_global(listed, state.config.as_ref()));
                self.saved_position = global_position(&state.window_positions);
                self.has_modern_config = state.config.is_some();
                self.sessions = state.sessions;
                let config_changed: bool = !same_key(&self.applied_config, &next_config);
                if config_changed {
                    apply_config(
                        next_config.as_ref(),
                        &mut self.position,
                        &mut self.size,
                        &mut self.gif_pack,
                        &mut self.loop_style,
                        &mut self.speed_bits,
                    );
                    self.applied_config = next_config;
                }
                config_changed
            },
            None => {
                let ghost before = self.sessions.deep_view();
                let has_modern: bool = self.has_modern_config;
                retain_live(&mut self.sessions, has_modern, alive);
                proof {
                    let keep = choose|keep: Seq<bool>| #[trigger]
                        may_keep(before, has_modern, alive, keep) && self.sessions.deep_view()
                            == kept(before, keep);
                    assert(may_keep(
                        old(self)@.sessions,
                        old(self)@.has_modern_config,
                        alive,
                        keep,
                    ));
                }
                false
            },
        }
    }
}

// ---- one frame ----

/// What the caller reads at the start of a frame.
#[derive(Clone, Copy, Debug)]
pub struct FrameInput {
    /// The user has asked to close the window.
    pub quit: bool,
    /// The extent of the monitor, where it is known.
    pub monitor_size: Option<[i64; 2]>,
    /// The size that is stored for the picker, where one is.
    pub stored_size: Option<u32>,
    pub menu: MenuState,
    pub primary_pressed: bool,
    pub primary_down: bool,
    pub primary_released: bool,
    pub secondary_released: bool,
    /// The pointer, where it is known, from the top left of the window.
    pub cursor: Option<[i64; 2]>,
    /// The position of the window, where it is known.
    pub outer: Option<WindowPositionState>,
}

impl FrameInput {
    /// The extent of the monitor is one that the library reckons with.
    pub open spec fn wf(self) -> bool {
        self.monitor_size matches Some(size) ==> point_on_scale(size)
    }
}

/// The window is to get another size or position.
#[derive(Clone, Copy, Debug, PartialEq, Eq)]
pub struct WindowMove {
    /// Its extent, in sub-point units.
    pub win: [i64; 2],
    /// Its position.
    pub to: WindowPositionState,
    /// The position is the saved one, unchanged.
    pub keeps_saved: bool,
}

/// What the caller does in a frame that lists sessions, in the order of the fields.
#[derive(Debug)]
pub struct ListPlan {
    /// The size to store for the picker.
    pub store_size: Option<u32>,
    pub rows: Vec<SessionInfo>,
    pub layout: ListLayout,
    /// The extent of the window, in sub-point units.
    pub win: [i64; 2],
    /// The content to log, where it has changed.
    pub log: Option<String>,
    pub moved: Option<WindowMove>,
    /// The window follows the pointer from here on.
    pub start_drag: bool,
    /// The position to save.
    pub save_position: Option<WindowPositionState>,
    pub menu: MenuState,
    /// The agents whose animations each row plays.
    pub agents: Vec<Vec<String>>,
}

/// What the caller does in a frame.
#[derive(Debug)]
pub enum FramePlan {
    /// Close the window.
    Close,
    /// Say that there is no active session, after storing the size for the picker.
    Waiting(Option<u32>),
    /// Draw the list.
    List(ListPlan),
}

/// A list plan by the characters in it.
pub struct ListPlanView {
    pub store_size: Option<u32>,
    pub rows: Seq<SessionView>,
    pub layout: ListLayout,
    pub win: [i64; 2],
    pub log: Option<Seq<char>>,
    pub moved: Option<WindowMove>,
    pub start_drag: bool,
    pub save_position: Option<WindowPositionState>,
    pub menu: MenuState,
    pub agents: Seq<Seq<Seq<char>>>,
}

/// A plan by the characters in it.
pub enum PlanView {
    Close,
    Waiting(Option<u32>),
    List(ListPlanView),
}

impl View for FramePlan {
    type V = PlanView;

    open spec fn view(&self) -> PlanView {
        match *self {
            FramePlan::Close => PlanView::Close,
            FramePlan::Waiting(size) => PlanView::Waiting(size),
            FramePlan::List(plan) => PlanView::List(
                ListPlanView {
                    store_size: plan.store_size,
                    rows: plan.rows.deep_view(),
                    layout: plan.layout,
                    win: plan.win,
                    log: plan.log.deep_view(),
                    moved: plan.moved,
                    start_drag: plan.start_drag,
                    save_position: plan.save_position,
                    menu: plan.menu,
                    agents: plan.agents.deep_view(),
                },
            ),
        }
    }
}

/// The window once the monitor's extent is read. An extent of a point or less in either
/// direction does not count.
pub open spec fn on_monitor(app: AppView, monitor_size: Option<[i64; 2]>) -> AppView {
    match monitor_size {
        Some(size) if POINT < size@[0] && POINT < size@[1] => AppView { screen: size, ..app },
        _ => app,
    }
}

/// The window closes: the user asked for it, or the last session has ended.
pub open spec fn closes(app: AppView, quit: bool) -> bool {
    quit || (app.registered && app.sessions.len() == 0)
}

/// The size that is stored for the picker: in the first frame and whenever another
/// configuration has come in force.
pub open spec fn stored_anew(app: AppView, config_changed: bool) -> Option<u32> {
    if !app.registered || config_changed {
        Some(app.size)
    } else {
        None
    }
}

/// The window once it has drawn a frame, with the size that is stored for the picker.
pub open spec fn settled(
    app: AppView,
    config_changed: bool,
    stored_size: Option<u32>,
) -> AppView {
    AppView {
        registered: true,
        size: if stored_anew(app, config_changed) is Some {
            app.size
        } else {
            match stored_size {
                Some(size) => size,
                None => app.size,
            }
        },
        ..app
    }
}

/// The measures of a list.
pub open spec fn layout_of(rows: Seq<SessionView>, size: u32) -> ListLayout {
    let thumb = thumb_of(size as int);
    ListLayout {
        win_w: width_of(widest(rows), size as int) as u128,
        win_h: height_of(rows.len() as int, size as int) as u128,
        thumb: thumb as u64,
        label_h: label_of(thumb) as u64,
        row_h: (thumb + label_of(thumb)) as u64,
    }
}

/// The sessions that the window draws: the first of the list, as many as there is room for on
/// a screen of the given height.
pub open spec fn drawn_rows(sessions: Seq<SessionView>, screen_h: i64, size: u32) -> Seq<
    SessionView,
> {
    let all = ordered_rows(sessions);
    let room = rows_that_fit(screen_h as int, row_height_of(size as int));
    if all.len() <= room {
        all
    } else {
        all.take(room)
    }
}

/// The extent of the window around a list, in sub-point units. It is no taller than the
/// screen, though a single row were.
pub open spec fn extent_of(layout: ListLayout, screen_h: i64) -> [i64; 2] {
    let h = layout.win_h * POINT;
    [
        (layout.win_w * POINT) as i64,
        if 0 < screen_h < h {
            screen_h
        } else {
            h as i64
        },
    ]
}

/// A coordinate in whole points, for the geometry key.
pub open spec fn custom(v: i64) -> i32 {
    whole_coord(v as int) as i32
}

/// An extent in whole points, for the geometry key.
pub open spec fn whole_points(v: i64) -> u32 {
    clamped(nearest_point(v as int), 0, u32::MAX as int) as u32
}

/// Everything that the size and the position of the window depend on. Neither the status of
/// a session nor the names of its agents are among it: the window would flicker at each of
/// their changes.
pub open spec fn geometry_of(app: AppView, win: [i64; 2]) -> GeometryView {
    GeometryView {
        position: app.position,
        custom_x: match app.saved_position {
            Some(pos) => Some(custom(pos.x)),
            None => None,
        },
        custom_y: match app.saved_position {
            Some(pos) => Some(custom(pos.y)),
            None => None,
        },
        size_px: app.size,
        win_w: whole_points(win@[0]),
        win_h: whole_points(win@[1]),
        screen_w: whole_points(app.screen@[0]),
        screen_h: whole_points(app.screen@[1]),
    }
}

/// How the window gets the extent of the list and goes where it belongs.
pub open spec fn move_of(app: AppView, win: [i64; 2]) -> WindowMove {
    let (x, y) = desired(app.position, app.saved_position, app.screen, win);
    let to = WindowPositionState { x: x as i64, y: y as i64 };
    WindowMove { win, to, keeps_saved: app.saved_position == Some(to) }
}

/// The user drags the window, once the presses of this frame are seen. A press while the
/// menu is open is for the menu.
pub open spec fn drags(app: AppView, input: FrameInput) -> bool {
    app.dragging || (!input.menu.open && input.primary_pressed)
}

/// The frame of a window that lists sessions.
pub open spec fn listed(
    app: AppView,
    store_size: Option<u32>,
    input: FrameInput,
) -> (AppView, ListPlanView) {
    let rows = drawn_rows(app.sessions, app.screen@[1], app.size);
    let layout = layout_of(rows, app.size);
    let win = extent_of(layout, app.screen@[1]);
    let geometry = geometry_of(app, win);
    let signature = signature_of(rows);
    (
        AppView {
            applied_geometry: Some(geometry),
            last_logged_signature: Some(signature),
            dragging: drags(app, input) && !input.primary_released,
            ..app
        },
        ListPlanView {
            store_size,
            rows,
            layout,
            win,
            log: if app.last_logged_signature == Some(signature) {
                None
            } else {
                Some(signature)
            },
            moved: if app.applied_geometry == Some(geometry) {
                None
            } else {
                Some(move_of(app, win))
            },
            start_drag: drags(app, input) && input.primary_down,
            save_position: if drags(app, input) && input.primary_released {
                input.outer
            } else {
                None
            },
            menu: menu_after_release(input.menu, input.secondary_released, input.cursor),
            agents: all_row_agents(rows),
        },
    )
}

/// The window after a frame, and what the caller does in it.
pub open spec fn frame(app: AppView, config_changed: bool, input: FrameInput) -> (
    AppView,
    PlanView,
) {
    let seen = on_monitor(app, input.monitor_size);
    if closes(seen, input.quit) {
        (seen, PlanView::Close)
    } else {
        let store_size = stored_anew(seen, config_changed);
        let ready = settled(seen, config_changed, input.stored_size);
        if ready.sessions.len() == 0 {
            (ready, PlanView::Waiting(store_size))
        } else {
            let (after, plan) = listed(ready, store_size, input);
            (after, PlanView::List(plan))
        }
    }
}

proof fn lemma_list_fits(rows: int, agents: int, size: u32)
    requires
        0 <= rows <= MAX_ROWS,
        1 <= agents <= MAX_AGENTS_PER_ROW,
    ensures
        0 <= width_of(agents, size as int) <= 0x8_0000_0000,
        0 <= height_of(rows, size as int) <= 0x10_0000_0000,
{
    let t = thumb_of(size as int);
    let h = t + label_of(t);
    let n = crate::geometry::at_least_one(rows);
    assert(0 <= t * agents <= 0x8_0000_0000) by (nonlinear_arith)
        requires
            0 <= t <= 0x1_0000_0000,
            1 <= agents <= 5,
    ;
    assert(0 <= h * n <= 0x10_0000_0000) by (nonlinear_arith)
        requires
            0 <= h <= 0x2_0000_0000,
            1 <= n <= 8,
    ;
}

/// The window around the rows that are drawn is no taller than the screen.
proof fn lemma_window_fits(sessions: Seq<SessionView>, screen_h: i64, size: u32)
    requires
        sessions.len() > 0,
    ensures
        ({
            let rows = drawn_rows(sessions, screen_h, size);
            let layout = layout_of(rows, size);
            let win = extent_of(layout, screen_h);
            &&& 1 <= rows.len() <= MAX_ROWS
            &&& layout.win_w == width_of(widest(rows), size as int)
            &&& layout.win_h == height_of(rows.len() as int, size as int)
            &&& 0 <= layout.win_w <= 0x8_0000_0000
            &&& 0 <= layout.win_h <= 0x10_0000_0000
            &&& 0 < screen_h ==> win@[1] <= screen_h
            &&& rows.len() > 1 ==> win@[1] == layout.win_h * POINT && win@[1] <= screen_h
            &&& point_on_scale(win)
        }),
{
    let rows = drawn_rows(sessions, screen_h, size);
    law_rows_fit(screen_h as int, size as int);
    lemma_widest_bounds(rows);
    lemma_list_fits(rows.len() as int, widest(rows), size);
}

impl CompanionApp {
    /// Takes over the monitor's extent, where it is known and more than a point.
    pub fn update_screen_from_ctx(&mut self, monitor_size: Option<[i64; 2]>)
        ensures
            final(self)@ == on_monitor(old(self)@, monitor_size),
            old(self)@.wf() && (monitor_size matches Some(size) ==> point_on_scale(size))
                ==> final(self)@.wf(),
    {
        if let Some(size) = monitor_size {
            if POINT < size[0] && POINT < size[1] {
                self.screen = size;
            }
        }
    }

    /// Settles the size of this frame. Configuration and state are the source of truth; a
    /// size that the user picked stays until another configuration comes in force.
    fn settle_size(&mut self, config_changed: bool, stored_size: Option<u32>) -> (r: Option<u32>)
        ensures
            final(self)@ == settled(old(self)@, config_changed, stored_size),
            r == stored_anew(old(self)@, config_changed),
    {
        if !self.registered || config_changed {
            self.registered = true;
            Some(self.size)
        } else {
            if let Some(size) = stored_size {
                self.size = size;
            }
            None
        }
    }

    fn geometry_key(&self, win: [i64; 2]) -> (r: WindowGeometryKey)
        ensures
            r@ == geometry_of(self@, win),
    {
        let (custom_x, custom_y): (Option<i32>, Option<i32>) = match self.saved_position {
            Some(pos) => (Some(round_to_i32(pos.x)), Some(round_to_i32(pos.y))),
            None => (None, None),
        };
        WindowGeometryKey {
            position: self.position.clone(),
            custom_x,
            custom_y,
            size_px: self.size,
            win_w: round_to_u32(win[0]),
            win_h: round_to_u32(win[1]),
            screen_w: round_to_u32(self.screen[0]),
            screen_h: round_to_u32(self.screen[1]),
        }
    }

    /// The sessions to draw.
    fn drawn_sessions(&self) -> (r: Vec<SessionInfo>)
        ensures
            r.deep_view() == drawn_rows(self@.sessions, self@.screen@[1], self@.size),
            r.len() <= MAX_ROWS,
    {
        let all: &[SessionInfo] = self.sessions.as_slice();
        assert(all.deep_view() =~= self.sessions.deep_view());
        let mut rows = ordered_sessions(all);
        let room: usize = fitting_rows(self.screen[1], list_layout(1, 1, self.size).row_h);
        let ghost ordered = rows.deep_view();
        if rows.len() > room {
            rows.truncate(room);
            assert(rows.deep_view() =~= ordered.take(room as int));
        }
        rows
    }

    /// Measures the list of the rows that are drawn, and the window around it.
    fn measure(&self, rows: &Vec<SessionInfo>) -> (r: (ListLayout, [i64; 2]))
        requires
            self@.sessions.len() > 0,
            rows.deep_view() == drawn_rows(self@.sessions, self@.screen@[1], self@.size),
        ensures
            r.0 == layout_of(rows.deep_view(), self@.size),
            r.1 == extent_of(r.0, self@.screen@[1]),
            point_on_scale(r.1),
            1 <= rows.len() <= MAX_ROWS,
            r.1@[1] <= self@.screen@[1] || rows.len() == 1,
            0 < self@.screen@[1] ==> r.1@[1] <= self@.screen@[1],
    {
        let agents_wide: usize = max_agents(rows);
        let layout = list_layout(rows.len(), agents_wide, self.size);
        proof {
            assert(rows.deep_view().len() == rows.len());
            assert(layout == layout_of(rows.deep_view(), self.size));
            lemma_window_fits(self@.sessions, self.screen@[1], self.size);
        }
        let h: i64 = (layout.win_h as i64) * POINT;
        let screen_h: i64 = self.screen[1];
        let win_h: i64 = if 0 < screen_h && screen_h < h {
            screen_h
        } else {
            h
        };
        let win: [i64; 2] = [(layout.win_w as i64) * POINT, win_h];
        assert(win == extent_of(layout, screen_h));
        (layout, win)
    }

    /// Where the window of this extent goes.
    fn window_move(&self, win: [i64; 2]) -> (r: WindowMove)
        requires
            point_on_scale(self@.screen),
            point_on_scale(win),
        ensures
            r == move_of(self@, win),
    {
        let to = desired_position(
            self.position.as_str(),
            self.saved_position,
            self.screen,
            win,
        );
        let keeps_saved: bool = match self.saved_position {
            Some(pos) => pos == to,
            None => false,
        };
        WindowMove { win, to, keeps_saved }
    }

    /// Draws a frame: decides everything that the caller does in it.
    pub fn update(&mut self, config_changed: bool, input: &FrameInput) -> (r: FramePlan)
        requires
            old(self)@.wf(),
            input.wf(),
        ensures
            final(self)@.wf(),
            (final(self)@, r@) == frame(old(self)@, config_changed, *input),
            r matches FramePlan::List(plan) ==> {
                &&& point_on_scale(plan.win)
                &&& 1 <= plan.rows.len() <= MAX_ROWS
                &&& plan.win@[1] <= final(self)@.screen@[1] || plan.rows.len() == 1
                &&& 0 < final(self)@.screen@[1] ==> plan.win@[1] <= final(self)@.screen@[1]
                &&& plan.moved matches Some(moved) ==> moved.win == plan.win
            },
    {
        self.update_screen_from_ctx(input.monitor_size);
        if input.quit || (self.registered && self.sessions.is_empty()) {
            return FramePlan::Close;
        }
        let store_size: Option<u32> = self.settle_size(config_changed, input.stored_size);
        if self.sessions.is_empty() {
            return FramePlan::Waiting(store_size);
        }
        let rows = self.drawn_sessions();
        let (layout, win): (ListLayout, [i64; 2]) = self.measure(&rows);
        let signature = content_signature(&rows);
        let known: bool = match &self.last_logged_signature {
            Some(last) => *last == signature,
            None => false,
        };
        let log: Option<String> = if known {
            None
        } else {
            Some(signature.clone())
        };
        self.last_logged_signature = Some(signature);
        let geometry = self.geometry_key(win);
        let moved: Option<WindowMove> = if is_applied(&self.applied_geometry, &geometry) {
            None
        } else {
            Some(self.window_move(win))
        };
        self.applied_geometry = Some(geometry);
        if !input.menu.open && input.primary_pressed {
            self.dragging = true;
        }
        let start_drag: bool = self.dragging && input.primary_down;
        let mut save_position: Option<WindowPositionState> = None;
        if input.primary_released && self.dragging {
            self.dragging = false;
            save_position = input.outer;
        }
        let menu = open_menu(input.menu, input.secondary_released, input.cursor);
        let agents = agents_by_row(&rows);
        FramePlan::List(
            ListPlan {
                store_size,
                rows,
                layout,
                win,
                log,
                moved,
                start_drag,
                save_position,
                menu,
                agents,
            },
        )
    }
}

// ---- after a drag ----

/// The window once its position was written to the state file, or could not be.
pub open spec fn after_saving(
    app: AppView,
    position: WindowPositionState,
    written: bool,
) -> AppView {
    if written {
        AppView { saved_position: Some(position), applied_geometry: None, ..app }
    } else {
        app
    }
}

impl CompanionApp {
    /// Takes over the position that a drag ended at, where it was written to the state file.
    pub fn position_saved(&mut self, position: WindowPositionState, written: bool)
        ensures
            final(self)@ == after_saving(old(self)@, position, written),
            old(self)@.wf() ==> final(self)@.wf(),
    {
        if written {
            self.saved_position = Some(position);
            self.applied_geometry = None;
        }
    }
}

// ---- moving the window through the compositor ----

/// What the compositor is asked for, where the window cannot move itself.
#[derive(Debug, PartialEq, Eq)]
pub struct NiriRequest {
    /// The compositor's socket.
    pub socket: String,
    pub position: String,
    pub target: Option<WindowPositionState>,
    pub screen: [i64; 2],
    pub win: [i64; 2],
    /// The number of this request.
    pub generation: u64,
}

/// The number of the request after the one with the number `generation`. The count starts over
/// at the end of its range.
pub open spec fn next_generation(generation: u64) -> u64 {
    if generation == u64::MAX {
        0
    } else {
        (generation + 1) as u64
    }
}

/// The compositor is asked where its socket is known and the window's goal is finite.
pub open spec fn asks_compositor(
    app: AppView,
    socket: Option<Seq<char>>,
    win: [i64; 2],
    saved_position: Option<WindowPositionState>,
) -> bool {
    let (x, y) = desired(app.position, saved_position, app.screen, win);
    socket is Some && socket->0.len() > 0 && finite_coord(x) && finite_coord(y)
}

impl CompanionApp {
    /// What to ask the compositor for, given what the environment names as its socket. Each
    /// request gets the next number.
    pub fn spawn_niri_fallback(
        &mut self,
        socket: Option<String>,
        win: [i64; 2],
        saved_position: Option<WindowPositionState>,
    ) -> (r: Option<NiriRequest>)
        requires
            old(self)@.wf(),
            point_on_scale(win),
        ensures
            r is Some <==> asks_compositor(old(self)@, socket.deep_view(), win, saved_position),
            r is Some ==> final(self)@ == (AppView {
                niri_generation: next_generation(old(self)@.niri_generation),
                ..old(self)@
            }),
            r is None ==> final(self)@ == old(self)@,
            final(self)@.wf(),
            r matches Some(request) ==> {
                &&& Some(request.socket@) == socket.deep_view()
                &&& request.position@ == old(self)@.position
                &&& request.target == saved_position
                &&& request.screen == old(self)@.screen
                &&& request.win == win
                &&& request.generation == final(self)@.niri_generation
            },
    {
        match socket {
            Some(socket) => {
                if socket.as_str().is_empty() {
                    return None;
                }
                let goal = desired_position(
                    self.position.as_str(),
                    saved_position,
                    self.screen,
                    win,
                );
                if !is_finite_coord(goal.x) || !is_finite_coord(goal.y) {
                    return None;
                }
                self.niri_generation = if self.niri_generation == u64::MAX {
                    0
                } else {
                    self.niri_generation + 1
                };
                Some(
                    NiriRequest {
                        socket,
                        position: self.position.clone(),
                        target: saved_position,
                        screen: self.screen,
                        win,
                        generation: self.niri_generation,
                    },
                )
            },
            None => None,
        }
    }
}

// ---- what the window shows ----

impl CompanionApp {
    /// The sessions that run.
    pub fn sessions(&self) -> (r: &Vec<SessionInfo>)
        ensures
            r.deep_view() == self@.sessions,
    {
        &self.sessions
    }

    /// The size preset, in points.
    pub fn size(&self) -> (r: u32)
        ensures
            r == self@.size,
    {
        self.size
    }

    /// The corner that the window stands in.
    pub fn position(&self) -> (r: &str)
        ensures
            r@ == self@.position,
    {
        self.position.as_str()
    }

    /// The pack of animations to play.
    pub fn gif_pack(&self) -> (r: &str)
        ensures
            r@ == self@.gif_pack,
    {
        self.gif_pack.as_str()
    }

    /// How the animations repeat.
    pub fn loop_style(&self) -> (r: &str)
        ensures
            r@ == self@.loop_style,
    {
        self.loop_style.as_str()
    }

    /// The speed of the animations: the bits of a single-precision number.
    pub fn speed_bits(&self) -> (r: u32)
        ensures
            r == self@.speed_bits,
    {
        self.speed_bits
    }

    /// The extent of the monitor, in sub-point units.
    pub fn screen(&self) -> (r: [i64; 2])
        ensures
            r == self@.screen,
    {
        self.screen
    }

    /// Where the user dragged the window.
    pub fn saved_position(&self) -> (r: Option<WindowPositionState>)
        ensures
            r == self@.saved_position,
    {
        self.saved_position
    }

    /// The user is dragging the window.
    pub fn dragging(&self) -> (r: bool)
        ensures
            r == self@.dragging,
    {
        self.dragging
    }

    /// The number of the latest request to the compositor; 0 where there was none.
    pub fn niri_generation(&self) -> (r: u64)
        ensures
            r == self@.niri_generation,
    {
        self.niri_generation
    }
}

// ---- laws ----

/// The saved position is the one under the window's key, wherever among the others it stands:
/// no two have the same key.
pub proof fn law_saved_position_is_found(
    positions: Seq<(Seq<char>, WindowPositionState)>,
    i: int,
)
    requires
        0 <= i < positions.len(),
        positions[i].0 == GLOBAL_POSITION_KEY@,
        forall|a: int, b: int|
            0 <= a < b < positions.len() ==> (#[trigger] positions[a]).0 != (
            #[trigger] positions[b]).0,
    ensures
        saved_for_window(positions) == Some(positions[i].1),
    decreases i,
{
    if i > 0 {
        assert(positions[0].0 != positions[i].0);
        let rest = positions.drop_first();
        assert forall|a: int, b: int| 0 <= a < b < rest.len() implies (#[trigger] rest[a]).0 != (
        #[trigger] rest[b]).0 by {
            assert(positions[a + 1].0 != positions[b + 1].0);
        }
        law_saved_position_is_found(rest, i - 1);
    }
}

/// The window does not flicker: once a frame has been drawn, no later one gives it another
/// size or position as long as the corner, the saved position, the size, the monitor, the
/// number of rows drawn and the number of agents in the widest of them stay the same, whatever
/// statuses and agents the sessions have meanwhile. And where nothing at all has changed, nothing is
/// logged.
pub proof fn law_window_does_not_flicker(
    app: AppView,
    config_changed: bool,
    input: FrameInput,
    sessions: Seq<SessionView>,
    next: FrameInput,
)
    requires
        frame(app, config_changed, input).1 is List,
        sessions.len() > 0,
        ({
            let after = frame(app, config_changed, input).0;
            let before = drawn_rows(app.sessions, after.screen@[1], after.size);
            let rows = drawn_rows(sessions, after.screen@[1], after.size);
            rows.len() == before.len() && widest(rows) == widest(before)
        }),
        next.monitor_size == input.monitor_size,
        !next.quit,
        next.stored_size is None || next.stored_size == Some(
            frame(app, config_changed, input).0.size,
        ),
    ensures
        ({
            let after = frame(app, config_changed, input).0;
            let plan = frame(AppView { sessions, ..after }, false, next).1;
            &&& plan is List
            &&& plan->List_0.moved is None
            &&& sessions == app.sessions ==> plan->List_0.log is None
        }),
{
    let seen = on_monitor(app, input.monitor_size);
    let ready = settled(seen, config_changed, input.stored_size);
    let after = frame(app, config_changed, input).0;
    let again = AppView { sessions, ..after };
    assert(on_monitor(again, next.monitor_size) == again);
    assert(settled(again, false, next.stored_size) == again);
    assert(layout_of(drawn_rows(sessions, again.screen@[1], again.size), again.size) == layout_of(
        drawn_rows(app.sessions, ready.screen@[1], ready.size),
        ready.size,
    ));
}

/// A size that the user picked stays until another configuration comes in force: neither a
/// change of the state file that leaves the configuration alone nor a frame takes it back.
pub proof fn law_picked_size_stays(
    app: AppView,
    state: StateView,
    picked: u32,
    input: FrameInput,
)
    requires
        app.registered,
        key_in(state) == app.applied_config,
        state.sessions.len() > 0,
        input.stored_size == Some(picked),
        !input.quit,
    ensures
        refreshed(app, state).size == app.size,
        frame(refreshed(app, state), false, input).0.size == picked,
{
}

/// Another configuration replaces a size that the user picked.
pub proof fn law_new_config_sets_the_size(app: AppView, state: StateView, input: FrameInput)
    requires
        key_in(state) != app.applied_config,
        state.sessions.len() > 0,
        !input.quit,
    ensures
        ({
            let (after, plan) = frame(refreshed(app, state), true, input);
            &&& after.size == size_under(key_in(state))
            &&& plan is List
            &&& plan->List_0.store_size == Some(size_under(key_in(state)))
        }),
{
}

/// Reading the same state file again changes nothing, and reports no other configuration.
pub proof fn law_rereading_changes_nothing(app: AppView, state: StateView)
    ensures
        refreshed(refreshed(app, state), state) == refreshed(app, state),
        refreshed(app, state).applied_config == key_in(state),
{
}

/// The size is that of a preset at all times, where the picker stores no other.
pub proof fn law_size_is_a_preset(
    app: AppView,
    state: StateView,
    screen: [i64; 2],
    config_changed: bool,
    input: FrameInput,
)
    requires
        is_preset(app.size),
        input.stored_size matches Some(size) ==> is_preset(size),
    ensures
        is_preset(opened(state, screen).size),
        is_preset(refreshed(app, state).size),
        is_preset(frame(app, config_changed, input).0.size),
{
}

/// However many sessions run, whatever the size preset and the screen, the window never grows
/// taller than the screen, and it shows no more than `MAX_ROWS` rows, nor more agents in a row
/// than `MAX_AGENTS_PER_ROW`. Two rows or more are drawn at their full height.
pub proof fn law_window_is_bounded(app: AppView, config_changed: bool, input: FrameInput)
    requires
        frame(app, config_changed, input).1 is List,
    ensures
        ({
            let (after, plan) = frame(app, config_changed, input);
            let plan = plan->List_0;
            let screen_h = after.screen@[1];
            &&& 0 < screen_h ==> plan.win@[1] <= screen_h
            &&& plan.moved matches Some(moved) ==> moved.win == plan.win
            &&& 1 <= plan.rows.len() <= MAX_ROWS
            &&& plan.win@[0] <= width_of(MAX_AGENTS_PER_ROW as int, after.size as int) * POINT
            &&& plan.rows.len() > 1 ==> plan.win@[1] == height_of(
                plan.rows.len() as int,
                after.size as int,
            ) * POINT
        }),
{
    let after = frame(app, config_changed, input).0;
    lemma_window_fits(app.sessions, after.screen@[1], after.size);
    let rows = drawn_rows(app.sessions, after.screen@[1], after.size);
    lemma_widest_bounds(rows);
    let t = thumb_of(after.size as int);
    let w = widest(rows);
    assert(t * w <= t * 5) by (nonlinear_arith)
        requires
            t >= 0,
            w <= 5,
    ;
}

/// The rows that are drawn are the first of the list, and as many as there is room for: where
/// one is left out, it would make the list taller than the screen.
pub proof fn law_no_row_is_left_out_in_vain(app: AppView, config_changed: bool, input: FrameInput)
    requires
        frame(app, config_changed, input).1 is List,
    ensures
        ({
            let (after, plan) = frame(app, config_changed, input);
            let n = plan->List_0.rows.len() as int;
            let all = ordered_rows(app.sessions);
            &&& n <= all.len() && plan->List_0.rows == all.take(n)
            &&& n < all.len() ==> height_of(n + 1, after.size as int) * POINT > after.screen@[1]
        }),
{
    let after = frame(app, config_changed, input).0;
    law_rows_fit(after.screen@[1] as int, after.size as int);
    let all = ordered_rows(app.sessions);
    assert(all.take(all.len() as int) =~= all);
}

proof fn lemma_widest_bounds(rows: Seq<SessionView>)
    ensures
        1 <= widest(rows) <= MAX_AGENTS_PER_ROW,
    decreases rows.len(),
{
    if rows.len() > 0 {
        lemma_widest_bounds(rows.drop_last());
    }
}

/// The window closes when the user asks for it or the last session has ended, but a window
/// that has just started waits for its first session.
pub proof fn law_closing(app: AppView, config_changed: bool, input: FrameInput)
    ensures
        frame(app, config_changed, input).1 is Close <==> input.quit || (app.registered
            && app.sessions.len() == 0),
        !app.registered && app.sessions.len() == 0 && !input.quit ==> frame(
            app,
            config_changed,
            input,
        ).1 is Waiting && frame(app, config_changed, input).0.registered,
{
}

/// The requests to the compositor are numbered from 1 on, and nothing but a request counts. So
/// two requests in a row have different numbers, and until the count starts over, the later
/// one has the larger number.
pub proof fn law_only_requests_are_numbered(
    app: AppView,
    state: StateView,
    screen: [i64; 2],
    config_changed: bool,
    input: FrameInput,
    position: WindowPositionState,
    written: bool,
)
    ensures
        opened(state, screen).niri_generation == 0,
        refreshed(app, state).niri_generation == app.niri_generation,
        frame(app, config_changed, input).0.niri_generation == app.niri_generation,
        after_saving(app, position, written).niri_generation == app.niri_generation,
        next_generation(app.niri_generation) != app.niri_generation,
        app.niri_generation < u64::MAX ==> next_generation(app.niri_generation)
            == app.niri_generation + 1,
{
}

/// A drag starts with a press outside the menu and is saved once, where the button is
/// released; a press on an open menu starts none.
pub proof fn law_drag_is_saved_at_its_end(
    app: AppView,
    config_changed: bool,
    press: FrameInput,
    release: FrameInput,
)
    requires
        app.sessions.len() > 0,
        !app.dragging,
        !press.quit && press.primary_pressed && !press.primary_released,
        !release.quit && release.primary_released,
    ensures
        ({
            let (held, first) = frame(app, config_changed, press);
            let (after, last) = frame(held, false, release);
            &&& first->List_0.save_position is None
            &&& held.dragging == !press.menu.open
            &&& held.dragging ==> last->List_0.save_position == release.outer && !after.dragging
            &&& press.menu.open && !release.primary_pressed ==> last->List_0.save_position is None
        }),
{
}

/// A position that was saved at the end of a drag is where the window goes in the next frame.
pub proof fn law_saved_position_is_restored(
    app: AppView,
    position: WindowPositionState,
    input: FrameInput,
)
    requires
        app.sessions.len() > 0,
        !input.quit,
    ensures
        ({
            let saved = after_saving(app, position, true);
            let ready = settled(
                on_monitor(saved, input.monitor_size),
                false,
                input.stored_size,
            );
            let plan = frame(saved, false, input).1;
            let (x, y) = crate::geometry::restored(
                [position.x, position.y],
                ready.screen,
                plan->List_0.win,
            );
            &&& plan is List
            &&& plan->List_0.moved is Some
            &&& plan->List_0.moved->0.to == (WindowPositionState { x: x as i64, y: y as i64 })
        }),
{
}

/// No saved position is found where none was saved under the window's key.
pub proof fn law_no_saved_position(positions: Seq<(Seq<char>, WindowPositionState)>)
    requires
        forall|i: int|
            0 <= i < positions.len() ==> (#[trigger] positions[i]).0 != "__companion_window__"@,
    ensures
        saved_for_window(positions) is None,
    decreases positions.len(),
{
    if positions.len() > 0 {
        assert(positions[0].0 != "__companion_window__"@);
        let rest = positions.drop_first();
        assert forall|i: int| 0 <= i < rest.len() implies (#[trigger] rest[i]).0
            != "__companion_window__"@ by {
            assert(rest[i] == positions[i + 1]);
        }
        law_no_saved_position(rest);
    }
}

/// A window opens with what the state file holds: all of its sessions in its order, the
/// position that was saved, and what the configuration says. It has drawn nothing yet, nobody
/// drags it, and the compositor was not asked.
pub proof fn law_window_opens_with_the_state(state: StateView, screen: [i64; 2])
    ensures
        ({
            let app = opened(state, screen);
            let config = effective_config(state.sessions, state.config);
            &&& app.sessions == state.sessions
            &&& app.saved_position == saved_for_window(state.window_positions)
            &&& app.has_modern_config == (state.config is Some)
            &&& app.screen == screen
            &&& !app.registered && !app.dragging && app.niri_generation == 0
            &&& app.applied_geometry is None && app.last_logged_signature is None
            &&& app.applied_config == opt_key_of(config)
            &&& config matches Some(config) ==> {
                &&& app.position == config.position
                &&& app.size == crate::config::named_size(config.size)
                &&& app.speed_bits == config.speed_bits
                &&& app.gif_pack == "default"@
                &&& config.loop_style == "smooth"@ ==> app.loop_style == "smooth"@
                &&& config.loop_style != "smooth"@ ==> app.loop_style == "classic"@
            }
            &&& config is None ==> {
                &&& app.position == "bottom-right"@ && app.size == 120
                &&& app.speed_bits == 0x3f80_0000
                &&& app.gif_pack == "default"@ && app.loop_style == "classic"@
            }
        }),
{
}

/// After a change of the state file the window has the sessions of the file, all of them and
/// in its order, its saved position, and what its configuration says. The size is taken over
/// only where the configuration has changed. What the window was about stays: a drag goes on,
/// and the screen, the geometry and what was logged are as they were.
pub proof fn law_window_follows_the_state(app: AppView, state: StateView)
    ensures
        ({
            let next = refreshed(app, state);
            let config = effective_config(state.sessions, state.config);
            let changed = app.applied_config != opt_key_of(config);
            &&& next.sessions == state.sessions
            &&& next.saved_position == saved_for_window(state.window_positions)
            &&& next.has_modern_config == (state.config is Some)
            &&& next.applied_config == opt_key_of(config)
            &&& !changed ==> next.size == app.size
            &&& config matches Some(config) ==> {
                &&& changed ==> next.size == crate::config::named_size(config.size)
                &&& next.position == config.position
                &&& next.speed_bits == config.speed_bits
                &&& next.gif_pack == "default"@
                &&& config.loop_style == "smooth"@ ==> next.loop_style == "smooth"@
                &&& config.loop_style != "smooth"@ ==> next.loop_style == "classic"@
            }
            &&& config is None ==> {
                &&& changed ==> next.size == 120
                &&& next.position == "bottom-right"@
                &&& next.speed_bits == 0x3f80_0000
                &&& next.gif_pack == "default"@ && next.loop_style == "classic"@
            }
            &&& next.registered == app.registered
            &&& next.dragging == app.dragging
            &&& next.screen == app.screen
            &&& next.applied_geometry == app.applied_geometry
            &&& next.last_logged_signature == app.last_logged_signature
            &&& next.niri_generation == app.niri_generation
        }),
{
}

/// The sessions that a file adds are on the list in the next frame, as far as there is room,
/// and those that it no longer holds are not: what is drawn depends on the file alone.
pub proof fn law_next_frame_lists_the_file(
    app: AppView,
    state: StateView,
    config_changed: bool,
    input: FrameInput,
)
    requires
        state.sessions.len() > 0,
        !input.quit,
    ensures
        ({
            let (after, plan) = frame(refreshed(app, state), config_changed, input);
            let rows = plan->List_0.rows;
            let all = ordered_rows(state.sessions);
            &&& plan is List
            &&& rows.len() <= all.len() && rows == all.take(rows.len() as int)
            &&& rows.len() < all.len() ==> height_of(rows.len() as int + 1, after.size as int)
                * 4_194_304 > after.screen@[1]
        }),
{
    law_no_row_is_left_out_in_vain(refreshed(app, state), config_changed, input);
}

/// A frame changes nothing of what the state file says: the sessions, the corner, how the
/// animations play, the saved position and the configuration in force. A frame that closes the
/// window changes nothing but the screen.
pub proof fn law_frame_keeps_the_state(app: AppView, config_changed: bool, input: FrameInput)
    ensures
        ({
            let (after, plan) = frame(app, config_changed, input);
            &&& after.sessions == app.sessions
            &&& after.position == app.position
            &&& after.gif_pack == app.gif_pack && after.loop_style == app.loop_style
            &&& after.speed_bits == app.speed_bits
            &&& after.saved_position == app.saved_position
            &&& after.has_modern_config == app.has_modern_config
            &&& after.applied_config == app.applied_config
            &&& !(plan is Close) ==> after.registered
            &&& !(plan is List) ==> after.dragging == app.dragging && after.applied_geometry
                == app.applied_geometry && after.last_logged_signature
                == app.last_logged_signature
            &&& plan is Close ==> after.size == app.size && after.registered == app.registered
        }),
{
}

/// What kind of frame it is: the window closes where the user asks for it or the last session
/// has ended, waits where it has just started and there is no session yet, and lists the
/// sessions where there are any.
pub proof fn law_kinds_of_frames(app: AppView, config_changed: bool, input: FrameInput)
    ensures
        ({
            let plan = frame(app, config_changed, input).1;
            &&& input.quit ==> plan is Close
            &&& !input.quit && app.sessions.len() > 0 ==> plan is List
            &&& !input.quit && app.sessions.len() == 0 && app.registered ==> plan is Close
            &&& !input.quit && app.sessions.len() == 0 && !app.registered ==> plan is Waiting
        }),
{
}

/// The screen is that of the monitor, where its extent is known and more than a point either
/// way; else it stays.
pub proof fn law_screen_is_the_monitor(app: AppView, config_changed: bool, input: FrameInput)
    ensures
        ({
            let after = frame(app, config_changed, input).0;
            let counts = input.monitor_size is Some && input.monitor_size->0@[0] > 4_194_304
                && input.monitor_size->0@[1] > 4_194_304;
            &&& counts ==> after.screen == input.monitor_size->0
            &&& !counts ==> after.screen == app.screen
        }),
        ({
            let counts = input.monitor_size is Some && input.monitor_size->0@[0] > 4_194_304
                && input.monitor_size->0@[1] > 4_194_304;
            &&& counts ==> on_monitor(app, input.monitor_size) == (AppView {
                screen: input.monitor_size->0,
                ..app
            })
            &&& !counts ==> on_monitor(app, input.monitor_size) == app
        }),
{
}

/// The size of a frame. The first frame, and one after another configuration came in force,
/// takes the window's own size and stores it for the picker; any other takes the one that is
/// stored, where one is, and stores none.
pub proof fn law_size_of_a_frame(app: AppView, config_changed: bool, input: FrameInput)
    requires
        !(frame(app, config_changed, input).1 is Close),
    ensures
        ({
            let (after, plan) = frame(app, config_changed, input);
            let stored = match plan {
                PlanView::List(plan) => plan.store_size,
                PlanView::Waiting(size) => size,
                PlanView::Close => None,
            };
            let anew = !app.registered || config_changed;
            &&& anew ==> stored == Some(app.size) && after.size == app.size
            &&& !anew ==> stored is None
            &&& !anew && input.stored_size is Some ==> Some(after.size) == input.stored_size
            &&& !anew && input.stored_size is None ==> after.size == app.size
        }),
{
}

/// What a list looks like: the measures come from the size, the rows and the widest of them;
/// the window is as large as the list, but never taller than the screen; and each row plays
/// the animations of its agents.
pub proof fn law_list_is_measured(app: AppView, config_changed: bool, input: FrameInput)
    requires
        frame(app, config_changed, input).1 is List,
    ensures
        ({
            let (after, plan) = frame(app, config_changed, input);
            let plan = plan->List_0;
            let size = after.size as int;
            let h = plan.layout.win_h * 4_194_304;
            let screen_h = after.screen@[1];
            &&& plan.layout.thumb == thumb_of(size)
            &&& plan.layout.label_h == label_of(thumb_of(size))
            &&& plan.layout.row_h == plan.layout.thumb + plan.layout.label_h
            &&& plan.layout.win_h == plan.layout.row_h * plan.rows.len()
            &&& plan.win@[0] == plan.layout.win_w * 4_194_304
            &&& screen_h <= 0 || h <= screen_h ==> plan.win@[1] == h
            &&& 0 < screen_h < h ==> plan.win@[1] == screen_h
            &&& plan.agents.len() == plan.rows.len()
            &&& forall|i: int|
                0 <= i < plan.rows.len() ==> plan.layout.win_w >= plan.layout.thumb * shown(
                    (#[trigger] plan.rows[i]).active_agents.len() as int,
                )
            &&& exists|i: int|
                0 <= i < plan.rows.len() && plan.layout.win_w == plan.layout.thumb * shown(
                    (#[trigger] plan.rows[i]).active_agents.len() as int,
                )
            &&& forall|i: int|
                0 <= i < plan.rows.len() && (#[trigger] plan.rows[i]).active_agents.len() == 0
                    ==> plan.agents[i] == seq!["intro"@]
            &&& forall|i: int, j: int|
                0 <= i < plan.rows.len() && 0 <= j < 5 && j < (
                #[trigger] plan.rows[i]).active_agents.len() ==> plan.agents[i].len() > j
                    && #[trigger] plan.agents[i][j] == plan.rows[i].active_agents[j]
        }),
{
    let (after, plan) = frame(app, config_changed, input);
    let plan = plan->List_0;
    let rows = plan.rows;
    lemma_window_fits(app.sessions, after.screen@[1], after.size);
    law_widest_row(rows);
    lemma_widest_bounds(rows);
    let t = thumb_of(after.size as int);
    assert(plan.layout.win_w == t * widest(rows));
    assert forall|i: int| 0 <= i < rows.len() implies plan.layout.win_w >= plan.layout.thumb
        * shown((#[trigger] rows[i]).active_agents.len() as int) by {
        let n = shown(rows[i].active_agents.len() as int);
        let w = widest(rows);
        assert(t * n <= t * w) by (nonlinear_arith)
            requires
                0 <= t,
                n <= w,
        ;
    }
    assert forall|i: int|
        0 <= i < rows.len() && (#[trigger] rows[i]).active_agents.len()
            == 0 implies plan.agents[i] == seq!["intro"@] by {
        law_row_agents(rows, i);
    }
    assert forall|i: int, j: int|
        0 <= i < rows.len() && 0 <= j < 5 && j < (
        #[trigger] rows[i]).active_agents.len() implies plan.agents[i].len() > j
        && #[trigger] plan.agents[i][j] == rows[i].active_agents[j] by {
        law_row_agents(rows, i);
    }
}

/// The content of the list is logged exactly where it differs from what was logged last.
pub proof fn law_log_on_change(app: AppView, config_changed: bool, input: FrameInput)
    requires
        frame(app, config_changed, input).1 is List,
    ensures
        ({
            let (after, plan) = frame(app, config_changed, input);
            let plan = plan->List_0;
            let content = signature_of(plan.rows);
            &&& after.last_logged_signature == Some(content)
            &&& app.last_logged_signature == Some(content) ==> plan.log is None
            &&& app.last_logged_signature != Some(content) ==> plan.log == Some(content)
        }),
{
}

/// A right click opens the menu where the pointer is, and any other frame leaves it as it is.
pub proof fn law_menu_of_a_frame(app: AppView, config_changed: bool, input: FrameInput)
    requires
        frame(app, config_changed, input).1 is List,
    ensures
        ({
            let menu = frame(app, config_changed, input).1->List_0.menu;
            &&& !input.secondary_released ==> menu == input.menu
            &&& input.secondary_released ==> menu.open && menu.just_opened
            &&& input.secondary_released && input.cursor is Some ==> menu.pos == input.cursor->0
            &&& input.secondary_released && input.cursor is None ==> menu.pos == [0i64, 0i64]
        }),
{
}

/// The window remembers everything that its size and its place depend on: the corner, the
/// saved position, the size, its own extent and that of the screen, in whole points. It gets a
/// size and a place in the first frame and whenever one of these has changed, and only then.
pub proof fn law_window_moves_on_change(app: AppView, config_changed: bool, input: FrameInput)
    requires
        frame(app, config_changed, input).1 is List,
    ensures
        ({
            let (after, plan) = frame(app, config_changed, input);
            let plan = plan->List_0;
            let key = after.applied_geometry->0;
            &&& after.applied_geometry is Some
            &&& key.position == app.position
            &&& key.size_px == after.size
            &&& app.saved_position is None ==> key.custom_x is None && key.custom_y is None
            &&& app.saved_position matches Some(pos) ==> key.custom_x is Some
                && key.custom_x->0 == whole_coord(pos.x as int) && key.custom_y is Some
                && key.custom_y->0 == whole_coord(pos.y as int)
            &&& 0 <= plan.win@[0] ==> key.win_w == clamped(
                nearest_point(plan.win@[0] as int),
                0,
                0xffff_ffff,
            )
            &&& 0 <= plan.win@[1] ==> key.win_h == clamped(
                nearest_point(plan.win@[1] as int),
                0,
                0xffff_ffff,
            )
            &&& key.screen_w == clamped(nearest_point(after.screen@[0] as int), 0, 0xffff_ffff)
            &&& key.screen_h == clamped(nearest_point(after.screen@[1] as int), 0, 0xffff_ffff)
            &&& plan.moved is None <==> app.applied_geometry == after.applied_geometry
            &&& app.applied_geometry is None ==> plan.moved is Some
        }),
{
}

/// Where a window moves to: to the position that the user gave it, as it is restored, and else
/// into its corner; with the extent of the list.
pub proof fn law_window_moves_to_its_place(app: AppView, config_changed: bool, input: FrameInput)
    requires
        frame(app, config_changed, input).1 is List,
        frame(app, config_changed, input).1->List_0.moved is Some,
        point_on_scale(frame(app, config_changed, input).0.screen),
    ensures
        ({
            let (after, plan) = frame(app, config_changed, input);
            let moved = plan->List_0.moved->0;
            let to = (moved.to.x as int, moved.to.y as int);
            let win = plan->List_0.win;
            &&& moved.win == win
            &&& app.saved_position matches Some(pos) ==> to == crate::geometry::restored(
                [pos.x, pos.y],
                after.screen,
                win,
            )
            &&& app.saved_position is None ==> to == crate::geometry::placed(
                app.position,
                after.screen,
                win,
            )
            &&& moved.keeps_saved <==> app.saved_position == Some(moved.to)
        }),
{
    let after = frame(app, config_changed, input).0;
    lemma_window_fits(app.sessions, after.screen@[1], after.size);
}

/// After a frame the window moves again as soon as the corner, the size, the saved position, the
/// screen or the extent of the list is another one, in whole points.
pub proof fn law_window_follows_changes(
    app: AppView,
    config_changed: bool,
    input: FrameInput,
    later: AppView,
    changed_since: bool,
    next: FrameInput,
)
    requires
        frame(app, config_changed, input).1 is List,
        frame(later, changed_since, next).1 is List,
        later.applied_geometry == frame(app, config_changed, input).0.applied_geometry,
        frame(later, changed_since, next).1->List_0.moved is None,
    ensures
        ({
            let (before, first) = frame(app, config_changed, input);
            let (after, last) = frame(later, changed_since, next);
            &&& later.position == app.position
            &&& after.size == before.size
            &&& later.saved_position is Some <==> app.saved_position is Some
            &&& later.saved_position is Some ==> whole_coord(later.saved_position->0.x as int)
                == whole_coord(app.saved_position->0.x as int) && whole_coord(
                later.saved_position->0.y as int,
            ) == whole_coord(app.saved_position->0.y as int)
            &&& whole_points(after.screen@[0]) == whole_points(before.screen@[0])
            &&& whole_points(after.screen@[1]) == whole_points(before.screen@[1])
            &&& whole_points(last->List_0.win@[0]) == whole_points(first->List_0.win@[0])
            &&& whole_points(last->List_0.win@[1]) == whole_points(first->List_0.win@[1])
        }),
{
    law_window_moves_on_change(app, config_changed, input);
    law_window_moves_on_change(later, changed_since, next);
}

/// A drag starts with a press outside the menu and lasts until the button is released, however
/// many frames that takes. The window follows the pointer while the button is down. Where the
/// drag ends the position of the window is saved, and it is saved nowhere else.
pub proof fn law_drag_lasts_until_released(app: AppView, config_changed: bool, input: FrameInput)
    requires
        app.sessions.len() > 0,
        !input.quit,
    ensures
        ({
            let (after, plan) = frame(app, config_changed, input);
            let plan = plan->List_0;
            let pressed = input.primary_pressed && !input.menu.open;
            &&& app.dragging && !input.primary_released ==> after.dragging
            &&& pressed && !input.primary_released ==> after.dragging
            &&& input.primary_released ==> !after.dragging
            &&& !app.dragging && !pressed ==> !after.dragging
            &&& input.primary_down && (app.dragging || pressed) ==> plan.start_drag
            &&& !input.primary_down ==> !plan.start_drag
            &&& !app.dragging && !pressed ==> !plan.start_drag
            &&& input.primary_released && (app.dragging || pressed) ==> plan.save_position
                == input.outer
            &&& !input.primary_released ==> plan.save_position is None
            &&& !app.dragging && !pressed ==> plan.save_position is None
        }),
{
}

/// The window after a run of frames.
pub open spec fn after_frames(app: AppView, inputs: Seq<FrameInput>) -> AppView
    decreases inputs.len(),
{
    if inputs.len() == 0 {
        app
    } else {
        frame(after_frames(app, inputs.drop_last()), false, inputs.last()).0
    }
}

/// A drag of any length is saved where it ends: after a press outside the menu, any number of
/// frames in which the button is not released, and a release, the position of the window in
/// the frame of the release is saved, and none before it.
pub proof fn law_long_drag_is_saved(
    app: AppView,
    config_changed: bool,
    press: FrameInput,
    holds: Seq<FrameInput>,
    release: FrameInput,
)
    requires
        app.sessions.len() > 0,
        !press.quit && press.primary_pressed && !press.menu.open && !press.primary_released,
        forall|i: int|
            0 <= i < holds.len() ==> !(#[trigger] holds[i]).quit && !holds[i].primary_released,
        !release.quit && release.primary_released,
    ensures
        ({
            let pressed = frame(app, config_changed, press).0;
            let held = after_frames(pressed, holds);
            let (after, plan) = frame(held, false, release);
            &&& held.dragging && held.sessions == app.sessions
            &&& plan is List
            &&& plan->List_0.save_position == release.outer
            &&& !after.dragging
            &&& frame(app, config_changed, press).1->List_0.save_position is None
            &&& forall|i: int|
                0 <= i < holds.len() ==> frame(
                    after_frames(pressed, #[trigger] holds.take(i)),
                    false,
                    holds[i],
                ).1->List_0.save_position is None
        }),
    decreases holds.len(),
{
    let pressed = frame(app, config_changed, press).0;
    law_drag_lasts_until_released(app, config_changed, press);
    law_frame_keeps_the_state(app, config_changed, press);
    if holds.len() > 0 {
        let fewer = holds.drop_last();
        let last = holds[holds.len() - 1];
        assert forall|i: int| 0 <= i < fewer.len() implies !(#[trigger] fewer[i]).quit
            && !fewer[i].primary_released by {
            assert(fewer[i] == holds[i]);
        }
        law_long_drag_is_saved(app, config_changed, press, fewer, release);
        law_drag_lasts_until_released(after_frames(pressed, fewer), false, last);
        law_frame_keeps_the_state(after_frames(pressed, fewer), false, last);
    }
    assert forall|i: int| 0 <= i < holds.len() implies frame(
        after_frames(pressed, #[trigger] holds.take(i)),
        false,
        holds[i],
    ).1->List_0.save_position is None by {
        let fewer = holds.take(i);
        assert forall|j: int| 0 <= j < fewer.len() implies !(#[trigger] fewer[j]).quit
            && !fewer[j].primary_released by {
            assert(fewer[j] == holds[j]);
        }
        law_long_drag_is_saved(app, config_changed, press, fewer, release);
        law_drag_lasts_until_released(after_frames(pressed, fewer), false, holds[i]);
    }
    let held = after_frames(pressed, holds);
    law_drag_lasts_until_released(held, false, release);
    law_kinds_of_frames(held, false, release);
}

/// A position that was written counts from then on, and the next frame puts the window there;
/// one that could not be written changes nothing. Either way nothing else changes.
pub proof fn law_written_position_counts(app: AppView, position: WindowPositionState)
    ensures
        after_saving(app, position, false) == app,
        ({
            let saved = after_saving(app, position, true);
            &&& saved.saved_position == Some(position)
            &&& saved.applied_geometry is None
            &&& saved.sessions == app.sessions && saved.registered == app.registered
            &&& saved.size == app.size && saved.screen == app.screen
            &&& saved.position == app.position && saved.dragging == app.dragging
            &&& saved.gif_pack == app.gif_pack && saved.loop_style == app.loop_style
            &&& saved.speed_bits == app.speed_bits
            &&& saved.has_modern_config == app.has_modern_config
            &&& saved.applied_config == app.applied_config
            &&& saved.last_logged_signature == app.last_logged_signature
        }),
{
}

/// The compositor is asked where it has a socket and the place is finite: always, where the
/// window stands in its corner; and where it has a saved position beyond the screen, exactly
/// where that is finite both ways. Without a socket, or with an empty one, it is not asked.
pub proof fn law_when_the_compositor_is_asked(
    app: AppView,
    socket: Seq<char>,
    win: [i64; 2],
    pos: WindowPositionState,
)
    requires
        point_on_scale(app.screen),
        point_on_scale(win),
    ensures
        !asks_compositor(app, None, win, Some(pos)),
        !asks_compositor(app, None, win, None),
        socket.len() == 0 ==> !asks_compositor(app, Some(socket), win, Some(pos))
            && !asks_compositor(app, Some(socket), win, None),
        socket.len() > 0 ==> asks_compositor(app, Some(socket), win, None),
        socket.len() > 0 ==> (asks_compositor(app, Some(socket), win, Some(pos)) <==> pos.x
            != i64::MIN && pos.x != i64::MIN + 1 && pos.x != i64::MAX && pos.y != i64::MIN && pos.y
            != i64::MIN + 1 && pos.y != i64::MAX),
{
}

/// Plans that look the same ask for the same.
pub proof fn law_plan_shows_all(a: FramePlan, b: FramePlan)
    requires
        a@ == b@,
    ensures
        a is Close <==> b is Close,
        a is Waiting <==> b is Waiting,
        a is Waiting ==> a->Waiting_0 == b->Waiting_0,
        a is List <==> b is List,
        a is List ==> {
            let (x, y) = (a->List_0, b->List_0);
            &&& x.store_size == y.store_size && x.layout == y.layout && x.win == y.win
            &&& x.moved == y.moved && x.start_drag == y.start_drag
            &&& x.save_position == y.save_position && x.menu == y.menu
            &&& x.rows.deep_view() == y.rows.deep_view()
            &&& x.agents.deep_view() == y.agents.deep_view()
            &&& x.log is Some <==> y.log is Some
            &&& x.log is Some ==> x.log->0@ == y.log->0@
        },
{
}

/// Geometry keys that look the same hold the same.
pub proof fn law_geometry_shows_all(a: WindowGeometryKey, b: WindowGeometryKey)
    requires
        a@ == b@,
    ensures
        a.position@ == b.position@,
        a.custom_x == b.custom_x && a.custom_y == b.custom_y && a.size_px == b.size_px,
        a.win_w == b.win_w && a.win_h == b.win_h,
        a.screen_w == b.screen_w && a.screen_h == b.screen_h,
{
}

/// While the state file does not change, the sessions whose process has ended go, and nothing
/// else changes. A session that names no process goes where the file has a top-level
/// configuration.
pub proof fn law_ended_sessions_leave_the_window<F: Fn(u32) -> bool>(
    before: AppView,
    alive: F,
    p: spec_fn(u32) -> bool,
    after: AppView,
)
    requires
        forall|pid: u32, b: bool| #[trigger] alive.ensures((pid,), b) ==> b == p(pid),
        lives_on(before, alive, after),
    ensures
        after.sessions == before.sessions.filter(
            |x: SessionView|
                (x.pid is Some && p(x.pid->0)) || (x.pid is None && !before.has_modern_config),
        ),
        after == (AppView { sessions: after.sessions, ..before }),
{
    let keep = choose|keep: Seq<bool>| #[trigger]
        may_keep(before.sessions, before.has_modern_config, alive, keep) && after.sessions == kept(
            before.sessions,
            keep,
        );
    law_ended_sessions_go(before.sessions, before.has_modern_config, alive, p, keep);
}

} // verus!

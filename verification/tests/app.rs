use companion::app::{global_position, CompanionApp, FrameInput, FramePlan, ListPlan};
use companion::geometry::{GAP, NOT_A_NUMBER, POINT};
use companion::picker::MenuState;
use companion::state::{
    CompanionConfigState, CompanionState, SavedWindow, SessionInfo, WindowPositionState,
};

const SCREEN: [i64; 2] = [1440 * POINT, 900 * POINT];

fn session(id: &str, cwd: &str, agents: &[&str]) -> SessionInfo {
    SessionInfo {
        session_id: id.to_string(),
        cwd: cwd.to_string(),
        active_agents: agents.iter().map(|s| s.to_string()).collect(),
        status: "busy".to_string(),
        pid: Some(1),
        active_agent: None,
        config: None,
    }
}

fn config(position: &str, size: &str) -> CompanionConfigState {
    CompanionConfigState {
        enabled: true,
        position: position.into(),
        size: size.into(),
        gif_pack: "default".into(),
        loop_style: "smooth".into(),
        speed_bits: 2.0f32.to_bits(),
    }
}

fn state(sessions: Vec<SessionInfo>, config: Option<CompanionConfigState>) -> CompanionState {
    CompanionState { sessions, config, window_positions: Vec::new() }
}

fn idle() -> FrameInput {
    FrameInput {
        quit: false,
        monitor_size: None,
        stored_size: None,
        menu: MenuState::closed(),
        primary_pressed: false,
        primary_down: false,
        primary_released: false,
        secondary_released: false,
        cursor: None,
        outer: None,
    }
}

fn list(plan: FramePlan) -> ListPlan {
    match plan {
        FramePlan::List(plan) => plan,
        other => panic!("no list: {other:?}"),
    }
}

fn none_alive(_: u32) -> bool {
    false
}

#[test]
fn window_starts_with_the_configuration() {
    let app = CompanionApp::new(
        state(vec![session("a", "/a", &[])], Some(config("top-left", "large"))),
        SCREEN,
    );
    assert_eq!(app.size(), 160);
    assert_eq!((app.position(), app.gif_pack(), app.loop_style()), ("top-left", "default", "smooth"));
    assert_eq!(f32::from_bits(app.speed_bits()), 2.0);
    assert_eq!((app.screen(), app.saved_position(), app.dragging()), (SCREEN, None, false));
    let plain = CompanionApp::new(state(Vec::new(), None), SCREEN);
    assert_eq!((plain.size(), plain.position(), plain.loop_style()), (120, "bottom-right", "classic"));
    assert_eq!(f32::from_bits(plain.speed_bits()), 1.0);
}

#[test]
fn saved_position_is_looked_up_by_its_key() {
    let at = |x| WindowPositionState { x, y: 1 };
    let saved = vec![
        SavedWindow { key: "/some/project".to_string(), position: at(1) },
        SavedWindow { key: "__companion_window__".to_string(), position: at(2) },
    ];
    assert_eq!(global_position(&saved), Some(at(2)));
    assert_eq!(global_position(&Vec::new()), None);
    let mut file = state(vec![session("a", "/a", &[])], None);
    file.window_positions = saved;
    assert_eq!(CompanionApp::new(file, SCREEN).saved_position(), Some(at(2)));
}

#[test]
fn poll_applies_a_changed_configuration_once() {
    let file = |size: &str| state(vec![session("a", "/a", &[])], Some(config("top-left", size)));
    let mut app = CompanionApp::new(file("small"), SCREEN);
    assert!(!app.poll(Some(file("small")), none_alive));
    assert!(app.poll(Some(file("xl")), none_alive));
    assert_eq!(app.size(), 200);
    assert!(!app.poll(Some(file("xl")), none_alive));
    assert!(app.poll(Some(state(Vec::new(), None)), none_alive));
    assert_eq!((app.size(), app.position()), (120, "bottom-right"));
}

#[test]
fn poll_without_news_drops_dead_sessions() {
    let mut second = session("b", "/b", &[]);
    second.pid = Some(2);
    let mut third = session("c", "/c", &[]);
    third.pid = None;
    let sessions = vec![session("a", "/a", &[]), second, third];
    let mut app = CompanionApp::new(state(sessions.clone(), Some(config("top-left", "xl"))), SCREEN);
    assert!(!app.poll(None, |pid| pid == 2));
    let ids: Vec<&str> = app.sessions().iter().map(|s| s.session_id.as_str()).collect();
    assert_eq!(ids, vec!["b"]);
    let mut old = CompanionApp::new(state(sessions, None), SCREEN);
    old.poll(None, none_alive);
    assert_eq!(old.sessions().len(), 1);
}

#[test]
fn window_waits_for_its_first_session_and_closes_after_the_last() {
    let mut app = CompanionApp::new(state(Vec::new(), None), SCREEN);
    assert!(matches!(app.update(false, &idle()), FramePlan::Waiting(Some(120))));
    assert!(matches!(app.update(false, &idle()), FramePlan::Close));
    let mut app = CompanionApp::new(state(vec![session("a", "/a", &[])], None), SCREEN);
    let quit = FrameInput { quit: true, ..idle() };
    assert!(matches!(app.update(false, &quit), FramePlan::Close));
    list(app.update(false, &idle()));
    app.poll(None, none_alive);
    assert!(matches!(app.update(false, &idle()), FramePlan::Close));
}

#[test]
fn first_frame_places_the_window() {
    let sessions = vec![session("b", "/b", &["x", "y", "z"]), session("a", "/a", &[])];
    let mut app = CompanionApp::new(state(sessions, None), SCREEN);
    let plan = list(app.update(false, &idle()));
    assert_eq!(plan.store_size, Some(120));
    let ids: Vec<&str> = plan.rows.iter().map(|s| s.session_id.as_str()).collect();
    assert_eq!(ids, vec!["a", "b"]);
    assert_eq!((plan.layout.win_w, plan.layout.win_h), (324, 260));
    assert_eq!(plan.log.as_deref(), Some("a:busy:1:,b:busy:3:x+y+z"));
    let moved = plan.moved.unwrap();
    assert_eq!(moved.win, [324 * POINT, 260 * POINT]);
    assert_eq!((moved.to.x, moved.to.y), ((1440 - 324 - 10) * POINT, (900 - 260 - 10) * POINT));
    assert!(!moved.keeps_saved);
    assert_eq!(plan.agents, vec![vec!["intro"], vec!["x", "y", "z"]]);
    assert!(!plan.start_drag && plan.save_position.is_none() && !plan.menu.open);
}

#[test]
fn window_is_bounded() {
    let agents = ["1", "2", "3", "4", "5", "6", "7", "8", "9"];
    let sessions = (0..20).map(|i| session(&format!("{i}"), "/a", &agents)).collect();
    let mut app = CompanionApp::new(state(sessions, Some(config("top-left", "xl"))), SCREEN);
    let plan = list(app.update(false, &idle()));
    assert_eq!(plan.rows.len(), 4);
    assert_eq!((plan.layout.win_w, plan.layout.win_h), (5 * 180, 4 * (180 + 22)));
    assert_eq!(plan.win, [900 * POINT, 808 * POINT]);
    assert_eq!(plan.moved.unwrap().win, plan.win);
    let tall = FrameInput { monitor_size: Some([3840 * POINT, 2160 * POINT]), ..idle() };
    let plan = list(app.update(false, &tall));
    assert_eq!(plan.rows.len(), 8);
    assert_eq!(plan.win, [900 * POINT, 1616 * POINT]);
}

#[test]
fn window_is_never_taller_than_the_screen() {
    let presets = [("small", 8, 92 * 8), ("medium", 6, 130 * 6), ("large", 5, 166 * 5), ("xl", 4, 808)];
    for (size, rows, height) in presets {
        let sessions = (0..8).map(|i| session(&format!("{i}"), &format!("/p{i}"), &[])).collect();
        let mut app = CompanionApp::new(state(sessions, Some(config("top-left", size))), SCREEN);
        let plan = list(app.update(false, &idle()));
        assert_eq!((plan.rows.len(), plan.win[1]), (rows, height * POINT), "{size}");
        let ids: Vec<String> = plan.rows.iter().map(|s| s.session_id.clone()).collect();
        let first: Vec<String> = (0..rows).map(|i| format!("{i}")).collect();
        assert_eq!(ids, first);
        assert_eq!(plan.agents.len(), rows);
        for h in [2, 50, 91, 92, 129, 130, 165, 166, 201, 202, 403, 404, 720, 1080, 2160] {
            let screen = Some([1000 * POINT, h * POINT]);
            let plan = list(app.update(false, &FrameInput { monitor_size: screen, ..idle() }));
            assert!(plan.win[1] <= h * POINT, "{size} on {h}");
            assert!((1..=8).contains(&plan.rows.len()));
        }
    }
}

#[test]
fn single_row_is_cut_to_a_screen_that_is_too_low() {
    let sessions = vec![session("a", "/a", &[]), session("b", "/b", &["x", "y"])];
    let mut app = CompanionApp::new(state(sessions, None), [1440 * POINT, 100 * POINT + 1]);
    let plan = list(app.update(false, &idle()));
    assert_eq!(plan.rows.len(), 1);
    assert_eq!((plan.layout.win_w, plan.layout.win_h), (108, 130));
    assert_eq!(plan.win, [108 * POINT, 100 * POINT + 1]);
    assert_eq!(plan.log.as_deref(), Some("a:busy:1:"));
}

#[test]
fn window_does_not_flicker_when_agents_change() {
    let file = |agents: &[&str]| state(vec![session("a", "/a", agents)], None);
    let mut app = CompanionApp::new(file(&["x", "y"]), SCREEN);
    assert!(list(app.update(false, &idle())).moved.is_some());
    let same = list(app.update(false, &idle()));
    assert!(same.moved.is_none() && same.log.is_none() && same.store_size.is_none());
    let changed = app.poll(Some(file(&["z", "w"])), none_alive);
    let plan = list(app.update(changed, &idle()));
    assert!(plan.moved.is_none());
    assert_eq!(plan.log.as_deref(), Some("a:busy:2:z+w"));
    app.poll(Some(file(&["z", "w", "v"])), none_alive);
    assert!(list(app.update(false, &idle())).moved.is_some());
}

#[test]
fn saved_coordinate_that_is_not_a_number_counts_as_zero() {
    let file = |x: i64| CompanionState {
        window_positions: vec![SavedWindow {
            key: "__companion_window__".to_string(),
            position: WindowPositionState { x, y: -POINT },
        }],
        ..state(vec![session("a", "/a", &[])], None)
    };
    let mut app = CompanionApp::new(file(NOT_A_NUMBER), SCREEN);
    let moved = list(app.update(false, &idle())).moved.unwrap();
    assert_eq!((moved.to.x, moved.keeps_saved), (NOT_A_NUMBER, true));
    app.poll(Some(file(0)), none_alive);
    assert!(list(app.update(false, &idle())).moved.is_none());
    app.poll(Some(file(NOT_A_NUMBER + 1)), none_alive);
    assert!(list(app.update(false, &idle())).moved.is_some());
}

#[test]
fn picked_size_stays_until_the_configuration_changes() {
    let file = |size: &str| state(vec![session("a", "/a", &[])], Some(config("top-left", size)));
    let mut app = CompanionApp::new(file("small"), SCREEN);
    list(app.update(false, &idle()));
    let picked = FrameInput { stored_size: Some(200), ..idle() };
    let plan = list(app.update(false, &picked));
    assert_eq!((app.size(), plan.store_size), (200, None));
    assert!(plan.moved.is_some());
    let changed = app.poll(Some(file("small")), none_alive);
    list(app.update(changed, &picked));
    assert_eq!(app.size(), 200);
    let changed = app.poll(Some(file("large")), none_alive);
    let plan = list(app.update(changed, &picked));
    assert_eq!((app.size(), plan.store_size), (160, Some(160)));
}

#[test]
fn monitor_of_a_point_does_not_count() {
    let mut app = CompanionApp::new(state(vec![session("a", "/a", &[])], None), SCREEN);
    app.update_screen_from_ctx(Some([POINT, 900 * POINT]));
    app.update_screen_from_ctx(None);
    assert_eq!(app.screen(), SCREEN);
    let wide = [2000 * POINT, 1000 * POINT];
    let plan = list(app.update(false, &FrameInput { monitor_size: Some(wide), ..idle() }));
    assert_eq!(app.screen(), wide);
    assert_eq!(plan.moved.unwrap().to.x, (2000 - 108 - 10) * POINT);
}

#[test]
fn drag_is_saved_where_it_ends() {
    let mut app = CompanionApp::new(state(vec![session("a", "/a", &[])], None), SCREEN);
    list(app.update(false, &idle()));
    let press = FrameInput { primary_pressed: true, primary_down: true, ..idle() };
    let plan = list(app.update(false, &press));
    assert!(plan.start_drag && plan.save_position.is_none() && app.dragging());
    let end = WindowPositionState { x: 200 * POINT, y: 300 * POINT };
    let release = FrameInput { primary_released: true, outer: Some(end), ..idle() };
    let plan = list(app.update(false, &release));
    assert!(!plan.start_drag && !app.dragging());
    assert_eq!(plan.save_position, Some(end));
    app.position_saved(end, false);
    assert_eq!(app.saved_position(), None);
    assert!(list(app.update(false, &idle())).moved.is_none());
    app.position_saved(end, true);
    let moved = list(app.update(false, &idle())).moved.unwrap();
    assert_eq!((moved.to, moved.keeps_saved), (end, true));
    assert!(list(app.update(false, &release)).save_position.is_none());
}

#[test]
fn press_on_an_open_menu_starts_no_drag() {
    let mut app = CompanionApp::new(state(vec![session("a", "/a", &[])], None), SCREEN);
    let click = FrameInput { secondary_released: true, cursor: Some([5, 6]), ..idle() };
    let menu = list(app.update(false, &click)).menu;
    assert!(menu.open && menu.just_opened);
    assert_eq!(menu.pos, [5, 6]);
    let press = FrameInput { menu, primary_pressed: true, primary_down: true, ..idle() };
    let plan = list(app.update(false, &press));
    assert!(!plan.start_drag && !app.dragging());
    assert_eq!(plan.menu, menu);
}

#[test]
fn compositor_is_asked_where_it_has_a_socket() {
    let mut app = CompanionApp::new(state(vec![session("a", "/a", &[])], None), SCREEN);
    let win = [100 * POINT, 100 * POINT];
    assert_eq!(app.spawn_niri_fallback(None, win, None), None);
    assert_eq!(app.spawn_niri_fallback(Some(String::new()), win, None), None);
    let socket = || Some("/run/niri".to_string());
    let request = app.spawn_niri_fallback(socket(), win, None).unwrap();
    assert_eq!((request.socket.as_str(), request.position.as_str()), ("/run/niri", "bottom-right"));
    assert_eq!((request.target, request.screen, request.win), (None, SCREEN, win));
    assert_eq!((request.generation, app.niri_generation()), (1, 1));
    let saved = Some(WindowPositionState { x: GAP, y: GAP });
    assert_eq!(app.spawn_niri_fallback(socket(), win, saved).unwrap().target, saved);
    let lost = Some(WindowPositionState { x: i64::MIN, y: GAP });
    assert_eq!(app.spawn_niri_fallback(socket(), win, lost), None);
    let lost = Some(WindowPositionState { x: GAP, y: i64::MAX });
    assert_eq!(app.spawn_niri_fallback(socket(), win, lost), None);
    assert_eq!(app.niri_generation(), 2);
    let lost = Some(WindowPositionState { x: i64::MIN + 1, y: GAP });
    assert_eq!(app.spawn_niri_fallback(socket(), win, lost), None);
    let far = Some(WindowPositionState { x: i64::MAX - 1, y: i64::MIN + 2 });
    let request = app.spawn_niri_fallback(socket(), win, far).unwrap();
    assert_eq!((request.target, request.generation), (far, 3));
    list(app.update(false, &idle()));
    assert_eq!(app.niri_generation(), 3);
}

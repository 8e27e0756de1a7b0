use companion::config::{
    apply_config, config_global, config_key, normalized_gif_pack, normalized_loop_style,
    size_from_config, ConfigKey,
};
use companion::drawing::{
    agents_by_row, agents_shown, content_signature, max_agents, project_name, render_row,
    row_agents, row_label, shown_name, status_color, Rgb, MAX_AGENTS_PER_ROW,
};
use companion::geometry::list_layout;
use companion::liveness::{is_pid_alive, retain_live};
use companion::rows::{ordered_sessions, MAX_ROWS};
use companion::state::{CompanionConfigState, SessionInfo};

fn session(id: &str, cwd: &str, status: &str, agents: &[&str]) -> SessionInfo {
    SessionInfo {
        session_id: id.to_string(),
        cwd: cwd.to_string(),
        active_agents: agents.iter().map(|s| s.to_string()).collect(),
        status: status.to_string(),
        pid: Some(1),
        active_agent: None,
        config: None,
    }
}

fn config(position: &str, size: &str, loop_style: &str, speed: f32) -> CompanionConfigState {
    CompanionConfigState {
        enabled: true,
        position: position.into(),
        size: size.into(),
        gif_pack: "default".into(),
        loop_style: loop_style.into(),
        speed_bits: speed.to_bits(),
    }
}

#[test]
fn agents_shown_clamps_between_one_and_max() {
    assert_eq!(agents_shown(0), 1);
    assert_eq!(agents_shown(3), 3);
    assert_eq!(agents_shown(20), MAX_AGENTS_PER_ROW);
}

#[test]
fn ordered_sessions_sorts_and_truncates() {
    let sessions: Vec<SessionInfo> = (0..MAX_ROWS + 3)
        .rev()
        .map(|i| session(&format!("s{i}"), &format!("/p{i:02}"), "busy", &["fixer"]))
        .collect();
    let ordered = ordered_sessions(&sessions);
    assert_eq!(ordered.len(), MAX_ROWS);
    // Sorted by cwd ascending, so /p00 comes first.
    assert_eq!(ordered[0].cwd, "/p00");
    let cwds: Vec<&str> = ordered.iter().map(|s| s.cwd.as_str()).collect();
    assert_eq!(cwds, vec!["/p00", "/p01", "/p02", "/p03", "/p04", "/p05", "/p06", "/p07"]);
}

#[test]
fn ordered_sessions_is_stable_by_cwd_then_id() {
    let sessions = vec![
        session("b", "/same", "busy", &["fixer"]),
        session("a", "/same", "idle", &["intro"]),
    ];
    let ordered = ordered_sessions(&sessions);
    assert_eq!(ordered[0].session_id, "a");
    assert_eq!(ordered[1].session_id, "b");
}

#[test]
fn sessions_with_the_same_key_stay_as_they_came() {
    let sessions = vec![
        session("a", "/x", "first", &[]),
        session("a", "/w", "other", &[]),
        session("a", "/x", "second", &[]),
    ];
    let statuses: Vec<String> =
        ordered_sessions(&sessions).iter().map(|s| s.status.clone()).collect();
    assert_eq!(statuses, vec!["other", "first", "second"]);
}

#[test]
fn order_is_by_code_point_and_prefixes_come_first() {
    let sessions = vec![
        session("1", "/\u{e9}", "", &[]),
        session("2", "/z", "", &[]),
        session("3", "/\u{1f600}", "", &[]),
        session("4", "/", "", &[]),
        session("5", "/Z", "", &[]),
        session("6", "/\u{ffff}", "", &[]),
    ];
    let mut expected: Vec<String> = sessions.iter().map(|s| s.cwd.clone()).collect();
    expected.sort();
    let got: Vec<String> = ordered_sessions(&sessions).iter().map(|s| s.cwd.clone()).collect();
    assert_eq!(got, expected);
    assert_eq!(got[0], "/");
}

#[test]
fn rows_do_not_jump_when_statuses_change() {
    let before = vec![
        session("2", "/b", "busy", &["x"]),
        session("1", "/a", "idle", &[]),
        session("3", "/c", "busy", &["x", "y"]),
    ];
    let after = vec![
        session("2", "/b", "idle", &[]),
        session("1", "/a", "waiting-input", &["z"]),
        session("3", "/c", "idle", &[]),
    ];
    let ids = |s: &[SessionInfo]| -> Vec<String> {
        ordered_sessions(s).iter().map(|s| s.session_id.clone()).collect()
    };
    assert_eq!(ids(&before), ids(&after));
    assert_eq!(ordered_sessions(&ordered_sessions(&before)), ordered_sessions(&before));
    let swapped = vec![before[2].clone(), before[0].clone(), before[1].clone()];
    assert_eq!(ordered_sessions(&swapped), ordered_sessions(&before));
}

#[test]
fn list_layout_grows_with_rows_and_agents() {
    let one = list_layout(1, 1, 120);
    let three_rows = list_layout(3, 1, 120);
    let three_agents = list_layout(1, 3, 120);
    assert!(three_rows.win_h > one.win_h, "more rows -> taller");
    assert!(three_agents.win_w > one.win_w, "more agents -> wider");
    // Width is thumbnail edge times agent count, with no reserved label
    // column, so a single-agent row is exactly one thumbnail wide.
    assert!((one.win_w as f32 - one.thumb as f32).abs() < 0.01);
    assert!((three_agents.win_w as f32 - three_agents.thumb as f32 * 3.0).abs() < 0.01);
    // Height is (thumbnail + label strip) times row count.
    assert!((one.win_h as f32 - one.row_h as f32).abs() < 0.01);
    assert!((three_rows.win_h as f32 - three_rows.row_h as f32 * 3.0).abs() < 0.01);
    assert!(one.row_h > one.thumb, "row includes a label strip");
}

#[test]
fn list_layout_scales_with_size_preset() {
    let small = list_layout(2, 2, 80);
    let large = list_layout(2, 2, 160);
    assert!(large.win_w > small.win_w);
    assert!(large.win_h > small.win_h);
}

#[test]
fn list_layout_agrees_with_the_fractions() {
    for size in 0..2000u32 {
        let thumb = (size as f32 * 0.9).round().max(24.0);
        let label_h = (thumb * 0.28).round().clamp(12.0, 22.0);
        let layout = list_layout(3, 4, size);
        assert_eq!(layout.thumb as f32, thumb);
        assert_eq!(layout.label_h as f32, label_h);
        assert_eq!(layout.win_w as f32, thumb * 4.0);
        assert_eq!(layout.win_h as f32, (thumb + label_h) * 3.0);
    }
    let medium = list_layout(2, 5, 120);
    assert_eq!((medium.thumb, medium.label_h, medium.row_h), (108, 22, 130));
    assert_eq!((medium.win_w, medium.win_h), (540, 260));
    let none = list_layout(0, 0, 80);
    assert_eq!((none.win_w, none.win_h), (72, 92));
}

#[test]
fn project_name_uses_basename() {
    assert_eq!(project_name("/a/b/my-project"), "my-project");
    assert_eq!(project_name(""), "unknown");
}

#[test]
fn project_name_is_the_same_on_every_platform() {
    for path in [
        "//a/b/proj",
        "//server/share/c/d/proj//",
        "/x/we\\ird/proj",
        "\\x/proj",
        "C:/proj",
        "C:/a/b/proj/.",
        "C:\\a/proj",
        "x/proj///",
        "proj/",
    ] {
        assert_eq!(project_name(path), "proj", "{path}");
    }
    assert_eq!(project_name("//a/b/.."), "unknown");
    assert_eq!(project_name("C:/.."), "unknown");
    assert_eq!(project_name(".."), "unknown");
    assert_eq!(project_name("../"), "unknown");
}

#[test]
fn project_name_is_that_of_the_platform() {
    let windows = std::path::MAIN_SEPARATOR == '\\';
    for (path, on_unix, on_windows) in [
        ("/x/a\\b", "a\\b", "b"),
        ("a\\.", "a\\.", "a"),
        ("a\\..", "a\\..", "unknown"),
        ("C:proj", "C:proj", "proj"),
        ("C:/", "C:", "unknown"),
        ("\\\\server\\share\\x", "\\\\server\\share\\x", "x"),
        ("//server/share/a\\b", "a\\b", "b"),
    ] {
        let expected = if windows { on_windows } else { on_unix };
        assert_eq!(project_name(path), expected, "{path}");
    }
}

#[test]
fn project_name_ignores_trailing_slashes_and_dots() {
    assert_eq!(project_name("/a/b/"), "b");
    assert_eq!(project_name("/a/b/./"), "b");
    assert_eq!(project_name("b//."), "b");
    assert_eq!(project_name("/"), "unknown");
    assert_eq!(project_name("."), "unknown");
    assert_eq!(project_name("./."), "unknown");
    assert_eq!(project_name("/a/.."), "unknown");
    assert_eq!(project_name("/a/..."), "...");
    assert_eq!(project_name(".hidden"), ".hidden");
    assert_eq!(project_name("/a/b:c"), "b:c");
    assert_eq!(shown_name(Some("x")), "x");
    assert_eq!(shown_name(None), "unknown");
}

#[test]
fn config_size_defaults_and_presets_work() {
    assert_eq!(size_from_config("small") as f32, 80.0);
    assert_eq!(size_from_config("medium") as f32, 120.0);
    assert_eq!(size_from_config("large") as f32, 160.0);
    assert_eq!(size_from_config("xl") as f32, 200.0);
    assert_eq!(size_from_config("xlarge") as f32, 200.0);
    assert_eq!(size_from_config("unknown") as f32, 120.0);
}

#[test]
fn config_key_tracks_position_size_and_animation() {
    let cfg = CompanionConfigState {
        enabled: true,
        position: "top-left".into(),
        size: "large".into(),
        gif_pack: "default".into(),
        loop_style: "classic".into(),
        speed_bits: 1.0f32.to_bits(),
    };
    assert_eq!(
        config_key(Some(&cfg)),
        Some(ConfigKey {
            position: "top-left".into(),
            size: "large".into(),
            gif_pack: "default".into(),
            loop_style: "classic".into(),
            speed_bits: 1.0f32.to_bits(),
        })
    );
    assert_eq!(config_key(None), None);
}

#[test]
fn apply_config_updates_all_fields_and_defaults() {
    let mut position = "bottom-right".to_string();
    let mut size = 200;
    let mut gif_pack = "default".to_string();
    let mut loop_style = "classic".to_string();
    let mut speed = 1.0f32.to_bits();
    let cfg = ConfigKey {
        position: "top-left".into(),
        size: "small".into(),
        gif_pack: "default".into(),
        loop_style: "smooth".into(),
        speed_bits: 2.0f32.to_bits(),
    };

    apply_config(
        Some(&cfg),
        &mut position,
        &mut size,
        &mut gif_pack,
        &mut loop_style,
        &mut speed,
    );
    assert_eq!(position, "top-left");
    assert_eq!(size as f32, 80.0);
    assert_eq!(loop_style, "smooth");
    assert_eq!(f32::from_bits(speed), 2.0);

    apply_config(
        None,
        &mut position,
        &mut size,
        &mut gif_pack,
        &mut loop_style,
        &mut speed,
    );
    assert_eq!(position, "bottom-right");
    assert_eq!(size as f32, 120.0);
    assert_eq!(loop_style, "classic");
    assert_eq!(f32::from_bits(speed), 1.0);
    assert_eq!(gif_pack, "default");
}

#[test]
fn unknown_styles_and_packs_fall_back() {
    assert_eq!(normalized_loop_style("smooth"), "smooth");
    assert_eq!(normalized_loop_style("Smooth"), "classic");
    assert_eq!(normalized_loop_style(""), "classic");
    assert_eq!(normalized_gif_pack("default"), "default");
    assert_eq!(normalized_gif_pack("other"), "default");
    let mut odd = config("top-left", "large", "bounce", 1.5);
    odd.gif_pack = "mine".into();
    let key = config_key(Some(&odd)).unwrap();
    assert_eq!((key.gif_pack.as_str(), key.loop_style.as_str()), ("default", "classic"));
}

#[test]
fn top_level_config_wins_over_the_first_session_that_carries_one() {
    let top = config("top-left", "small", "smooth", 1.0);
    let mut sessions = vec![session("a", "/a", "", &[]), session("b", "/b", "", &[])];
    assert_eq!(config_global(&sessions, None), None);
    sessions[1].config = Some(config("top-right", "large", "classic", 1.0));
    sessions.push(session("c", "/c", "", &[]));
    sessions[2].config = Some(config("bottom-left", "xl", "classic", 1.0));
    assert_eq!(config_global(&sessions, None).unwrap().position, "top-right");
    assert_eq!(config_global(&sessions, Some(&top)).unwrap().position, "top-left");
}

#[test]
fn rows_play_their_first_agents_or_the_introduction() {
    assert_eq!(row_agents(&session("a", "/a", "", &[])), vec!["intro"]);
    let many = session("a", "/a", "", &["1", "2", "3", "4", "5", "6", "7"]);
    assert_eq!(row_agents(&many), vec!["1", "2", "3", "4", "5"]);
    let rows = vec![session("b", "/b", "", &["x", "y"]), session("c", "/c", "", &[])];
    assert_eq!(agents_by_row(&rows), vec![vec!["x", "y"], vec!["intro"]]);
    assert_eq!(max_agents(&rows), 2);
    assert_eq!(max_agents(&vec![many]), 5);
    assert_eq!(max_agents(&Vec::new()), 1);
}

#[test]
fn signature_lists_every_row() {
    let rows = vec![
        session("s1", "/b", "busy", &["x", "y"]),
        session("s2", "/c", "idle", &[]),
        session("s3", "/d", "idle", &["1", "2", "3", "4", "5", "6"]),
    ];
    assert_eq!(content_signature(&rows), "s1:busy:2:x+y,s2:idle:1:,s3:idle:5:1+2+3+4+5+6");
    assert_eq!(content_signature(&Vec::new()), "");
}

#[test]
fn label_hints_at_agents_that_are_not_drawn() {
    assert_eq!(row_label("p", 7, 5), "p +2");
    assert_eq!(row_label("p", 105, 5), "p +100");
    assert_eq!(row_label("p", 5, 5), "p");
    assert_eq!(row_label("p", 0, 1), "p");
    assert_eq!(row_label("p", usize::MAX, 0), format!("p +{}", usize::MAX));
}

#[test]
fn colors_follow_the_status() {
    assert_eq!(status_color("waiting-input"), Rgb { red: 240, green: 200, blue: 90 });
    assert_eq!(status_color("busy"), Rgb { red: 120, green: 200, blue: 255 });
    assert_eq!(status_color("idle"), Rgb { red: 210, green: 210, blue: 214 });
    assert_eq!(status_color("Busy"), Rgb { red: 210, green: 210, blue: 214 });
}

#[test]
fn row_is_planned_below_the_rows_above_it() {
    let layout = list_layout(3, 2, 120);
    let s = session("a", "/x/name", "busy", &["1", "2", "3"]);
    let row = render_row(&s, &layout, 2, 2);
    assert_eq!(row.label, "name +1");
    assert_eq!(row.color, status_color("busy"));
    assert_eq!((row.row_top, row.icons_top), (260, 282));
    assert_eq!(row.max_text_w, 208);
    assert_eq!(row.cell_lefts, vec![0, 108]);
    assert!(row.separator);
    assert!(!render_row(&s, &layout, 0, 0).separator);
}

#[test]
fn dead_sessions_are_dropped() {
    let mut sessions: Vec<SessionInfo> =
        (0..5).map(|i| session(&format!("{i}"), "/a", "", &[])).collect();
    for (i, s) in sessions.iter_mut().enumerate() {
        s.pid = if i == 3 { None } else { Some(i as u32) };
    }
    let ids = |s: &[SessionInfo]| -> Vec<String> {
        s.iter().map(|s| s.session_id.clone()).collect()
    };
    let mut modern = sessions.clone();
    retain_live(&mut modern, true, |pid| pid % 2 == 0);
    assert_eq!(ids(&modern), vec!["0", "2", "4"]);
    let mut old = sessions.clone();
    retain_live(&mut old, false, |pid| pid % 2 == 0);
    assert_eq!(ids(&old), vec!["0", "2", "3", "4"]);
    retain_live(&mut old, true, |_| false);
    assert!(old.is_empty());
}

#[test]
fn process_is_alive_where_it_can_be_signalled() {
    assert!(is_pid_alive(Some(0)));
    assert!(!is_pid_alive(Some(-1)));
    assert!(is_pid_alive(None));
}

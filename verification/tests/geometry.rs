use companion::geometry::{
    clamp_window_position, desired_position, is_finite_coord, place_window,
    restore_window_position, round_to_i32, round_to_u32, GAP, NOT_A_NUMBER, POINT,
};
use companion::picker::{
    clicked_outside_menu, open_menu, preset_label, preset_size, render_size_picker,
    size_picker_clicked, MenuState, MENU_PAD,
};
use companion::state::WindowPositionState;

fn units(v: [f32; 2]) -> [i64; 2] {
    [(v[0] as f64 * POINT as f64) as i64, (v[1] as f64 * POINT as f64) as i64]
}

fn points(v: [i64; 2]) -> [f32; 2] {
    [(v[0] as f64 / POINT as f64) as f32, (v[1] as f64 / POINT as f64) as f32]
}

fn place(position: &str, screen: [f32; 2], win: [f32; 2]) -> [f32; 2] {
    points(place_window(position, units(screen), units(win)))
}

fn restore(pos: [f32; 2], screen: [f32; 2], win: [f32; 2]) -> [f32; 2] {
    points(restore_window_position(units(pos), units(screen), units(win)))
}

const GAP_POINTS: f32 = 10.0;

#[test]
fn gap_is_ten_points() {
    assert_eq!(points([GAP, GAP]), [GAP_POINTS, GAP_POINTS]);
}

#[test]
fn top_left_is_gap_gap() {
    assert_eq!(
        place("top-left", [1440.0, 900.0], [240.0, 240.0]),
        [GAP_POINTS, GAP_POINTS]
    );
}

#[test]
fn bottom_right_stays_anchored_when_height_grows() {
    let small = place("bottom-right", [1440.0, 900.0], [240.0, 240.0]);
    let tall = place("bottom-right", [1440.0, 900.0], [240.0, 480.0]);
    assert!(tall[1] < small[1]);
    assert!((tall[1] + 480.0 + GAP_POINTS - 900.0).abs() < 0.01);
}

#[test]
fn bottom_right_stays_anchored_when_width_grows() {
    let small = place("bottom-right", [1440.0, 900.0], [240.0, 240.0]);
    let wide = place("bottom-right", [1440.0, 900.0], [480.0, 240.0]);
    assert!(wide[0] < small[0]);
    assert!((wide[0] + 480.0 + GAP_POINTS - 1440.0).abs() < 0.01);
}

#[test]
fn oversized_window_uses_best_effort_gap_anchor() {
    assert_eq!(
        place("bottom-right", [300.0, 300.0], [500.0, 500.0]),
        [GAP_POINTS, GAP_POINTS]
    );
}

#[test]
fn restore_clamps_origin_zero_positions() {
    assert_eq!(
        restore([1400.0, 850.0], [1440.0, 900.0], [120.0, 120.0]),
        [1310.0, 770.0]
    );
}

#[test]
fn restore_preserves_negative_origin_monitor_positions() {
    assert_eq!(
        restore([-900.0, 40.0], [1440.0, 900.0], [120.0, 120.0]),
        [-900.0, 40.0]
    );
}

#[test]
fn every_corner_is_placed() {
    let (screen, win) = ([1440.0, 900.0], [240.0, 100.0]);
    assert_eq!(place("top-right", screen, win), [1190.0, 10.0]);
    assert_eq!(place("bottom-left", screen, win), [10.0, 790.0]);
    assert_eq!(place("bottom-right", screen, win), [1190.0, 790.0]);
    assert_eq!(place("middle", screen, win), [1190.0, 790.0]);
    let fraction = place("bottom-right", [1706.6666, 960.0], win);
    assert_eq!(fraction, [1706.6666 - 240.0 - 10.0, 850.0]);
}

#[test]
fn restoring_twice_is_restoring_once() {
    let (screen, win) = ([1440.0, 900.0], [120.0, 120.0]);
    for pos in [[0.0, 0.0], [1400.0, 850.0], [500.0, -3.0], [20.0, 30.0]] {
        let once = restore(pos, screen, win);
        assert_eq!(restore(once, screen, win), once);
    }
    assert_eq!(
        points(clamp_window_position(units([-5.0, 2000.0]), units(screen), units(win))),
        [10.0, 770.0]
    );
}

#[test]
fn position_off_the_scale_is_kept() {
    let (screen, win) = (units([1440.0, 900.0]), units([120.0, 120.0]));
    let lost = WindowPositionState { x: i64::MIN, y: i64::MAX };
    assert_eq!(desired_position("top-left", Some(lost), screen, win), lost);
    let corner = WindowPositionState { x: GAP, y: GAP };
    assert_eq!(desired_position("top-left", None, screen, win), corner);
}

#[test]
fn rounding_goes_to_the_nearest_point() {
    for v in [0.0f32, 0.5, 1.5, 2.4999, -0.5, -1.5, -2.25, 1439.75, -900.5, 3e9, -3e9] {
        let u = (v as f64 * POINT as f64) as i64;
        assert_eq!(round_to_i32(u), v.round() as i32);
        assert_eq!(round_to_u32(u), v.round() as u32);
    }
    let (minus_infinity, infinity) = (NOT_A_NUMBER + 1, i64::MAX);
    for (u, v) in
        [(NOT_A_NUMBER, f32::NAN), (minus_infinity, f32::NEG_INFINITY), (infinity, f32::INFINITY)]
    {
        assert_eq!(round_to_i32(u), v.round() as i32);
        assert_eq!(round_to_u32(u), v.round() as u32);
    }
    assert_eq!(round_to_i32(NOT_A_NUMBER), 0);
    assert_eq!(round_to_i32(minus_infinity), i32::MIN);
}

#[test]
fn what_is_not_a_number_is_not_clamped() {
    let (screen, win) = (units([1440.0, 900.0]), units([120.0, 120.0]));
    let pos = [NOT_A_NUMBER, NOT_A_NUMBER + 1];
    assert_eq!(clamp_window_position(pos, screen, win), [NOT_A_NUMBER, GAP]);
    assert_eq!(clamp_window_position([i64::MAX, GAP], screen, win)[0], 1310 * POINT);
    assert_eq!(restore_window_position([NOT_A_NUMBER, GAP], screen, win), [NOT_A_NUMBER, GAP]);
    let mut menu = open_menu(MenuState::closed(), true, Some([NOT_A_NUMBER, NOT_A_NUMBER + 1]));
    let picker = render_size_picker(&mut menu, false, 120, win).unwrap();
    assert_eq!(picker.pos, [NOT_A_NUMBER, MENU_PAD]);
    for (u, finite) in [(NOT_A_NUMBER, false), (NOT_A_NUMBER + 1, false), (NOT_A_NUMBER + 2, true)] {
        assert_eq!(is_finite_coord(u), finite);
    }
    assert!(is_finite_coord(i64::MAX - 1) && !is_finite_coord(i64::MAX));
}

#[test]
fn presets_are_named() {
    let all: Vec<(&str, u32)> = (0..4).map(|i| (preset_label(i), preset_size(i))).collect();
    assert_eq!(all, vec![("S", 80), ("M", 120), ("L", 160), ("XL", 200)]);
}

#[test]
fn picker_is_drawn_inside_the_window() {
    let win = units([300.0, 200.0]);
    let mut menu = open_menu(MenuState::closed(), true, Some(units([290.0, 1.0])));
    let plan = render_size_picker(&mut menu, false, 160, win).unwrap();
    assert_eq!(points(plan.pos), [300.0 - 76.0 - 2.0, 2.0]);
    assert_eq!(plan.active, [false, false, true, false]);
    assert!(menu.open);

    let mut lost = open_menu(MenuState::closed(), true, None);
    assert_eq!(lost.pos, [0, 0]);
    let plan = render_size_picker(&mut lost, false, 100, units([10.0, 10.0])).unwrap();
    assert_eq!(plan.pos, [MENU_PAD, MENU_PAD]);
    assert_eq!(plan.active, [false; 4]);
}

#[test]
fn closed_picker_draws_nothing_and_escape_closes_it() {
    let mut menu = MenuState::closed();
    assert_eq!(points(menu.pos), [20.0, 20.0]);
    assert_eq!(render_size_picker(&mut menu, false, 120, units([300.0, 200.0])), None);
    let mut menu = open_menu(menu, true, None);
    assert_eq!(render_size_picker(&mut menu, true, 120, units([300.0, 200.0])), None);
    assert!(!menu.open && menu.just_opened);
    let kept = open_menu(menu, false, Some([1, 1]));
    assert_eq!(kept, menu);
}

#[test]
fn opening_click_does_not_close_the_picker() {
    let mut menu = open_menu(MenuState::closed(), true, None);
    let none = [false; 4];
    size_picker_clicked(&mut menu, none, false, true);
    assert!(menu.open && !menu.just_opened);
    let outcome = size_picker_clicked(&mut menu, none, false, true);
    assert!(!menu.open);
    assert_eq!((outcome.size, outcome.quit), (None, false));
}

#[test]
fn picker_buttons_choose_or_quit() {
    let open = open_menu(MenuState::closed(), true, None);
    let mut menu = open;
    let outcome = size_picker_clicked(&mut menu, [false, false, false, true], false, false);
    assert_eq!((outcome.size, outcome.quit, menu.open), (Some(200), false, false));
    let mut menu = open;
    let outcome = size_picker_clicked(&mut menu, [true, false, true, false], false, false);
    assert_eq!(outcome.size, Some(160));
    let mut menu = open;
    let outcome = size_picker_clicked(&mut menu, [false; 4], true, false);
    assert_eq!((outcome.size, outcome.quit, menu.open), (None, true, false));
}

#[test]
fn click_outside_needs_a_release_and_a_known_pointer() {
    assert!(clicked_outside_menu(true, false, Some(false)));
    assert!(clicked_outside_menu(false, true, Some(false)));
    assert!(!clicked_outside_menu(false, false, Some(false)));
    assert!(!clicked_outside_menu(true, true, Some(true)));
    assert!(!clicked_outside_menu(true, true, None));
}

/// The same placement in single precision throughout.
fn place_in_floats(position: &str, screen: [f32; 2], win: [f32; 2]) -> [f32; 2] {
    let far = [screen[0] - win[0] - 10.0, screen[1] - win[1] - 10.0];
    let (x, y) = match position {
        "bottom-left" => (10.0, far[1]),
        "top-right" => (far[0], 10.0),
        "top-left" => (10.0, 10.0),
        _ => (far[0], far[1]),
    };
    [x.clamp(10.0, far[0].max(10.0)), y.clamp(10.0, far[1].max(10.0))]
}

/// The same restoring in single precision throughout.
fn restore_in_floats(pos: [f32; 2], screen: [f32; 2], win: [f32; 2]) -> [f32; 2] {
    let on = |i: usize| 0.0 <= pos[i] && pos[i] < screen[i];
    let clamp = |i: usize| pos[i].clamp(10.0, (screen[i] - win[i] - 10.0).max(10.0));
    if on(0) && on(1) {
        [clamp(0), clamp(1)]
    } else {
        pos
    }
}

#[test]
fn units_lose_nothing_of_single_precision() {
    let mut seed = 12345u64;
    let mut next = |scale: f32| -> f32 {
        seed = seed.wrapping_mul(6364136223846793005).wrapping_add(1442695040888963407);
        ((seed >> 40) as f32 / 16777216.0) * scale
    };
    for round in 0..2000 {
        let screen = [2.0 + next(5000.0), 2.0 + next(3000.0)];
        let win = [(round % 37) as f32 * 36.0, (round % 11) as f32 * 130.0];
        let sign = |v: f32| if round % 3 == 0 { -v } else { v };
        let pos = [sign(2.0 + next(6000.0)), 2.0 + next(4000.0)];
        for corner in ["top-left", "top-right", "bottom-left", "bottom-right", ""] {
            assert_eq!(place(corner, screen, win), place_in_floats(corner, screen, win));
        }
        assert_eq!(restore(pos, screen, win), restore_in_floats(pos, screen, win));
    }
}

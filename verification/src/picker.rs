//! The size picker: a small menu that a right click opens in the window.

use vstd::prelude::*;

use crate::geometry::{clamp_axis, POINT};
#[allow(unused_imports)]
use crate::geometry::{clamped_coord, farthest, point_on_scale, NOT_A_NUMBER};

verus! {

/// The width of the menu: 76 points.
pub const MENU_W: i64 = 76 * POINT;

/// The height of the menu: 58 points.
pub const MENU_H: i64 = 58 * POINT;

/// The room that the menu keeps from the edges of the window: 2 points.
pub const MENU_PAD: i64 = 2 * POINT;

/// How far from the edges of the window the menu opens where no position is known: 20
/// points.
pub const MENU_START: i64 = 20 * POINT;

/// How many size presets there are.
pub const PRESETS: usize = 4;

/// The size of the preset with this number, in points.
pub open spec fn preset(i: int) -> u32 {
    if i == 0 {
        80
    } else if i == 1 {
        120
    } else if i == 2 {
        160
    } else {
        200
    }
}

/// `size` is that of a preset.
pub open spec fn is_preset(size: u32) -> bool {
    size == 80 || size == 120 || size == 160 || size == 200
}

/// The size of the preset with this number, in points.
pub fn preset_size(i: usize) -> (r: u32)
    requires
        i < PRESETS,
    ensures
        r == preset(i as int),
{
    match i {
        0 => 80,
        1 => 120,
        2 => 160,
        _ => 200,
    }
}

/// The name of the preset with this number.
pub open spec fn preset_name(i: int) -> Seq<char> {
    if i == 0 {
        "S"@
    } else if i == 1 {
        "M"@
    } else if i == 2 {
        "L"@
    } else {
        "XL"@
    }
}

/// The name of the preset with this number, as its button shows it.
pub fn preset_label(i: usize) -> (r: &'static str)
    requires
        i < PRESETS,
    ensures
        r@ == preset_name(i as int),
{
    match i {
        0 => "S",
        1 => "M",
        2 => "L",
        _ => "XL",
    }
}

/// The menu from one frame to the next.
#[derive(Clone, Copy, Debug, PartialEq, Eq)]
pub struct MenuState {
    pub open: bool,
    /// Where it was opened, in sub-point units from the top left of the window.
    pub pos: [i64; 2],
    /// It was opened in this frame.
    pub just_opened: bool,
}

impl MenuState {
    /// The menu before it was ever opened.
    pub fn closed() -> (r: MenuState)
        ensures
            !r.open,
            !r.just_opened,
            r.pos@ == seq![MENU_START, MENU_START],
            r.pos@[0] == 20 * 4_194_304 && r.pos@[1] == 20 * 4_194_304,
    {
        let r = MenuState { open: false, pos: [MENU_START, MENU_START], just_opened: false };
        assert(r.pos@ =~= seq![MENU_START, MENU_START]);
        r
    }
}

/// The menu after the secondary button was released, or was not: it opens where the pointer
/// is, or at the origin where that is not known.
pub open spec fn menu_after_release(
    menu: MenuState,
    released: bool,
    cursor: Option<[i64; 2]>,
) -> MenuState {
    if released {
        MenuState {
            open: true,
            pos: match cursor {
                Some(p) => p,
                None => [0i64, 0i64],
            },
            just_opened: true,
        }
    } else {
        menu
    }
}

/// Opens the menu where the secondary button was released.
pub fn open_menu(menu: MenuState, released: bool, cursor: Option<[i64; 2]>) -> (r: MenuState)
    ensures
        r == menu_after_release(menu, released, cursor),
{
    if released {
        MenuState {
            open: true,
            pos: match cursor {
                Some(p) => p,
                None => [0, 0],
            },
            just_opened: true,
        }
    } else {
        menu
    }
}

/// The menu as it is drawn.
#[derive(Clone, Copy, Debug, PartialEq, Eq)]
pub struct PickerPlan {
    /// Its top left, in sub-point units.
    pub pos: [i64; 2],
    /// Which presets are marked as the current size.
    pub active: [bool; 4],
}

/// Where the menu goes: where it was opened, moved into the window where it sticks out.
pub open spec fn menu_place(pos: [i64; 2], win: [i64; 2]) -> (int, int) {
    (
        clamped_coord(
            pos@[0] as int,
            MENU_PAD as int,
            farthest(win@[0] as int, MENU_W as int, MENU_PAD as int),
        ),
        clamped_coord(
            pos@[1] as int,
            MENU_PAD as int,
            farthest(win@[1] as int, MENU_H as int, MENU_PAD as int),
        ),
    )
}

/// Draws the size picker: nothing while it is closed, nothing either once the escape key
/// closes it, else the menu inside the window `win`, with the preset of the current size
/// marked.
pub fn render_size_picker(menu: &mut MenuState, escape: bool, size: u32, win: [i64; 2]) -> (r:
    Option<PickerPlan>)
    requires
        point_on_scale(win),
    ensures
        *final(menu) == (MenuState { open: old(menu).open && !escape, ..*old(menu) }),
        r is Some <==> old(menu).open && !escape,
        r matches Some(plan) ==> {
            &&& (plan.pos@[0] as int, plan.pos@[1] as int) == menu_place(old(menu).pos, win)
            &&& forall|i: int|
                0 <= i < PRESETS ==> #[trigger] plan.active@[i] == (size == preset(i))
        },
{
    if !menu.open {
        return None;
    }
    if escape {
        menu.open = false;
        return None;
    }
    let x: i64 = clamp_axis(menu.pos[0], win[0], MENU_W, MENU_PAD);
    let y: i64 = clamp_axis(menu.pos[1], win[1], MENU_H, MENU_PAD);
    Some(
        PickerPlan {
            pos: [x, y],
            active: [
                size == preset_size(0),
                size == preset_size(1),
                size == preset_size(2),
                size == preset_size(3),
            ],
        },
    )
}

/// Whether a click fell outside the menu: a button was released, and `inside` says that the
/// pointer is known and is not over the menu.
pub fn clicked_outside_menu(
    primary_released: bool,
    secondary_released: bool,
    inside: Option<bool>,
) -> (r: bool)
    ensures
        r == ((primary_released || secondary_released) && inside == Some(false)),
{
    (primary_released || secondary_released) && match inside {
        Some(inside) => !inside,
        None => false,
    }
}

/// What the clicks on the menu came to.
#[derive(Clone, Copy, Debug, PartialEq, Eq, Structural)]
pub struct PickerOutcome {
    /// The size that was chosen.
    pub size: Option<u32>,
    /// The window is to be closed.
    pub quit: bool,
}

/// The number of the last preset below `n` that was clicked.
pub open spec fn last_clicked(presets: Seq<bool>, n: int) -> Option<int>
    decreases n,
{
    if n <= 0 {
        None
    } else if presets[n - 1] {
        Some(n - 1)
    } else {
        last_clicked(presets, n - 1)
    }
}

/// The size that the clicks on the presets choose.
pub open spec fn chosen_size(presets: [bool; 4]) -> Option<u32> {
    match last_clicked(presets@, 4) {
        Some(i) => Some(preset(i)),
        None => None,
    }
}

/// The menu after the clicks of a frame: a preset and the close button close it, and so does
/// a click outside, unless the menu was opened in this very frame.
pub open spec fn menu_after_clicks(
    menu: MenuState,
    presets: [bool; 4],
    close: bool,
    outside: bool,
) -> MenuState {
    MenuState {
        open: menu.open && chosen_size(presets) is None && !close && (menu.just_opened
            || !outside),
        pos: menu.pos,
        just_opened: false,
    }
}

/// Acts on the clicks of a frame in which the menu was drawn.
pub fn size_picker_clicked(menu: &mut MenuState, presets: [bool; 4], close: bool, outside: bool)
    -> (r: PickerOutcome)
    ensures
        *final(menu) == menu_after_clicks(*old(menu), presets, close, outside),
        r.size == chosen_size(presets),
        r.quit == close,
{
    let mut size: Option<u32> = None;
    let mut i: usize = 0;
    while i < PRESETS
        invariant
            i <= PRESETS,
            size == (match last_clicked(presets@, i as int) {
                Some(k) => Some(preset(k)),
                None => None,
            }),
            *menu == (MenuState { open: old(menu).open && size is None, ..*old(menu) }),
        decreases PRESETS - i,
    {
        if presets[i] {
            size = Some(preset_size(i));
            menu.open = false;
        }
        i += 1;
    }
    if close {
        menu.open = false;
    }
    let just_opened: bool = menu.just_opened;
    menu.just_opened = false;
    if !just_opened && outside {
        menu.open = false;
    }
    PickerOutcome { size, quit: close }
}

// ---- laws ----

/// A menu that fits in the window is drawn wholly inside it, wherever it was opened.
pub proof fn law_menu_stays_inside(pos: [i64; 2], win: [i64; 2])
    requires
        pos@[0] != NOT_A_NUMBER && pos@[1] != NOT_A_NUMBER,
        MENU_W + 2 * MENU_PAD <= win@[0],
        MENU_H + 2 * MENU_PAD <= win@[1],
    ensures
        ({
            let (x, y) = menu_place(pos, win);
            &&& MENU_PAD <= x && x + MENU_W + MENU_PAD <= win@[0]
            &&& MENU_PAD <= y && y + MENU_H + MENU_PAD <= win@[1]
        }),
{
}

/// The click that opens the menu does not close it, and the next click outside does.
pub proof fn law_opening_click_keeps_the_menu(menu: MenuState, cursor: Option<[i64; 2]>)
    ensures
        ({
            let opened = menu_after_release(menu, true, cursor);
            let none = [false, false, false, false];
            let same_frame = menu_after_clicks(opened, none, false, true);
            &&& same_frame.open
            &&& !menu_after_clicks(same_frame, none, false, true).open
        }),
{
    let none = [false, false, false, false];
    reveal_with_fuel(last_clicked, 5);
    assert(chosen_size(none) is None);
}

/// Only the size of a preset can be chosen, and choosing one closes the menu.
pub proof fn law_choice_is_a_preset(
    menu: MenuState,
    presets: [bool; 4],
    close: bool,
    outside: bool,
)
    ensures
        chosen_size(presets) matches Some(size) ==> is_preset(size) && !menu_after_clicks(
            menu,
            presets,
            close,
            outside,
        ).open,
        chosen_size(presets) is Some <==> exists|i: int| 0 <= i < 4 && #[trigger] presets@[i],
{
    reveal_with_fuel(last_clicked, 5);
    if presets@[0] || presets@[1] || presets@[2] || presets@[3] {
    }
}

/// The size of a preset marks that preset's button alone, and any other size marks none.
pub proof fn law_one_preset_is_marked(size: u32, i: int, j: int)
    requires
        0 <= i < 4,
        0 <= j < 4,
    ensures
        size == preset(i) ==> is_preset(size) && (size == preset(j) <==> i == j),
        !is_preset(size) ==> size != preset(i),
{
}

/// An open menu stays open for as long as nothing is clicked: no preset, not the close button,
/// and nothing outside. The frame that opened it is over then, and it stands where it did.
pub proof fn law_menu_stays_open(menu: MenuState, presets: [bool; 4])
    requires
        menu.open,
        forall|i: int| 0 <= i < 4 ==> !#[trigger] presets@[i],
    ensures
        ({
            let next = menu_after_clicks(menu, presets, false, false);
            next.open && next.pos == menu.pos && !next.just_opened
        }),
{
    reveal_with_fuel(last_clicked, 5);
}

/// A menu is closed by a preset, by the close button, and by a click outside, but for the
/// frame that opened it; by nothing else. A closed menu is not opened by clicks.
pub proof fn law_what_closes_the_menu(
    menu: MenuState,
    presets: [bool; 4],
    close: bool,
    outside: bool,
)
    ensures
        ({
            let next = menu_after_clicks(menu, presets, close, outside);
            &&& !menu.open ==> !next.open
            &&& close ==> !next.open
            &&& presets@[0] || presets@[1] || presets@[2] || presets@[3] ==> !next.open
            &&& outside && !menu.just_opened ==> !next.open
            &&& menu.open && !next.open ==> {
                ||| close
                ||| presets@[0] || presets@[1] || presets@[2] || presets@[3]
                ||| outside && !menu.just_opened
            }
            &&& next.pos == menu.pos && !next.just_opened
        }),
{
    reveal_with_fuel(last_clicked, 5);
}

/// Each preset chooses its own size: 80, 120, 160 and 200 points. Where several are clicked at
/// once, the last one counts, and where none is, no size is chosen.
pub proof fn law_preset_is_chosen(presets: [bool; 4])
    ensures
        presets@[3] ==> chosen_size(presets) == Some(200u32),
        presets@[2] && !presets@[3] ==> chosen_size(presets) == Some(160u32),
        presets@[1] && !presets@[2] && !presets@[3] ==> chosen_size(presets) == Some(120u32),
        presets@[0] && !presets@[1] && !presets@[2] && !presets@[3] ==> chosen_size(presets)
            == Some(80u32),
        !presets@[0] && !presets@[1] && !presets@[2] && !presets@[3] ==> chosen_size(presets)
            is None,
{
    reveal_with_fuel(last_clicked, 5);
}

/// The presets, from the smallest to the largest, and the names on their buttons.
pub proof fn law_presets()
    ensures
        preset(0) == 80 && preset(1) == 120 && preset(2) == 160 && preset(3) == 200,
        preset_name(0) == "S"@ && preset_name(1) == "M"@,
        preset_name(2) == "L"@ && preset_name(3) == "XL"@,
        forall|size: u32| #[trigger]
            is_preset(size) <==> size == 80 || size == 120 || size == 160 || size == 200,
{
}

/// A right click opens the menu where the pointer is, at the origin where that is not known,
/// whether it was open or not; without one the menu stays as it is.
pub proof fn law_right_click_opens_the_menu(menu: MenuState, cursor: Option<[i64; 2]>)
    ensures
        menu_after_release(menu, true, cursor).open,
        menu_after_release(menu, true, cursor).just_opened,
        cursor matches Some(p) ==> menu_after_release(menu, true, cursor).pos == p,
        cursor is None ==> menu_after_release(menu, true, cursor).pos == [0i64, 0i64],
        menu_after_release(menu, false, cursor) == menu,
{
}

/// The menu is drawn where it was opened, if it is 2 points from the edges of the window there;
/// else at the nearest place where it is. Where there is no such place, it starts 2 points from
/// the top left. It is 76 points wide and 58 high.
pub proof fn law_menu_place(pos: [i64; 2], win: [i64; 2])
    ensures
        ({
            let (x, y) = menu_place(pos, win);
            let pad = 2 * 4_194_304;
            let far_x = win@[0] - 76 * 4_194_304 - pad;
            let far_y = win@[1] - 58 * 4_194_304 - pad;
            &&& pad <= pos@[0] <= far_x ==> x == pos@[0]
            &&& i64::MIN < pos@[0] < pad ==> x == pad
            &&& pad <= far_x < pos@[0] ==> x == far_x
            &&& i64::MIN < pos@[0] && far_x < pad ==> x == pad
            &&& pad <= pos@[1] <= far_y ==> y == pos@[1]
            &&& i64::MIN < pos@[1] < pad ==> y == pad
            &&& pad <= far_y < pos@[1] ==> y == far_y
            &&& i64::MIN < pos@[1] && far_y < pad ==> y == pad
            &&& pos@[0] == i64::MIN ==> x == i64::MIN
            &&& pos@[1] == i64::MIN ==> y == i64::MIN
        }),
{
}

/// The menu after a run of frames in which nothing is clicked.
pub open spec fn after_idle_frames(menu: MenuState, frames: nat) -> MenuState
    decreases frames,
{
    if frames == 0 {
        menu
    } else {
        menu_after_clicks(
            after_idle_frames(menu, (frames - 1) as nat),
            [false, false, false, false],
            false,
            false,
        )
    }
}

/// A menu that was opened is still there after any number of frames in which nothing is
/// clicked, and a preset that is clicked then is chosen and closes it.
pub proof fn law_menu_waits_for_a_choice(
    menu: MenuState,
    cursor: Option<[i64; 2]>,
    frames: nat,
    presets: [bool; 4],
    i: int,
)
    requires
        0 <= i < 4,
        forall|j: int| 0 <= j < 4 ==> #[trigger] presets@[j] == (i == j),
    ensures
        ({
            let waiting = after_idle_frames(menu_after_release(menu, true, cursor), frames);
            &&& waiting.open
            &&& waiting.pos == menu_after_release(menu, true, cursor).pos
            &&& !menu_after_clicks(waiting, presets, false, false).open
            &&& chosen_size(presets) == Some(seq![80u32, 120u32, 160u32, 200u32][i])
        }),
    decreases frames,
{
    assert(presets@[0] == (i == 0) && presets@[1] == (i == 1));
    assert(presets@[2] == (i == 2) && presets@[3] == (i == 3));
    law_preset_is_chosen(presets);
    let opened = menu_after_release(menu, true, cursor);
    let waiting = after_idle_frames(opened, frames);
    if frames > 0 {
        law_menu_waits_for_a_choice(menu, cursor, (frames - 1) as nat, presets, i);
        law_menu_stays_open(
            after_idle_frames(opened, (frames - 1) as nat),
            [false, false, false, false],
        );
    }
    law_what_closes_the_menu(waiting, presets, false, false);
}

/// A click is outside the menu where a button was released and the pointer is known to be off
/// the menu.
pub proof fn law_click_outside(primary: bool, secondary: bool, inside: Option<bool>, r: bool)
    requires
        call_ensures(clicked_outside_menu, (primary, secondary, inside), r),
    ensures
        r ==> (primary || secondary) && inside == Some(false),
        primary && inside == Some(false) ==> r,
        secondary && inside == Some(false) ==> r,
{
}

} // verus!

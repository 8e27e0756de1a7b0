//! What a row shows: its agents, its label and its colour.

use vstd::prelude::*;
use vstd::string::*;

use crate::geometry::ListLayout;
use crate::state::SessionInfo;
#[allow(unused_imports)]
use crate::state::SessionView;
use crate::text::{decimal_text, join_texts, same_text};
#[allow(unused_imports)]
use crate::text::{decimal, joined, law_decimal_digits, law_joining};

verus! {

/// Agents drawn in a row before the rest collapse into a "+N" hint.
pub const MAX_AGENTS_PER_ROW: usize = 5;

/// The room that a label leaves free beside it, in points.
pub const LABEL_ROOM: u128 = 8;

// ---- agents ----

/// How many agents a row shows: at least one, at most `MAX_AGENTS_PER_ROW`.
pub open spec fn shown(agent_count: int) -> int {
    if agent_count < 1 {
        1
    } else if agent_count > MAX_AGENTS_PER_ROW {
        MAX_AGENTS_PER_ROW as int
    } else {
        agent_count
    }
}

/// Agents to draw for a row, capped so that many agents do not stretch the row.
pub fn agents_shown(agent_count: usize) -> (r: usize)
    ensures
        r == shown(agent_count as int),
        1 <= r <= MAX_AGENTS_PER_ROW,
{
    if agent_count < 1 {
        1
    } else if agent_count > MAX_AGENTS_PER_ROW {
        MAX_AGENTS_PER_ROW
    } else {
        agent_count
    }
}

/// How many agents the widest row shows; one where there is no row.
pub open spec fn widest(rows: Seq<SessionView>) -> int
    decreases rows.len(),
{
    if rows.len() == 0 {
        1
    } else {
        let above = widest(rows.drop_last());
        let here = shown(rows.last().active_agents.len() as int);
        if here > above {
            here
        } else {
            above
        }
    }
}

/// How many agents the widest row shows.
pub fn max_agents(rows: &Vec<SessionInfo>) -> (r: usize)
    ensures
        r == widest(rows.deep_view()),
        1 <= r <= MAX_AGENTS_PER_ROW,
{
    let ghost all = rows.deep_view();
    let mut most: usize = 1;
    let mut i: usize = 0;
    while i < rows.len()
        invariant
            i <= rows.len(),
            all == rows.deep_view(),
            most == widest(all.take(i as int)),
            1 <= most <= MAX_AGENTS_PER_ROW,
        decreases rows.len() - i,
    {
        assert(all.take(i + 1).drop_last() =~= all.take(i as int));
        assert(all.take(i + 1).last() == rows@[i as int]@);
        let here: usize = agents_shown(rows[i].active_agents.len());
        if here > most {
            most = here;
        }
        i += 1;
    }
    assert(all.take(rows.len() as int) =~= all);
    most
}

/// The agents whose animations a row plays: the first ones, or the introduction where no
/// agent is active.
pub open spec fn row_agents_of(session: SessionView) -> Seq<Seq<char>> {
    if session.active_agents.len() == 0 {
        seq!["intro"@]
    } else {
        session.active_agents.take(shown(session.active_agents.len() as int))
    }
}

/// The agents whose animations a row plays.
pub fn row_agents(session: &SessionInfo) -> (r: Vec<String>)
    ensures
        r.deep_view() == row_agents_of(session@),
{
    let mut out: Vec<String> = Vec::new();
    let n: usize = session.active_agents.len();
    let ghost agents = session@.active_agents;
    if n == 0 {
        out.push("intro".to_owned());
        assert(out.deep_view() =~= row_agents_of(session@));
        return out;
    }
    let count: usize = agents_shown(n);
    let mut i: usize = 0;
    while i < count
        invariant
            i <= count <= n,
            n == session.active_agents.len(),
            agents == session.active_agents.deep_view(),
            out.deep_view() == agents.take(i as int),
        decreases count - i,
    {
        let ghost before = out.deep_view();
        out.push(session.active_agents[i].clone());
        assert(out.deep_view() =~= before.push(agents[i as int]));
        assert(agents.take(i + 1) =~= agents.take(i as int).push(agents[i as int]));
        i += 1;
    }
    out
}

/// The agents of every row.
pub open spec fn all_row_agents(rows: Seq<SessionView>) -> Seq<Seq<Seq<char>>> {
    Seq::new(rows.len(), |i: int| row_agents_of(rows[i]))
}

/// The agents whose animations each row plays, row by row.
pub fn agents_by_row(rows: &Vec<SessionInfo>) -> (r: Vec<Vec<String>>)
    ensures
        r.deep_view() == all_row_agents(rows.deep_view()),
{
    let ghost all = rows.deep_view();
    let mut out: Vec<Vec<String>> = Vec::new();
    let mut i: usize = 0;
    while i < rows.len()
        invariant
            i <= rows.len(),
            all == rows.deep_view(),
            out.deep_view() == all_row_agents(all).take(i as int),
        decreases rows.len() - i,
    {
        let ghost before = out.deep_view();
        out.push(row_agents(&rows[i]));
        assert(out.deep_view() =~= before.push(row_agents_of(all[i as int])));
        assert(all_row_agents(all).take(i + 1) =~= all_row_agents(all).take(i as int).push(
            row_agents_of(all[i as int]),
        ));
        i += 1;
    }
    assert(all_row_agents(all).take(rows.len() as int) =~= all_row_agents(all));
    out
}

// ---- the content signature ----

/// What of a row can change from one frame to the next: its session, the session's status and
/// its agents.
pub open spec fn row_signature_of(session: SessionView) -> Seq<char> {
    session.session_id + ":"@ + session.status + ":"@ + decimal(
        shown(session.active_agents.len() as int) as nat,
    ) + ":"@ + joined(session.active_agents, "+"@)
}

/// The signature of every row.
pub open spec fn row_signatures(rows: Seq<SessionView>) -> Seq<Seq<char>> {
    Seq::new(rows.len(), |i: int| row_signature_of(rows[i]))
}

/// The signatures of the rows, one after another.
pub open spec fn signature_of(rows: Seq<SessionView>) -> Seq<char> {
    joined(row_signatures(rows), ","@)
}

fn row_signature(session: &SessionInfo) -> (r: String)
    ensures
        r@ == row_signature_of(session@),
{
    let mut out = session.session_id.clone();
    out.append(":");
    out.append(session.status.as_str());
    out.append(":");
    out.append(decimal_text(agents_shown(session.active_agents.len()) as u64).as_str());
    out.append(":");
    out.append(join_texts(&session.active_agents, "+").as_str());
    out
}

/// The content of the list in one text, by which a change shows.
pub fn content_signature(rows: &Vec<SessionInfo>) -> (r: String)
    ensures
        r@ == signature_of(rows.deep_view()),
{
    let ghost all = rows.deep_view();
    let mut parts: Vec<String> = Vec::new();
    let mut i: usize = 0;
    while i < rows.len()
        invariant
            i <= rows.len(),
            all == rows.deep_view(),
            parts.deep_view() == row_signatures(all).take(i as int),
        decreases rows.len() - i,
    {
        let ghost before = parts.deep_view();
        parts.push(row_signature(&rows[i]));
        assert(parts.deep_view() =~= before.push(row_signature_of(all[i as int])));
        assert(row_signatures(all).take(i + 1) =~= row_signatures(all).take(i as int).push(
            row_signature_of(all[i as int]),
        ));
        i += 1;
    }
    assert(row_signatures(all).take(rows.len() as int) =~= row_signatures(all));
    join_texts(&parts, ",")
}

// ---- the project's name ----

/// A character that parts the components of a path: on Windows, a backslash does so too.
pub open spec fn separates(c: char, windows: bool) -> bool {
    c == '/' || (windows && c == '\\')
}

/// A path without the separators that it ends with, nor the `.` that stand between them.
pub open spec fn without_trailing_dots(path: Seq<char>, windows: bool) -> Seq<char>
    decreases path.len(),
{
    let n = path.len();
    if n >= 1 && separates(path[n - 1], windows) {
        without_trailing_dots(path.drop_last(), windows)
    } else if n >= 2 && path[n - 1] == '.' && separates(path[n - 2], windows) {
        without_trailing_dots(path.drop_last(), windows)
    } else {
        path
    }
}

/// What follows the last separator of a path; all of it where there is none.
pub open spec fn after_last_separator(path: Seq<char>, windows: bool) -> Seq<char>
    decreases path.len(),
{
    if path.len() == 0 || separates(path.last(), windows) {
        Seq::empty()
    } else {
        after_last_separator(path.drop_last(), windows).push(path.last())
    }
}

/// The last component of a path, as text.
pub open spec fn last_component(path: Seq<char>, windows: bool) -> Seq<char> {
    after_last_separator(without_trailing_dots(path, windows), windows)
}

/// Where the last component of a path starts.
pub open spec fn last_start(path: Seq<char>, windows: bool) -> int {
    without_trailing_dots(path, windows).len() - last_component(path, windows).len()
}

/// The last component of a path without a prefix of Windows, where it is a name: not the root,
/// `.` or `..`.
pub open spec fn last_name(path: Seq<char>, windows: bool) -> Option<Seq<char>> {
    let name = last_component(path, windows);
    if name.len() == 0 || name == seq!['.'] || name == seq!['.', '.'] {
        None
    } else {
        Some(name)
    }
}

/// A path that can start with the name of a server and a share, or with another prefix of
/// Windows.
pub open spec fn starts_with_two_separators(path: Seq<char>) -> bool {
    path.len() >= 2 && separates(path[0], true) && separates(path[1], true)
}

/// A path that starts with what could be a drive.
pub open spec fn starts_with_drive(path: Seq<char>) -> bool {
    path.len() >= 2 && path[1] == ':' && !separates(path[0], true)
}

/// A letter that can name a drive.
pub open spec fn is_letter(c: char) -> bool {
    'a' <= c <= 'z' || 'A' <= c <= 'Z'
}

/// The path starts with two separators, a server that ends at `i` and a share that ends at
/// `j`, a separator after either.
pub open spec fn share_ends_at(path: Seq<char>, i: int, j: int) -> bool {
    &&& 2 < i < j - 1 && j < path.len()
    &&& starts_with_two_separators(path) && separates(path[i], true) && separates(path[j], true)
    &&& forall|k: int| 2 <= k < j && k != i ==> !separates(#[trigger] path[k], true)
    &&& i == 3 ==> path[2] != '?' && path[2] != '.'
}

/// What starts at `start` stands behind a server and a share.
pub open spec fn behind_share(path: Seq<char>, start: int) -> bool {
    exists|i: int, j: int| #[trigger] share_ends_at(path, i, j) && j < start
}

/// `part` stands somewhere in `whole`.
pub open spec fn stands_in(part: Seq<char>, whole: Seq<char>) -> bool {
    exists|i: int|
        0 <= i <= whole.len() - part.len() && #[trigger] whole.subrange(i, i + part.len()) == part
}

/// `name` is the file name of a path, on Windows or on Unix.
///
/// On Windows a drive is no part of the file name. Where a path starts with two separators,
/// only what stands behind a server and a share is fixed.
pub open spec fn file_name_on(windows: bool, path: Seq<char>, name: Option<Seq<char>>) -> bool {
    if windows && starts_with_two_separators(path) {
        &&& behind_share(path, last_start(path, true)) ==> name == last_name(path, true)
        &&& name matches Some(name) ==> name.len() > 0 && stands_in(name, path)
    } else if windows && starts_with_drive(path) {
        name == last_name(path.skip(2), true) || (!is_letter(path[0]) && name == last_name(
            path,
            true,
        ))
    } else {
        name == last_name(path, windows)
    }
}

/// A text by the characters in it, where there is one.
pub open spec fn opt_text(text: Option<&str>) -> Option<Seq<char>> {
    match text {
        Some(text) => Some(text@),
        None => None,
    }
}

/// `std::path::Path::file_name`, as text.
///
/// Claims of it: it returns the last component of the path where that is a name, with
/// repeated and trailing separators and `.` components normalized away, and nothing for the
/// root, for `..` and for an empty path. On Unix a slash separates, and that is said of every
/// path; on Windows a backslash does so too, and what comes before the components, a drive or
/// a server and a share, is no part of a name. Not said is what Windows makes of a path that
/// starts with two separators and is not the name of something on a share, but that a name is
/// not empty and stands in the path; nor which of the two platforms it is.
#[verifier::external_body]
fn path_file_name(path: &str) -> (r: Option<&str>)
    ensures
        exists|windows: bool| #[trigger]
            file_name_on(windows, path@, opt_text(r)),
{
    std::path::Path::new(path).file_name().and_then(|name| name.to_str())
}

/// A path whose last component Unix and Windows agree on. No backslash is in it, no drive, and
/// where the path starts with two separators, it stands behind a server and a share.
pub open spec fn portable_path(path: Seq<char>) -> bool {
    &&& !last_component(path, false).contains('\\')
    &&& starts_with_drive(path) ==> last_start(path, false) > 0
    &&& starts_with_two_separators(path) ==> behind_share(path, last_start(path, false))
}

/// The name that a row shows for a project without one.
pub open spec fn unknown_name() -> Seq<char> {
    "unknown"@
}

/// The project's name, where `name` is the last component of its directory.
pub open spec fn name_or_unknown(name: Option<Seq<char>>) -> Seq<char> {
    match name {
        Some(name) => name,
        None => unknown_name(),
    }
}

/// The name that a row shows, where `name` is the last component of the project's directory.
pub fn shown_name(name: Option<&str>) -> (r: String)
    ensures
        r@ == name_or_unknown(opt_text(name)),
{
    match name {
        Some(name) => name.to_owned(),
        None => "unknown".to_owned(),
    }
}

/// `name` is the name of the project in the directory `cwd`, on Windows or on Unix.
pub open spec fn named_on(windows: bool, cwd: Seq<char>, name: Seq<char>) -> bool {
    exists|file_name: Option<Seq<char>>| #[trigger]
        file_name_on(windows, cwd, file_name) && name == name_or_unknown(file_name)
}

/// What holds of the name of the project in the directory `cwd` on every platform: it is not
/// empty, it is a part of the path where it is not "unknown", and no slash is in it, but for
/// some paths that start with two separators.
pub open spec fn may_name(name: Seq<char>, cwd: Seq<char>) -> bool {
    &&& name.len() > 0
    &&& name == unknown_name() || stands_in(name, cwd)
    &&& portable_path(cwd) || !starts_with_two_separators(cwd) ==> !name.contains('/')
}

/// The name of the project in the directory `cwd`: the last component of the path, as the
/// platform takes the path apart.
pub fn project_name(cwd: &str) -> (r: String)
    ensures
        exists|windows: bool| #[trigger] named_on(windows, cwd@, r@),
        portable_path(cwd@) ==> r@ == name_or_unknown(last_name(cwd@, false)),
        may_name(r@, cwd@),
{
    let file_name = path_file_name(cwd);
    let name = shown_name(file_name);
    proof {
        let found = opt_text(file_name);
        let windows = choose|windows: bool| #[trigger] file_name_on(windows, cwd@, found);
        assert(named_on(windows, cwd@, name@));
        law_name_on_every_platform(windows, cwd@, name@);
    }
    name
}

proof fn lemma_unknown_name()
    ensures
        unknown_name().len() > 0,
        !unknown_name().contains('/'),
{
    reveal_strlit("unknown");
}

// ---- the label ----

/// A project's name, and how many agents more than `drawn` it has.
pub open spec fn row_label_of(name: Seq<char>, total_agents: int, drawn: int) -> Seq<char> {
    if total_agents > drawn {
        name + " +"@ + decimal((total_agents - drawn) as nat)
    } else {
        name
    }
}

/// The label of a row: the project's name, and a hint at the agents that are not drawn.
pub fn row_label(name: &str, total_agents: usize, drawn: usize) -> (r: String)
    ensures
        r@ == row_label_of(name@, total_agents as int, drawn as int),
{
    let mut label = name.to_owned();
    if total_agents > drawn {
        label.append(" +");
        label.append(decimal_text((total_agents - drawn) as u64).as_str());
    }
    label
}

/// A colour by its red, green and blue parts.
#[derive(Clone, Copy, Debug, PartialEq, Eq, Structural)]
pub struct Rgb {
    pub red: u8,
    pub green: u8,
    pub blue: u8,
}

/// The colour of a label, by the session's status.
pub open spec fn color_of(status: Seq<char>) -> Rgb {
    if status == "waiting-input"@ {
        Rgb { red: 240, green: 200, blue: 90 }
    } else if status == "busy"@ {
        Rgb { red: 120, green: 200, blue: 255 }
    } else {
        Rgb { red: 210, green: 210, blue: 214 }
    }
}

/// The colour of a label, by the session's status.
pub fn status_color(status: &str) -> (r: Rgb)
    ensures
        r == color_of(status@),
{
    if same_text(status, "waiting-input") {
        Rgb { red: 240, green: 200, blue: 90 }
    } else if same_text(status, "busy") {
        Rgb { red: 120, green: 200, blue: 255 }
    } else {
        Rgb { red: 210, green: 210, blue: 214 }
    }
}

// ---- the row as a whole ----

/// A row as it is drawn, in points from the top left of the window.
#[derive(Debug, PartialEq, Eq)]
pub struct RowPlan {
    pub label: String,
    pub color: Rgb,
    /// The widest that the label may get.
    pub max_text_w: u128,
    /// Where the row starts; its label strip comes first.
    pub row_top: u128,
    /// Where the thumbnails start.
    pub icons_top: u128,
    /// The left edge of each thumbnail.
    pub cell_lefts: Vec<u128>,
    /// A line parts the row from the one above it.
    pub separator: bool,
}

/// The left edges of thumbnails that stand side by side.
pub open spec fn lefts(thumb: int, drawn: int) -> Seq<u128> {
    Seq::new(drawn as nat, |i: int| (i * thumb) as u128)
}

/// Plans the row with the number `index` (from 0), for which `drawn` animation frames are
/// there.
pub fn render_row(session: &SessionInfo, layout: &ListLayout, index: usize, drawn: usize) -> (r:
    RowPlan)
    ensures
        portable_path(session@.cwd) ==> r.label@ == row_label_of(
            name_or_unknown(last_name(session@.cwd, false)),
            session@.active_agents.len() as int,
            drawn as int,
        ),
        exists|windows: bool, name: Seq<char>|
            {
                &&& #[trigger] named_on(windows, session@.cwd, name)
                &&& r.label@ == row_label_of(
                    name,
                    session@.active_agents.len() as int,
                    drawn as int,
                )
            },
        r.color == color_of(session@.status),
        r.max_text_w == (if layout.win_w > LABEL_ROOM {
            layout.win_w - LABEL_ROOM
        } else {
            0
        }),
        r.max_text_w == layout.win_w - 8 || (layout.win_w <= 8 && r.max_text_w == 0),
        r.row_top == index * layout.row_h,
        r.icons_top == r.row_top + layout.label_h,
        r.cell_lefts@ == lefts(layout.thumb as int, drawn as int),
        r.separator == (index > 0),
{
    let name = project_name(session.cwd.as_str());
    let label = row_label(name.as_str(), session.active_agents.len(), drawn);
    let max_text_w: u128 = if layout.win_w > LABEL_ROOM {
        layout.win_w - LABEL_ROOM
    } else {
        0
    };
    proof {
        lemma_u64_product(index as int, layout.row_h as int);
    }
    let row_top: u128 = (index as u128) * (layout.row_h as u128);
    let icons_top: u128 = row_top + (layout.label_h as u128);
    let mut cell_lefts: Vec<u128> = Vec::new();
    let mut i: usize = 0;
    while i < drawn
        invariant
            i <= drawn,
            cell_lefts@ == lefts(layout.thumb as int, i as int),
        decreases drawn - i,
    {
        proof {
            lemma_u64_product(i as int, layout.thumb as int);
        }
        let left: u128 = (i as u128) * (layout.thumb as u128);
        cell_lefts.push(left);
        assert(cell_lefts@ =~= lefts(layout.thumb as int, i + 1));
        i += 1;
    }
    assert(label@ == row_label_of(
        name@,
        session@.active_agents.len() as int,
        drawn as int,
    ));
    RowPlan {
        label,
        color: status_color(session.status.as_str()),
        max_text_w,
        row_top,
        icons_top,
        cell_lefts,
        separator: index > 0,
    }
}

proof fn lemma_u64_product(a: int, b: int)
    requires
        0 <= a <= u64::MAX,
        0 <= b <= u64::MAX,
    ensures
        0 <= a * b <= u128::MAX - u64::MAX,
{
    assert(0 <= a * b <= 0xffff_ffff_ffff_ffff * 0xffff_ffff_ffff_ffff) by (nonlinear_arith)
        requires
            0 <= a <= 0xffff_ffff_ffff_ffff,
            0 <= b <= 0xffff_ffff_ffff_ffff,
    ;
}

// ---- laws ----

/// As many slashes.
pub open spec fn slashes(count: nat) -> Seq<char> {
    Seq::new(count, |i: int| '/')
}

/// A name for a directory: not empty, without a separator, and neither `.` nor `..`.
pub open spec fn is_name(name: Seq<char>, windows: bool) -> bool {
    &&& name.len() > 0
    &&& one_component(name, windows)
    &&& name != seq!['.'] && name != seq!['.', '.']
}

/// No separator is in `name`.
pub open spec fn one_component(name: Seq<char>, windows: bool) -> bool {
    forall|i: int| 0 <= i < name.len() ==> !separates(#[trigger] name[i], windows)
}

/// Components can follow `before`: it is empty, or ends with a separator.
pub open spec fn leads(before: Seq<char>, windows: bool) -> bool {
    before.len() == 0 || separates(before.last(), windows)
}

proof fn lemma_after_last_separator(before: Seq<char>, name: Seq<char>, windows: bool)
    requires
        leads(before, windows),
        one_component(name, windows),
    ensures
        after_last_separator(before + name, windows) == name,
    decreases name.len(),
{
    let path = before + name;
    if name.len() == 0 {
        assert(path =~= before);
    } else {
        assert(path.last() == name[name.len() - 1]);
        assert(path.drop_last() =~= before + name.drop_last());
        assert forall|i: int| 0 <= i < name.len() - 1 implies !separates(
            #[trigger] name.drop_last()[i],
            windows,
        ) by {
            assert(name.drop_last()[i] == name[i]);
        }
        lemma_after_last_separator(before, name.drop_last(), windows);
        assert(name.drop_last().push(name.last()) =~= name);
    }
}

/// A path is what leads to its last component, and then that component.
proof fn lemma_parted(path: Seq<char>, windows: bool)
    ensures
        ({
            let name = after_last_separator(path, windows);
            let start = path.len() - name.len();
            &&& 0 <= start
            &&& one_component(name, windows)
            &&& leads(path.take(start), windows)
            &&& path == path.take(start) + name
        }),
    decreases path.len(),
{
    let name = after_last_separator(path, windows);
    let start = path.len() - name.len();
    if path.len() > 0 && !separates(path.last(), windows) {
        let shorter = path.drop_last();
        lemma_parted(shorter, windows);
        assert(path.take(start) =~= shorter.take(start));
        assert(path =~= shorter.push(path.last()));
        assert(name =~= after_last_separator(shorter, windows).push(path.last()));
    }
    assert(path =~= path.take(start) + name);
}

/// Nothing is left at the end of a path that could be taken away.
proof fn lemma_trimmed(path: Seq<char>, windows: bool)
    ensures
        ({
            let rest = without_trailing_dots(path, windows);
            let n = rest.len();
            &&& n <= path.len() && rest == path.take(n as int)
            &&& n >= 1 ==> !separates(rest[n - 1], windows)
            &&& n >= 2 && rest[n - 1] == '.' ==> !separates(rest[n - 2], windows)
        }),
    decreases path.len(),
{
    let n = path.len();
    let rest = without_trailing_dots(path, windows);
    if (n >= 1 && separates(path[n - 1], windows)) || (n >= 2 && path[n - 1] == '.' && separates(
        path[n - 2],
        windows,
    )) {
        lemma_trimmed(path.drop_last(), windows);
        assert(path.drop_last().take(rest.len() as int) =~= path.take(rest.len() as int));
    } else {
        assert(path.take(n as int) =~= path);
    }
}

proof fn lemma_trailing_slashes(path: Seq<char>, count: nat, windows: bool)
    ensures
        without_trailing_dots(path + slashes(count), windows) == without_trailing_dots(
            path,
            windows,
        ),
    decreases count,
{
    let longer = path + slashes(count);
    if count == 0 {
        assert(longer =~= path);
    } else {
        assert(longer.drop_last() =~= path + slashes((count - 1) as nat));
        lemma_trailing_slashes(path, (count - 1) as nat, windows);
    }
}

/// What stands after a separator, or alone, is the last component, however many slashes follow.
proof fn lemma_last_component(before: Seq<char>, name: Seq<char>, count: nat, windows: bool)
    requires
        leads(before, windows),
        name.len() > 0 && one_component(name, windows) && name != seq!['.'],
    ensures
        without_trailing_dots(before + name + slashes(count), windows) == before + name,
        last_component(before + name + slashes(count), windows) == name,
        last_start(before + name + slashes(count), windows) == before.len(),
{
    let path = before + name;
    lemma_trailing_slashes(path, count, windows);
    lemma_after_last_separator(before, name, windows);
    assert(path.last() == name[name.len() - 1]);
    if name.len() == 1 {
        assert(name =~= seq![name[0]]);
    } else {
        assert(path[path.len() - 2] == name[name.len() - 2]);
    }
}

/// What is taken away from the end of a path on Unix is taken away on Windows.
proof fn lemma_windows_trims_more(path: Seq<char>)
    ensures
        without_trailing_dots(path, true) == without_trailing_dots(
            without_trailing_dots(path, false),
            true,
        ),
    decreases path.len(),
{
    let n = path.len();
    if (n >= 1 && separates(path[n - 1], false)) || (n >= 2 && path[n - 1] == '.' && separates(
        path[n - 2],
        false,
    )) {
        lemma_windows_trims_more(path.drop_last());
    }
}

/// Without a backslash in it, the last component is the same on Unix and on Windows.
proof fn lemma_same_component(path: Seq<char>)
    requires
        !last_component(path, false).contains('\\'),
    ensures
        last_component(path, true) == last_component(path, false),
        last_start(path, true) == last_start(path, false),
{
    let rest = without_trailing_dots(path, false);
    let name = last_component(path, false);
    lemma_windows_trims_more(path);
    lemma_trimmed(path, false);
    lemma_parted(rest, false);
    let before = rest.take(rest.len() - name.len());
    assert forall|i: int| 0 <= i < name.len() implies !separates(#[trigger] name[i], true) by {
        assert(name.contains(name[i]));
        assert(!separates(name[i], false));
    }
    if rest.len() > 0 {
        assert(name.len() > 0);
        assert(rest.last() == name[name.len() - 1]);
        if rest.len() >= 2 {
            if name.len() >= 2 {
                assert(rest[rest.len() - 2] == name[name.len() - 2]);
            } else {
                assert(before.last() == rest[rest.len() - 2]);
            }
        }
    }
    assert(without_trailing_dots(rest, true) == rest);
    lemma_after_last_separator(before, name, true);
}

/// What comes before the last component can be left out.
proof fn lemma_component_without_start(path: Seq<char>, k: int, windows: bool)
    requires
        0 <= k <= last_start(path, windows),
        last_component(path, windows).len() > 0,
    ensures
        last_component(path.skip(k), windows) == last_component(path, windows),
{
    let rest = without_trailing_dots(path, windows);
    let name = last_component(path, windows);
    lemma_parted(rest, windows);
    lemma_trimmed_without_start(path, k, windows);
    let start = rest.len() - name.len();
    let before = rest.take(start).skip(k);
    assert(rest.skip(k) =~= before + name);
    if before.len() > 0 {
        assert(before.last() == rest.take(start).last());
    }
    lemma_after_last_separator(before, name, windows);
}

proof fn lemma_trimmed_without_start(path: Seq<char>, k: int, windows: bool)
    requires
        0 <= k < without_trailing_dots(path, windows).len(),
    ensures
        without_trailing_dots(path.skip(k), windows) == without_trailing_dots(
            path,
            windows,
        ).skip(k),
    decreases path.len(),
{
    let n = path.len();
    lemma_trimmed(path, windows);
    if (n >= 1 && separates(path[n - 1], windows)) || (n >= 2 && path[n - 1] == '.' && separates(
        path[n - 2],
        windows,
    )) {
        lemma_trimmed(path.drop_last(), windows);
        assert(path.skip(k).drop_last() =~= path.drop_last().skip(k));
        lemma_trimmed_without_start(path.drop_last(), k, windows);
    }
}

proof fn lemma_component_stands_in(path: Seq<char>, windows: bool)
    ensures
        stands_in(last_component(path, windows), path),
{
    let rest = without_trailing_dots(path, windows);
    let name = last_component(path, windows);
    lemma_trimmed(path, windows);
    lemma_parted(rest, windows);
    let start = rest.len() - name.len();
    assert forall|i: int| 0 <= i < name.len() implies path[start + i] == #[trigger] name[i] by {
        assert(rest[start + i] == (rest.take(start) + name)[start + i]);
    }
    assert(path.subrange(start, start + name.len()) =~= name);
}

/// On a path whose last component the platforms agree on, they agree on the file name.
pub proof fn law_platforms_agree(windows: bool, path: Seq<char>, name: Option<Seq<char>>)
    requires
        portable_path(path),
        file_name_on(windows, path, name),
    ensures
        name == last_name(path, false),
{
    lemma_same_component(path);
    if starts_with_drive(path) {
        let rest = without_trailing_dots(path, false);
        let component = last_component(path, false);
        lemma_trimmed(path, false);
        lemma_parted(rest, false);
        let start = last_start(path, false);
        assert(rest.take(start).last() == path[start - 1]);
        assert(start >= 2);
        assert(component.len() > 0);
        lemma_component_without_start(path, 2, true);
    }
}

/// Whatever the directory and the platform, a name of it is not empty and stands in the path,
/// and where the platforms agree on it, it is the one that they agree on. No slash is in it,
/// but for some paths that start with two separators; on Unix, none at all.
pub proof fn law_name_on_every_platform(windows: bool, cwd: Seq<char>, name: Seq<char>)
    requires
        named_on(windows, cwd, name),
    ensures
        may_name(name, cwd),
        portable_path(cwd) ==> name == name_or_unknown(last_name(cwd, false)),
        !windows ==> !name.contains('/'),
{
    let file_name = choose|file_name: Option<Seq<char>>| #[trigger]
        file_name_on(windows, cwd, file_name) && name == name_or_unknown(file_name);
    lemma_unknown_name();
    law_name_is_one_component(cwd, windows);
    law_name_is_one_component(cwd, false);
    law_name_is_one_component(cwd.skip(2), true);
    lemma_component_stands_in(cwd, windows);
    lemma_component_stands_in(cwd, false);
    if portable_path(cwd) {
        law_platforms_agree(windows, cwd, file_name);
    }
    if starts_with_drive(cwd) {
        let tail = cwd.skip(2);
        let component = last_component(tail, true);
        lemma_component_stands_in(tail, true);
        let i = choose|i: int|
            0 <= i <= tail.len() - component.len() && #[trigger] tail.subrange(
                i,
                i + component.len(),
            ) == component;
        assert(cwd.subrange(i + 2, i + 2 + component.len()) =~= component);
    }
}

/// A project is named after its directory: the last component of the path, however many
/// slashes follow it. On Unix that holds of every path; on Windows, of every path that does
/// not start with two separators.
pub proof fn law_project_is_named_after_its_directory(
    windows: bool,
    base: Seq<char>,
    name: Seq<char>,
    count: nat,
    shown: Seq<char>,
)
    requires
        is_name(name, windows),
        windows ==> !starts_with_two_separators(base + seq!['/']),
    ensures
        named_on(windows, base + seq!['/'] + name + slashes(count), shown) <==> shown == name,
        last_name(base + seq!['/'] + name + slashes(count), windows) == Some(name),
        !windows ==> (named_on(false, name + slashes(count), shown) <==> shown == name),
{
    let before = base + seq!['/'];
    let path = before + name + slashes(count);
    lemma_last_component(before, name, count, windows);
    let empty = Seq::<char>::empty();
    lemma_last_component(empty, name, count, windows);
    assert(empty + name =~= name);
    if windows {
        if path.len() >= 2 && base.len() == 0 {
            assert(path[1] == name[0]);
        }
        if base.len() > 0 {
            assert(path[0] == before[0] && path[1] == before[1]);
        }
        if starts_with_drive(path) {
            assert(path[1] != '/');
            assert(before.len() >= 2);
            lemma_component_without_start(path, 2, true);
        }
    }
    assert(file_name_on(windows, path, Some(name)));
    if !windows {
        assert(file_name_on(false, name + slashes(count), Some(name)));
    }
}

/// A name without a backslash is the same on Unix and on Windows, where the path does not
/// start with two separators, and also behind a server and a share.
pub proof fn law_name_is_portable(base: Seq<char>, name: Seq<char>, count: nat)
    requires
        is_name(name, true),
        !starts_with_two_separators(base + seq!['/']) || behind_share(
            base + seq!['/'] + name + slashes(count),
            base.len() as int + 1,
        ),
    ensures
        portable_path(base + seq!['/'] + name + slashes(count)),
{
    let before = base + seq!['/'];
    let path = before + name + slashes(count);
    assert forall|i: int| 0 <= i < name.len() implies !separates(#[trigger] name[i], false) by {
        assert(!separates(name[i], true));
    }
    lemma_last_component(before, name, count, false);
    if name.contains('\\') {
        let i = choose|i: int| 0 <= i < name.len() && name[i] == '\\';
        assert(!separates(name[i], true));
    }
    if base.len() == 0 {
        assert(path[1] == name[0]);
    } else {
        assert(path[0] == before[0] && path[1] == before[1]);
    }
}

/// A project on a share is named after its directory too, on Unix as on Windows.
pub proof fn law_project_on_a_share(
    server: Seq<char>,
    share: Seq<char>,
    base: Seq<char>,
    name: Seq<char>,
    count: nat,
)
    requires
        is_name(name, true),
        server.len() > 0 && one_component(server, true),
        server != seq!['.'] && server != seq!['?'],
        share.len() > 0 && one_component(share, true),
        base.len() == 0 || base[0] == '/',
    ensures
        ({
            let root = seq!['/', '/'] + server + seq!['/'] + share;
            let path = root + base + seq!['/'] + name + slashes(count);
            portable_path(path) && last_name(path, false) == Some(name)
        }),
{
    let root = seq!['/', '/'] + server + seq!['/'] + share;
    let before = root + base;
    let path = before + seq!['/'] + name + slashes(count);
    let i = 2 + server.len() as int;
    let j = i + 1 + share.len() as int;
    assert(path[j] == '/');
    assert forall|k: int| 2 <= k < j && k != i implies !separates(#[trigger] path[k], true) by {
        if k < i {
            assert(path[k] == server[k - 2]);
        } else {
            assert(path[k] == share[k - i - 1]);
        }
    }
    if i == 3 {
        assert(server =~= seq![server[0]]);
        assert(path[2] == server[0]);
    }
    assert(share_ends_at(path, i, j));
    law_name_is_portable(before, name, count);
    assert forall|k: int| 0 <= k < name.len() implies !separates(
        #[trigger] name[k],
        false,
    ) by {
        assert(!separates(name[k], true));
    }
    lemma_last_component(before + seq!['/'], name, count, false);
}

/// A project is "unknown" where there is no name: in an empty path, in the root, and where the
/// path ends with `..`.
pub proof fn law_no_name(base: Seq<char>, count: nat, shown: Seq<char>)
    ensures
        named_on(false, slashes(count), shown) <==> shown == "unknown"@,
        named_on(false, seq!['.', '.'] + slashes(count), shown) <==> shown == "unknown"@,
        named_on(false, base + seq!['/'] + seq!['.', '.'] + slashes(count), shown) <==> shown
            == "unknown"@,
{
    let empty = Seq::<char>::empty();
    let up = seq!['.', '.'];
    lemma_trailing_slashes(empty, count, false);
    assert(empty + slashes(count) =~= slashes(count));
    lemma_last_component(empty, up, count, false);
    lemma_last_component(base + seq!['/'], up, count, false);
    assert(empty + up =~= up);
    assert(file_name_on(false, slashes(count), None));
    assert(file_name_on(false, up + slashes(count), None));
    assert(file_name_on(false, base + seq!['/'] + up + slashes(count), None));
}

/// A `.` at the end of a path does not count.
pub proof fn law_dot_does_not_count(base: Seq<char>, windows: bool)
    ensures
        last_name(base + seq!['/', '.'], windows) == last_name(base, windows),
{
    reveal_with_fuel(without_trailing_dots, 3);
    let path = base + seq!['/', '.'];
    assert(path.drop_last() =~= base + seq!['/']);
    assert(path.drop_last().drop_last() =~= base);
}

/// Whatever the directory, a name of it is one component: not empty, and without a separator.
/// So is what a row shows for it.
pub proof fn law_name_is_one_component(path: Seq<char>, windows: bool)
    ensures
        last_name(path, windows) matches Some(name) ==> is_name(name, windows),
        name_or_unknown(last_name(path, windows)).len() > 0,
        !name_or_unknown(last_name(path, windows)).contains('/'),
{
    lemma_parted(without_trailing_dots(path, windows), windows);
    lemma_unknown_name();
    let name = last_component(path, windows);
    if name.contains('/') {
        let i = choose|i: int| 0 <= i < name.len() && name[i] == '/';
        assert(!separates(name[i], windows));
    }
}

/// Between one and five agents are shown as they are; none shows as one, and more as five.
pub proof fn law_agents_shown(count: int)
    ensures
        1 <= count <= 5 ==> shown(count) == count,
        count <= 0 ==> shown(count) == 1,
        count >= 5 ==> shown(count) == 5,
{
}

/// No row shows more agents than the widest, and one of them shows as many. An empty list is
/// as wide as one agent.
pub proof fn law_widest_row(rows: Seq<SessionView>)
    ensures
        rows.len() == 0 ==> widest(rows) == 1,
        forall|i: int|
            0 <= i < rows.len() ==> shown((#[trigger] rows[i]).active_agents.len() as int)
                <= widest(rows),
        rows.len() > 0 ==> exists|i: int|
            0 <= i < rows.len() && shown((#[trigger] rows[i]).active_agents.len() as int)
                == widest(rows),
    decreases rows.len(),
{
    if rows.len() > 0 {
        let top = rows.drop_last();
        let n = rows.len() - 1;
        law_widest_row(top);
        assert forall|i: int| 0 <= i < rows.len() implies shown(
            (#[trigger] rows[i]).active_agents.len() as int,
        ) <= widest(rows) by {
            if i < n {
                assert(rows[i] == top[i]);
            }
        }
        if widest(rows) == shown(rows[n].active_agents.len() as int) {
            assert(shown(rows[n].active_agents.len() as int) == widest(rows));
        } else {
            assert(top.len() > 0);
            let i = choose|i: int|
                0 <= i < top.len() && shown((#[trigger] top[i]).active_agents.len() as int)
                    == widest(top);
            assert(rows[i] == top[i]);
        }
    }
}

/// A row plays the animations of its first five agents, in their order, or the introduction
/// where no agent is active; and the rows do so one by one.
pub proof fn law_row_agents(rows: Seq<SessionView>, i: int)
    requires
        0 <= i < rows.len(),
    ensures
        all_row_agents(rows).len() == rows.len(),
        ({
            let active = rows[i].active_agents;
            let played = all_row_agents(rows)[i];
            &&& active.len() == 0 ==> played == seq!["intro"@]
            &&& active.len() > 0 ==> played.len() == (if active.len() < 5 {
                active.len()
            } else {
                5
            })
            &&& active.len() > 0 ==> forall|k: int|
                0 <= k < played.len() ==> #[trigger] played[k] == active[k]
        }),
{
}

/// The signature of a list is those of its rows, with commas between them; that of a row is
/// its id, its status, the number of the agents that it shows and the names of its agents,
/// with colons between them.
pub proof fn law_signature(a: Seq<SessionView>, b: Seq<SessionView>, row: SessionView)
    ensures
        signature_of(Seq::empty()) == Seq::<char>::empty(),
        a.len() > 0 && b.len() > 0 ==> signature_of(a + b) == signature_of(a) + seq![',']
            + signature_of(b),
        signature_of(seq![row]) == row.session_id + seq![':'] + row.status + seq![':'] + decimal(
            shown(row.active_agents.len() as int) as nat,
        ) + seq![':'] + joined(row.active_agents, seq!['+']),
{
    reveal_strlit(",");
    reveal_strlit(":");
    reveal_strlit("+");
    assert(","@ =~= seq![',']);
    assert(":"@ =~= seq![':']);
    assert("+"@ =~= seq!['+']);
    assert(row_signatures(a + b) =~= row_signatures(a) + row_signatures(b));
    law_joining(row_signatures(a), row_signatures(b), ","@);
    let one = row_signatures(seq![row]);
    assert(one =~= seq![row_signature_of(row)]);
    law_joining(one, one, ","@);
    assert(row_signatures(Seq::empty()) =~= Seq::empty());
}

/// A change of a session shows in its signature: another status, another id, or other agents.
pub proof fn law_changes_show(a: SessionView, b: SessionView)
    ensures
        a.session_id == b.session_id && a.active_agents == b.active_agents && a.status != b.status
            ==> signature_of(seq![a]) != signature_of(seq![b]),
        a.status == b.status && a.active_agents == b.active_agents && a.session_id != b.session_id
            ==> signature_of(seq![a]) != signature_of(seq![b]),
        a.session_id == b.session_id && a.status == b.status && joined(a.active_agents, seq!['+'])
            != joined(b.active_agents, seq!['+']) ==> signature_of(seq![a]) != signature_of(
            seq![b],
        ),
{
    law_signature(Seq::empty(), Seq::empty(), a);
    law_signature(Seq::empty(), Seq::empty(), b);
    let (m, n) = (
        shown(a.active_agents.len() as int) as nat,
        shown(b.active_agents.len() as int) as nat,
    );
    law_decimal_digits(m);
    law_decimal_digits(n);
    let (x, y) = (signature_of(seq![a]), signature_of(seq![b]));
    let (p, q) = (joined(a.active_agents, seq!['+']), joined(b.active_agents, seq!['+']));
    let tail = seq![':'] + decimal(m) + seq![':'] + p;
    if a.active_agents == b.active_agents {
        assert(x =~= a.session_id + (seq![':'] + a.status + tail));
        assert(y =~= b.session_id + (seq![':'] + b.status + tail));
        if x == y {
            if a.session_id == b.session_id {
                assert(a.status =~= x.subrange(
                    a.session_id.len() as int + 1,
                    x.len() - tail.len(),
                ));
                assert(b.status =~= y.subrange(
                    b.session_id.len() as int + 1,
                    y.len() - tail.len(),
                ));
            }
            if a.status == b.status {
                let rest = tail.len() + a.status.len() as int + 1;
                assert(a.session_id =~= x.take(x.len() - rest));
                assert(b.session_id =~= y.take(y.len() - rest));
            }
        }
    }
    if a.session_id == b.session_id && a.status == b.status && x == y {
        let at = a.session_id.len() as int + a.status.len() as int + 4;
        assert(p =~= x.skip(at));
        assert(q =~= y.skip(at));
    }
}

/// The label is the project's name, and where agents are left out, a plus sign and how many.
pub proof fn law_row_label(name: Seq<char>, total: int, drawn: int)
    ensures
        total <= drawn ==> row_label_of(name, total, drawn) == name,
        total > drawn ==> row_label_of(name, total, drawn) == name + seq![' ', '+'] + decimal(
            (total - drawn) as nat,
        ),
{
    reveal_strlit(" +");
    assert(" +"@ =~= seq![' ', '+']);
}

/// A label is yellow where the session waits for input, blue where it is busy, and grey
/// otherwise.
pub proof fn law_status_colors(status: Seq<char>)
    ensures
        ({
            let c = color_of(status);
            let (yellow, blue, grey) = (
                Rgb { red: 240, green: 200, blue: 90 },
                Rgb { red: 120, green: 200, blue: 255 },
                Rgb { red: 210, green: 210, blue: 214 },
            );
            &&& c == yellow <==> status == "waiting-input"@
            &&& c == blue <==> status == "busy"@
            &&& c == grey <==> status != "waiting-input"@ && status != "busy"@
        }),
{
    reveal_strlit("waiting-input");
    reveal_strlit("busy");
    assert("waiting-input"@.len() != "busy"@.len());
}

/// Thumbnails stand side by side from the left edge on, without a gap and without overlap.
pub proof fn law_thumbnails_side_by_side(thumb: u64, drawn: usize, i: int)
    requires
        0 <= i < drawn,
    ensures
        lefts(thumb as int, drawn as int).len() == drawn,
        lefts(thumb as int, drawn as int)[0] == 0,
        i + 1 < drawn ==> lefts(thumb as int, drawn as int)[i + 1] == lefts(
            thumb as int,
            drawn as int,
        )[i] + thumb,
{
    lemma_u64_product(i, thumb as int);
    lemma_u64_product(i + 1, thumb as int);
    assert((i + 1) * thumb == i * thumb + thumb) by (nonlinear_arith);
    assert(0 * (thumb as int) == 0);
}

/// What stands behind the last slash of a path is the name that a row shows, on Unix whatever
/// it is, and on Windows where no backslash is in it and the path does not start with one, nor
/// with a slash.
pub proof fn law_shown_name_is_the_directory(
    base: Seq<char>,
    name: Seq<char>,
    count: nat,
    shown: Seq<char>,
)
    requires
        name.len() > 0,
        forall|i: int| 0 <= i < name.len() ==> #[trigger] name[i] != '/',
        name != seq!['.'] && name != seq!['.', '.'],
    ensures
        named_on(false, base + seq!['/'] + name + Seq::new(count, |i: int| '/'), shown) <==> shown
            == name,
        named_on(false, name + Seq::new(count, |i: int| '/'), shown) <==> shown == name,
        (forall|i: int| 0 <= i < name.len() ==> #[trigger] name[i] != '\\') && (base.len() > 0
            && base[0] != '/' && base[0] != '\\') ==> (named_on(
            true,
            base + seq!['/'] + name + Seq::new(count, |i: int| '/'),
            shown,
        ) <==> shown == name),
{
    assert(is_name(name, false));
    law_project_is_named_after_its_directory(false, base, name, count, shown);
    assert(slashes(count) =~= Seq::new(count, |i: int| '/'));
    if (forall|i: int| 0 <= i < name.len() ==> #[trigger] name[i] != '\\') && (base.len() > 0
        && base[0] != '/' && base[0] != '\\') {
        assert(is_name(name, true));
        assert((base + seq!['/'])[0] == base[0]);
        law_project_is_named_after_its_directory(true, base, name, count, shown);
    }
}

/// A row shows the file name of the directory as it is, and "unknown" where there is none.
pub proof fn law_name_is_shown_whole(name: Seq<char>)
    ensures
        name_or_unknown(Some(name)) == name,
        name_or_unknown(None) == "unknown"@,
{
}

/// Rows stand one below the other: each starts where the one above it ends, its label strip
/// first and the thumbnails below the strip, with a line above every row but the first. The
/// label has the width of the window less 8 points, and there is a thumbnail for each frame.
pub proof fn law_rows_below_each_other(
    a: &SessionInfo,
    b: &SessionInfo,
    layout: &ListLayout,
    i: usize,
    drawn: usize,
    upper: RowPlan,
    lower: RowPlan,
)
    requires
        i < usize::MAX,
        call_ensures(render_row, (a, layout, i, drawn), upper),
        call_ensures(render_row, (b, layout, (i + 1) as usize, drawn), lower),
    ensures
        lower.row_top == upper.row_top + layout.row_h,
        i == 0 ==> upper.row_top == 0,
        upper.icons_top == upper.row_top + layout.label_h,
        lower.separator,
        upper.separator <==> i > 0,
        layout.win_w >= 8 ==> upper.max_text_w == layout.win_w - 8,
        layout.win_w < 8 ==> upper.max_text_w == 0,
        upper.cell_lefts@.len() == drawn,
        upper.color == color_of(a@.status),
        portable_path(a@.cwd) && a@.active_agents.len() <= drawn ==> upper.label@
            == name_or_unknown(last_name(a@.cwd, false)),
        portable_path(a@.cwd) && a@.active_agents.len() > drawn ==> upper.label@
            == name_or_unknown(last_name(a@.cwd, false)) + seq![' ', '+'] + decimal(
            (a@.active_agents.len() - drawn) as nat,
        ),
{
    let h = layout.row_h as int;
    assert((i + 1) * h == i * h + h) by (nonlinear_arith);
    assert(0 * h == 0);
    law_row_label(
        name_or_unknown(last_name(a@.cwd, false)),
        a@.active_agents.len() as int,
        drawn as int,
    );
}

} // verus!

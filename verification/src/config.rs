//! The configuration that drives the window: which one counts, and what it sets.

use vstd::prelude::*;

use crate::state::{CompanionConfigState, SessionInfo};
#[allow(unused_imports)]
use crate::state::{ConfigView, SessionView};
use crate::text::same_text;

verus! {

/// The edge of an agent thumbnail where the configuration names no size, in points.
pub const DEFAULT_SIZE: u32 = 120;

/// The bits of the single-precision number 1, the speed where none is configured.
pub const DEFAULT_SPEED_BITS: u32 = 0x3f80_0000;

/// What of a configuration the window depends on.
#[derive(Debug, PartialEq, Eq)]
pub struct ConfigKey {
    pub position: String,
    pub size: String,
    pub gif_pack: String,
    pub loop_style: String,
    pub speed_bits: u32,
}

/// A configuration key by the characters in it.
pub struct KeyView {
    pub position: Seq<char>,
    pub size: Seq<char>,
    pub gif_pack: Seq<char>,
    pub loop_style: Seq<char>,
    pub speed_bits: u32,
}

impl View for ConfigKey {
    type V = KeyView;

    open spec fn view(&self) -> KeyView {
        KeyView {
            position: self.position@,
            size: self.size@,
            gif_pack: self.gif_pack@,
            loop_style: self.loop_style@,
            speed_bits: self.speed_bits,
        }
    }
}

impl DeepView for ConfigKey {
    type V = KeyView;

    open spec fn deep_view(&self) -> KeyView {
        self@
    }
}

// ---- sizes ----

/// The size, in points, that a preset's name stands for.
pub open spec fn named_size(size: Seq<char>) -> u32 {
    if size == "small"@ {
        80
    } else if size == "medium"@ {
        120
    } else if size == "large"@ {
        160
    } else if size == "xl"@ || size == "xlarge"@ {
        200
    } else {
        DEFAULT_SIZE
    }
}

/// The size, in points, that the configuration names.
pub fn size_from_config(size: &str) -> (r: u32)
    ensures
        r == named_size(size@),
{
    if same_text(size, "small") {
        80
    } else if same_text(size, "medium") {
        120
    } else if same_text(size, "large") {
        160
    } else if same_text(size, "xl") || same_text(size, "xlarge") {
        200
    } else {
        DEFAULT_SIZE
    }
}

// ---- normal forms ----

/// The pack of animations to play: there is one.
pub open spec fn gif_pack_of(pack: Seq<char>) -> Seq<char> {
    "default"@
}

/// The pack of animations to play.
#[allow(unused_variables)]
pub fn normalized_gif_pack(pack: &str) -> (r: &'static str)
    ensures
        r@ == gif_pack_of(pack@),
{
    "default"
}

/// How the animation repeats: smoothly where that is asked for, else in the classic way.
pub open spec fn loop_style_of(style: Seq<char>) -> Seq<char> {
    if style == "smooth"@ {
        "smooth"@
    } else {
        "classic"@
    }
}

/// How the animation repeats.
pub fn normalized_loop_style(style: &str) -> (r: &'static str)
    ensures
        r@ == loop_style_of(style@),
{
    if same_text(style, "smooth") {
        "smooth"
    } else {
        "classic"
    }
}

// ---- keys ----

/// The key of a configuration.
pub open spec fn key_of(config: ConfigView) -> KeyView {
    KeyView {
        position: config.position,
        size: config.size,
        gif_pack: gif_pack_of(config.gif_pack),
        loop_style: loop_style_of(config.loop_style),
        speed_bits: config.speed_bits,
    }
}

/// The key of a configuration, where there is one.
pub open spec fn opt_key_of(config: Option<ConfigView>) -> Option<KeyView> {
    match config {
        Some(config) => Some(key_of(config)),
        None => None,
    }
}

/// What of the configuration the window depends on.
pub fn config_key(config: Option<&CompanionConfigState>) -> (r: Option<ConfigKey>)
    ensures
        r.deep_view() == opt_key_of(opt_config_view(config)),
{
    match config {
        Some(cfg) => Some(
            ConfigKey {
                position: cfg.position.clone(),
                size: cfg.size.clone(),
                gif_pack: normalized_gif_pack(cfg.gif_pack.as_str()).to_owned(),
                loop_style: normalized_loop_style(cfg.loop_style.as_str()).to_owned(),
                speed_bits: cfg.speed_bits,
            },
        ),
        None => None,
    }
}

/// Whether two keys are the same.
pub fn same_key(a: &Option<ConfigKey>, b: &Option<ConfigKey>) -> (r: bool)
    ensures
        r == (a.deep_view() == b.deep_view()),
{
    match (a, b) {
        (Some(x), Some(y)) => x.position == y.position && x.size == y.size && x.gif_pack
            == y.gif_pack && x.loop_style == y.loop_style && x.speed_bits == y.speed_bits,
        (None, None) => true,
        _ => false,
    }
}

// ---- which configuration counts ----

/// A configuration by reference, by the characters in it.
pub open spec fn opt_config_view(config: Option<&CompanionConfigState>) -> Option<ConfigView> {
    match config {
        Some(config) => Some(config@),
        None => None,
    }
}

/// The configuration of the first session that carries one.
pub open spec fn first_session_config(sessions: Seq<SessionView>) -> Option<ConfigView>
    decreases sessions.len(),
{
    if sessions.len() == 0 {
        None
    } else if sessions[0].config is Some {
        sessions[0].config
    } else {
        first_session_config(sessions.drop_first())
    }
}

/// The top-level configuration where there is one, else that of the first session that
/// carries one.
pub open spec fn effective_config(
    sessions: Seq<SessionView>,
    global_config: Option<ConfigView>,
) -> Option<ConfigView> {
    if global_config is Some {
        global_config
    } else {
        first_session_config(sessions)
    }
}

/// The configuration that drives window placement and animation.
///
/// Prefers the top-level one and falls back to the first session that carries one, so that
/// a state file with per-session configuration only still works.
pub fn config_global<'a>(
    sessions: &'a [SessionInfo],
    global_config: Option<&'a CompanionConfigState>,
) -> (r: Option<&'a CompanionConfigState>)
    ensures
        opt_config_view(r) == effective_config(
            sessions.deep_view(),
            opt_config_view(global_config),
        ),
        global_config is Some ==> r == global_config,
{
    if global_config.is_some() {
        return global_config;
    }
    let ghost all = sessions.deep_view();
    assert(all.skip(0) =~= all);
    let mut i: usize = 0;
    while i < sessions.len()
        invariant
            i <= sessions.len(),
            all == sessions.deep_view(),
            global_config is None,
            first_session_config(all) == first_session_config(all.skip(i as int)),
        decreases sessions.len() - i,
    {
        assert(all.skip(i as int)[0] == sessions@[i as int]@);
        if let Some(config) = &sessions[i].config {
            return Some(config);
        }
        assert(all.skip(i as int).drop_first() =~= all.skip(i + 1));
        i += 1;
    }
    None
}

// ---- what a key sets ----

/// The corner that the window stands in under a key.
pub open spec fn position_under(key: Option<KeyView>) -> Seq<char> {
    match key {
        Some(key) => key.position,
        None => "bottom-right"@,
    }
}

/// The size under a key, in points.
pub open spec fn size_under(key: Option<KeyView>) -> u32 {
    match key {
        Some(key) => named_size(key.size),
        None => DEFAULT_SIZE,
    }
}

/// The pack of animations under a key.
pub open spec fn gif_pack_under(key: Option<KeyView>) -> Seq<char> {
    match key {
        Some(key) => key.gif_pack,
        None => "default"@,
    }
}

/// How the animation repeats under a key.
pub open spec fn loop_style_under(key: Option<KeyView>) -> Seq<char> {
    match key {
        Some(key) => key.loop_style,
        None => "classic"@,
    }
}

/// The speed under a key.
pub open spec fn speed_under(key: Option<KeyView>) -> u32 {
    match key {
        Some(key) => key.speed_bits,
        None => DEFAULT_SPEED_BITS,
    }
}

/// A key by reference, by the characters in it.
pub open spec fn opt_key_view(key: Option<&ConfigKey>) -> Option<KeyView> {
    match key {
        Some(key) => Some(key@),
        None => None,
    }
}

/// Sets everything that a key decides, and the defaults where there is no key.
pub fn apply_config(
    key: Option<&ConfigKey>,
    position: &mut String,
    size: &mut u32,
    gif_pack: &mut String,
    loop_style: &mut String,
    speed_bits: &mut u32,
)
    ensures
        final(position)@ == position_under(opt_key_view(key)),
        *final(size) == size_under(opt_key_view(key)),
        final(gif_pack)@ == gif_pack_under(opt_key_view(key)),
        final(loop_style)@ == loop_style_under(opt_key_view(key)),
        *final(speed_bits) == speed_under(opt_key_view(key)),
{
    match key {
        Some(cfg) => {
            *position = cfg.position.clone();
            *size = size_from_config(cfg.size.as_str());
            *gif_pack = cfg.gif_pack.clone();
            *loop_style = cfg.loop_style.clone();
            *speed_bits = cfg.speed_bits;
        },
        None => {
            *position = "bottom-right".to_owned();
            *size = DEFAULT_SIZE;
            *gif_pack = "default".to_owned();
            *loop_style = "classic".to_owned();
            *speed_bits = DEFAULT_SPEED_BITS;
        },
    }
}

// ---- laws ----

/// A session's configuration counts only where it is the first that carries one.
pub proof fn law_first_carrier_decides(sessions: Seq<SessionView>, i: int)
    requires
        0 <= i < sessions.len(),
        sessions[i].config is Some,
        forall|j: int| 0 <= j < i ==> (#[trigger] sessions[j]).config is None,
    ensures
        effective_config(sessions, None) == sessions[i].config,
    decreases i,
{
    if i > 0 {
        assert(sessions[0].config is None);
        let rest = sessions.drop_first();
        assert forall|j: int| 0 <= j < i - 1 implies (#[trigger] rest[j]).config is None by {
            assert(rest[j] == sessions[j + 1]);
        }
        law_first_carrier_decides(rest, i - 1);
    }
}

/// Where no session carries a configuration and there is no top-level one, none counts.
pub proof fn law_no_carrier_no_config(sessions: Seq<SessionView>)
    requires
        forall|j: int| 0 <= j < sessions.len() ==> (#[trigger] sessions[j]).config is None,
    ensures
        effective_config(sessions, None) is None,
    decreases sessions.len(),
{
    if sessions.len() > 0 {
        assert(sessions[0].config is None);
        let rest = sessions.drop_first();
        assert forall|j: int| 0 <= j < rest.len() implies (#[trigger] rest[j]).config is None by {
            assert(rest[j] == sessions[j + 1]);
        }
        law_no_carrier_no_config(rest);
    }
}

/// Normalizing a second time changes nothing, and every key holds normal forms.
pub proof fn law_keys_are_normal(config: ConfigView)
    ensures
        gif_pack_of(key_of(config).gif_pack) == key_of(config).gif_pack,
        loop_style_of(key_of(config).loop_style) == key_of(config).loop_style,
        key_of(config).gif_pack == "default"@,
        key_of(config).loop_style == "smooth"@ || key_of(config).loop_style == "classic"@,
{
    reveal_strlit("smooth");
    reveal_strlit("classic");
    assert("smooth"@.len() != "classic"@.len());
}

/// The sizes by their names; any other name means the default.
pub proof fn law_named_sizes(size: Seq<char>)
    ensures
        named_size("small"@) == 80,
        named_size("medium"@) == 120,
        named_size("large"@) == 160,
        named_size("xl"@) == 200,
        named_size("xlarge"@) == 200,
        size != "small"@ && size != "large"@ && size != "xl"@ && size != "xlarge"@ ==> named_size(
            size,
        ) == 120,
{
    reveal_strlit("small");
    reveal_strlit("medium");
    reveal_strlit("large");
    reveal_strlit("xl");
    reveal_strlit("xlarge");
    assert("small"@[0] == 's' && "large"@[0] == 'l');
    assert("medium"@[0] == 'm' && "xlarge"@[0] == 'x' && "xl"@[0] == 'x');
    assert("xl"@.len() == 2 && "xlarge"@.len() == 6);
}

/// A configuration sets what it says, whole: the corner and the speed as they are, the size by
/// its name, and the animations to repeat smoothly where it asks for that and in the classic
/// way otherwise.
pub proof fn law_config_sets_what_it_says(config: ConfigView)
    ensures
        ({
            let key = opt_key_of(Some(config));
            &&& position_under(key) == config.position
            &&& speed_under(key) == config.speed_bits
            &&& size_under(key) == named_size(config.size)
            &&& gif_pack_under(key) == "default"@
            &&& config.loop_style == "smooth"@ ==> loop_style_under(key) == "smooth"@
            &&& config.loop_style != "smooth"@ ==> loop_style_under(key) == "classic"@
        }),
{
}

/// Without a configuration the window stands at the bottom right, 120 points large, and plays
/// its animations in the classic way at single speed.
pub proof fn law_defaults()
    ensures
        opt_key_of(None) is None,
        position_under(None) == "bottom-right"@,
        size_under(None) == 120,
        gif_pack_under(None) == "default"@,
        loop_style_under(None) == "classic"@,
        speed_under(None) == 0x3f80_0000,
{
}

/// Two configurations count as the same one exactly where they name the same corner, the same
/// size and the same speed, and both or neither ask for smooth animations. A configuration is
/// never the same as none.
pub proof fn law_same_configuration(a: ConfigView, b: ConfigView)
    ensures
        opt_key_of(Some(a)) == opt_key_of(Some(b)) <==> a.position == b.position && a.size
            == b.size && a.speed_bits == b.speed_bits && (a.loop_style == "smooth"@
            <==> b.loop_style == "smooth"@),
        opt_key_of(Some(a)) != opt_key_of(None),
{
    reveal_strlit("smooth");
    reveal_strlit("classic");
    assert("smooth"@.len() != "classic"@.len());
}

/// A top-level configuration counts before those of the sessions.
pub proof fn law_top_level_config_counts(sessions: Seq<SessionView>, config: ConfigView)
    ensures
        effective_config(sessions, Some(config)) == Some(config),
{
}

/// Keys that look the same hold the same texts.
pub proof fn law_key_shows_all(a: ConfigKey, b: ConfigKey)
    requires
        a@ == b@,
    ensures
        a.position@ == b.position@ && a.size@ == b.size@ && a.gif_pack@ == b.gif_pack@,
        a.loop_style@ == b.loop_style@ && a.speed_bits == b.speed_bits,
{
}

} // verus!

//! What the app tells OBS and reports about it: friendly game names for
//! fresh clips, the dedicated per-game capture sources, and the status
//! shown to the frontend.

use vstd::prelude::*;

use crate::paths::{file_name, spec_file_name, spec_with_file_name, with_file_name};
use crate::text::{
    char_to_uppercase, chars_eq, chars_of, concat, copy_str, replace_chars, replace_first_chars,
    spec_char_to_uppercase, spec_replace, spec_replace_first, spec_starts_with, spec_to_lowercase,
    spec_trim_end_matches, starts_with, str_eq, string_of, sub_chars, trim_end_matches_chars,
};

verus! {

// ---------------------------------------------------------------- game names

/// Friendly names for exes whose stems make poor labels.
pub open spec fn known_game_name(stem: Seq<char>) -> Option<Seq<char>> {
    if stem == "valorant-win64-shipping"@ {
        Some("Valorant"@)
    } else if stem == "fortniteclient-win64-shipping"@ {
        Some("Fortnite"@)
    } else if stem == "rainbowsix"@ || stem == "rainbowsix_dx11"@ || stem == "rainbowsix_be"@ {
        Some("R6"@)
    } else if stem == "r5apex"@ || stem == "r5apex_dx12"@ {
        Some("Apex"@)
    } else if stem == "uagame"@ {
        Some("ArenaBreakout"@)
    } else if stem == "cs2"@ {
        Some("CS2"@)
    } else if stem == "league of legends"@ {
        Some("LoL"@)
    } else if stem == "huntgame"@ {
        Some("Hunt"@)
    } else if stem == "fsd-win64-shipping"@ {
        Some("DeepRock"@)
    } else if stem == "overwatch"@ {
        Some("Overwatch"@)
    } else if stem == "rocketleague"@ {
        Some("RocketLeague"@)
    } else if stem == "helldivers2"@ {
        Some("Helldivers"@)
    } else if stem == "gta5"@ {
        Some("GTA"@)
    } else {
        None
    }
}

fn is(s: &Vec<char>, lit: &str) -> (r: bool)
    ensures
        r == (s@ == lit@),
{
    chars_eq(s, &chars_of(lit))
}

fn known_game_label(stem: &Vec<char>) -> (r: Option<&'static str>)
    ensures
        match r {
            Some(n) => known_game_name(stem@) == Some(n@),
            None => known_game_name(stem@) is None,
        },
{
    if is(stem, "valorant-win64-shipping") {
        Some("Valorant")
    } else if is(stem, "fortniteclient-win64-shipping") {
        Some("Fortnite")
    } else if is(stem, "rainbowsix") || is(stem, "rainbowsix_dx11") || is(stem, "rainbowsix_be") {
        Some("R6")
    } else if is(stem, "r5apex") || is(stem, "r5apex_dx12") {
        Some("Apex")
    } else if is(stem, "uagame") {
        Some("ArenaBreakout")
    } else if is(stem, "cs2") {
        Some("CS2")
    } else if is(stem, "league of legends") {
        Some("LoL")
    } else if is(stem, "huntgame") {
        Some("Hunt")
    } else if is(stem, "fsd-win64-shipping") {
        Some("DeepRock")
    } else if is(stem, "overwatch") {
        Some("Overwatch")
    } else if is(stem, "rocketleague") {
        Some("RocketLeague")
    } else if is(stem, "helldivers2") {
        Some("Helldivers")
    } else if is(stem, "gta5") {
        Some("GTA")
    } else {
        None
    }
}

/// An unknown game's stem with the usual build suffixes and spaces gone.
pub open spec fn stripped_stem(stem: Seq<char>) -> Seq<char> {
    spec_replace(
        spec_trim_end_matches(
            spec_trim_end_matches(
                spec_trim_end_matches(
                    spec_trim_end_matches(
                        spec_trim_end_matches(
                            spec_trim_end_matches(stem, "-win64-shipping"@),
                            "client-win64-shipping"@,
                        ),
                        "_dx11"@,
                    ),
                    "_dx12"@,
                ),
                "_be"@,
            ),
            "-game"@,
        ),
        seq![' '],
        Seq::empty(),
    )
}

/// An exe name made fit for file names: known games get their friendly
/// label; other stems (lowercased, `.exe` dropped) lose their build
/// suffixes and spaces and get their first letter uppercased.
pub open spec fn spec_pretty_game(exe: Seq<char>) -> Seq<char> {
    let stem = spec_trim_end_matches(spec_to_lowercase(exe), ".exe"@);
    match known_game_name(stem) {
        Some(n) => n,
        None => {
            let s = stripped_stem(stem);
            if s.len() == 0 {
                s
            } else {
                spec_char_to_uppercase(s[0]) + s.skip(1)
            }
        },
    }
}

fn strip_suffix_all(s: &Vec<char>, suffix: &str) -> (r: Vec<char>)
    ensures
        r@ == spec_trim_end_matches(s@, suffix@),
{
    trim_end_matches_chars(s, &chars_of(suffix))
}

pub fn pretty_game(exe: &str) -> (r: String)
    ensures
        r@ == spec_pretty_game(exe@),
{
    let lower = exe.to_lowercase();
    let stem = strip_suffix_all(&chars_of(lower.as_str()), ".exe");
    match known_game_label(&stem) {
        Some(n) => copy_str(n),
        None => {
            let a = strip_suffix_all(&stem, "-win64-shipping");
            let b = strip_suffix_all(&a, "client-win64-shipping");
            let c = strip_suffix_all(&b, "_dx11");
            let d = strip_suffix_all(&c, "_dx12");
            let e = strip_suffix_all(&d, "_be");
            let f = strip_suffix_all(&e, "-game");
            let mut space: Vec<char> = Vec::new();
            space.push(' ');
            let empty: Vec<char> = Vec::new();
            let s = replace_chars(&f, &space, &empty);
            proof {
                assert(space@ =~= seq![' ']);
                assert(empty@ =~= Seq::<char>::empty());
            }
            if s.len() == 0 {
                string_of(&s)
            } else {
                let mut out = char_to_uppercase(s[0]);
                let rest = sub_chars(&s, 1, s.len());
                crate::text::push_chars(&mut out, &rest);
                proof {
                    assert(rest@ =~= s@.skip(1));
                }
                out
            }
        },
    }
}

// ---------------------------------------------------------------- saved clips

/// A fresh clip's new file name: the game's label, a space, then OBS's
/// name with its first "Replay " dropped.
pub open spec fn spec_game_clip_name(game: Seq<char>, name: Seq<char>) -> Seq<char> {
    spec_pretty_game(game) + seq![' '] + spec_replace_first(name, "Replay "@, Seq::empty())
}

pub fn game_clip_name(game: &str, name: &str) -> (r: String)
    ensures
        r@ == spec_game_clip_name(game@, name@),
{
    let label = pretty_game(game);
    let a = concat(label.as_str(), " ");
    let cs = chars_of(name);
    let pat = chars_of("Replay ");
    let empty: Vec<char> = Vec::new();
    let rest = replace_first_chars(&cs, &pat, &empty);
    proof {
        assert(empty@ =~= Seq::<char>::empty());
        reveal_strlit(" ");
        assert(a@ =~= label@ + seq![' ']);
    }
    let r = string_of(&rest);
    concat(a.as_str(), r.as_str())
}

/// Where a fresh clip is renamed to so it carries the game's name: only
/// while a game is detected and the path has a file name.
pub fn saved_clip_target(path: &str, game: &Option<String>) -> (r: Option<String>)
    ensures
        r.deep_view() == match (game.deep_view(), spec_file_name(path@)) {
            (Some(g), Some(n)) => Some(spec_with_file_name(path@, spec_game_clip_name(g, n))),
            _ => None,
        },
{
    match game {
        Some(g) => match file_name(path) {
            Some(n) => {
                let new_name = game_clip_name(g.as_str(), n.as_str());
                Some(with_file_name(path, new_name.as_str()))
            },
            None => None,
        },
        None => None,
    }
}

/// The `clip-saved` event's payload.
#[derive(Clone, Debug)]
pub struct ClipSaved {
    pub path: String,
}

/// What the frontend learns about the OBS connection.
#[derive(Clone, Debug)]
pub struct ObsStatus {
    pub connected: bool,
    pub replay_buffer_active: bool,
    pub obs_version: Option<String>,
}

/// The status for a status poll: disconnected without a client; with one,
/// the replay buffer's state (inactive when OBS did not answer).
pub fn obs_status_of(has_client: bool, replay_status: Option<bool>) -> (r: ObsStatus)
    ensures
        r.connected == has_client,
        r.replay_buffer_active == (has_client && replay_status == Some(true)),
        r.obs_version is None,
{
    ObsStatus {
        connected: has_client,
        replay_buffer_active: has_client && match replay_status {
            Some(a) => a,
            None => false,
        },
        obs_version: None,
    }
}

/// The oldest OBS that records the fragmented ("hybrid") mp4 the app
/// configures: 30.2.
pub open spec fn spec_version_outdated(version: Seq<char>) -> bool {
    let parts = crate::text::spec_split(version, '.');
    match crate::text::spec_parse_usize(parts[0]) {
        Some(major) => {
            let minor = if parts.len() > 1 {
                crate::text::spec_parse_usize(parts[1])
            } else {
                Some(0usize)
            };
            match minor {
                Some(m) => major < 30 || (major == 30 && m < 2),
                None => false,
            }
        },
        None => false,
    }
}

/// Whether the connected OBS (its version string, e.g. "30.1.2") is too
/// old for the recording format; a version that does not read as
/// `major.minor` is given the benefit of the doubt.
pub fn obs_version_outdated(version: &str) -> (r: bool)
    ensures
        r == spec_version_outdated(version@),
{
    let cs = chars_of(version);
    let parts = crate::text::split_char(&cs, '.');
    proof {
        crate::text::lemma_split_nonempty(version@, '.');
        assert(parts@.map_values(|v: Vec<char>| v@) == crate::text::spec_split(version@, '.'));
        assert(parts@.map_values(|v: Vec<char>| v@).len() == parts@.len());
        assert(parts@.map_values(|v: Vec<char>| v@)[0] == parts@[0]@);
    }
    match crate::text::parse_usize(&parts[0]) {
        Some(major) => {
            let minor = if parts.len() > 1 {
                proof {
                    assert(parts@.map_values(|v: Vec<char>| v@)[1] == parts@[1]@);
                }
                crate::text::parse_usize(&parts[1])
            } else {
                Some(0)
            };
            match minor {
                Some(m) => major < 30 || (major == 30 && m < 2),
                None => false,
            }
        },
        None => false,
    }
}

// ---------------------------------------------------------------- capture sources

/// The universal `any_fullscreen` game capture that every scene gets.
pub fn autogame_source_name() -> (r: &'static str)
    ensures
        r@ == "AutoGame"@,
{
    "AutoGame"
}

/// Whether the universal source is still to be created: no game-capture
/// input has its name.
pub fn autogame_missing(inputs: &Vec<String>) -> (r: bool)
    ensures
        r == !inputs.deep_view().contains("AutoGame"@),
{
    !crate::text::contains_string(inputs, "AutoGame")
}

/// The dedicated source for one game is named after its exe.
pub fn game_capture_source_name(exe: &str) -> (r: String)
    ensures
        r@ == "Capture: "@ + exe@,
{
    concat("Capture: ", exe)
}

/// The kinds of dedicated capture source: window capture (BitBlt/WGC) or
/// game capture (the DXGI hook).
pub open spec fn is_capture_kind(kind: Seq<char>) -> bool {
    kind == "window_capture"@ || kind == "game_capture"@
}

pub fn check_capture_kind(kind: &str) -> (r: Result<(), String>)
    ensures
        is_capture_kind(kind@) ==> r is Ok,
        !is_capture_kind(kind@) ==> (r matches Err(e) && e@ == "unknown capture kind: "@ + kind@),
{
    if str_eq(kind, "window_capture") || str_eq(kind, "game_capture") {
        Ok(())
    } else {
        Err(concat("unknown capture kind: ", kind))
    }
}

/// OBS's window selector `title:class:exe`; matching is by executable, so
/// without a running window the title and class stay empty.
pub fn capture_window_selector(window: &Option<(String, String)>, exe: &str) -> (r: String)
    ensures
        r@ == match window.deep_view() {
            Some((title, class)) => title + ":"@ + class + ":"@ + exe@,
            None => "::"@ + exe@,
        },
{
    match window {
        Some((title, class)) => {
            let a = concat(title.as_str(), ":");
            let b = concat(a.as_str(), class.as_str());
            let c = concat(b.as_str(), ":");
            concat(c.as_str(), exe)
        },
        None => concat("::", exe),
    }
}

/// OBS `enum window_priority`: match windows by executable.
pub const WINDOW_PRIORITY_EXE: i64 = 2;

/// A value in an OBS settings object.
#[derive(Clone, Debug)]
pub enum ObsValue {
    Str(String),
    Int(i64),
    UInt(u64),
    Bool(bool),
}

/// An OBS settings value as a mathematical value.
pub enum ObsValueView {
    Str(Seq<char>),
    Int(i64),
    UInt(u64),
    Bool(bool),
}

impl DeepView for ObsValue {
    type V = ObsValueView;

    open spec fn deep_view(&self) -> ObsValueView {
        match self {
            ObsValue::Str(s) => ObsValueView::Str(s@),
            ObsValue::Int(i) => ObsValueView::Int(*i),
            ObsValue::UInt(u) => ObsValueView::UInt(*u),
            ObsValue::Bool(b) => ObsValueView::Bool(*b),
        }
    }
}

pub fn setting(key: &str, v: ObsValue) -> (r: (String, ObsValue))
    ensures
        r.0@ == key@,
        r.1 == v,
{
    (copy_str(key), v)
}

/// The settings of a dedicated capture source for `window`: game capture
/// hooks that window (with cursor and the anti-cheat-compatible hook);
/// window capture records it with the cursor. Both match by executable.
pub open spec fn spec_capture_settings(game_capture: bool, window: Seq<char>) -> Seq<
    (Seq<char>, ObsValueView),
> {
    if game_capture {
        seq![
            ("capture_mode"@, ObsValueView::Str("window"@)),
            ("window"@, ObsValueView::Str(window)),
            ("priority"@, ObsValueView::Int(WINDOW_PRIORITY_EXE)),
            ("capture_cursor"@, ObsValueView::Bool(true)),
            ("anti_cheat_hook"@, ObsValueView::Bool(true)),
        ]
    } else {
        seq![
            ("window"@, ObsValueView::Str(window)),
            ("priority"@, ObsValueView::Int(WINDOW_PRIORITY_EXE)),
            ("cursor"@, ObsValueView::Bool(true)),
        ]
    }
}

pub fn capture_source_settings(kind: &str, window: &str) -> (r: Vec<(String, ObsValue)>)
    ensures
        r.deep_view() == spec_capture_settings(kind@ == "game_capture"@, window@),
{
    let mut v: Vec<(String, ObsValue)> = Vec::new();
    if str_eq(kind, "game_capture") {
        v.push(setting("capture_mode", ObsValue::Str(copy_str("window"))));
        v.push(setting("window", ObsValue::Str(copy_str(window))));
        v.push(setting("priority", ObsValue::Int(WINDOW_PRIORITY_EXE)));
        v.push(setting("capture_cursor", ObsValue::Bool(true)));
        v.push(setting("anti_cheat_hook", ObsValue::Bool(true)));
        proof {
            assert(v.deep_view() =~= spec_capture_settings(true, window@));
        }
    } else {
        v.push(setting("window", ObsValue::Str(copy_str(window))));
        v.push(setting("priority", ObsValue::Int(WINDOW_PRIORITY_EXE)));
        v.push(setting("cursor", ObsValue::Bool(true)));
        proof {
            assert(v.deep_view() =~= spec_capture_settings(false, window@));
        }
    }
    v
}

/// A game with a dedicated capture source, and the source's kind.
#[derive(Clone, Debug)]
pub struct GameSource {
    pub exe: String,
    pub kind: String,
}

/// Whether OBS renders a source in its program output right now.
#[derive(Clone, Copy, Debug)]
pub struct CaptureTest {
    pub capturing: bool,
}

pub open spec fn spec_game_sources(kind: Seq<char>, names: Seq<Seq<char>>) -> Seq<
    (Seq<char>, Seq<char>),
>
    decreases names.len(),
{
    if names.len() == 0 {
        Seq::empty()
    } else {
        let rest = spec_game_sources(kind, names.drop_last());
        let n = names.last();
        if spec_starts_with(n, "Capture: "@) {
            rest.push((n.skip(9), kind))
        } else {
            rest
        }
    }
}

/// The dedicated sources among the inputs of one capture kind: those
/// named "Capture: <exe>".
pub fn game_sources_from(kind: &str, names: &Vec<String>) -> (r: Vec<GameSource>)
    ensures
        r@.map_values(|g: GameSource| (g.exe@, g.kind@)) == spec_game_sources(kind@, names.deep_view()),
{
    let prefix = chars_of("Capture: ");
    proof {
        reveal_strlit("Capture: ");
    }
    let mut out: Vec<GameSource> = Vec::new();
    let mut i: usize = 0;
    while i < names.len()
        invariant
            i <= names.len(),
            prefix@ == "Capture: "@,
            prefix@.len() == 9,
            out@.map_values(|g: GameSource| (g.exe@, g.kind@)) == spec_game_sources(
                kind@,
                names.deep_view().take(i as int),
            ),
        decreases names.len() - i,
    {
        let n = chars_of(names[i].as_str());
        proof {
            let dv = names.deep_view();
            assert(dv[i as int] == n@);
            assert(dv.take(i as int + 1).drop_last() =~= dv.take(i as int));
            assert(dv.take(i as int + 1).last() == n@);
        }
        if starts_with(&n, &prefix) {
            let exe = sub_chars(&n, 9, n.len());
            let g = GameSource { exe: string_of(&exe), kind: copy_str(kind) };
            let ghost prev = out@;
            out.push(g);
            proof {
                assert(exe@ =~= n@.skip(9));
                assert(out@.map_values(|g: GameSource| (g.exe@, g.kind@)) =~= prev.map_values(
                    |g: GameSource| (g.exe@, g.kind@),
                ).push((n@.skip(9), kind@)));
            }
        }
        i = i + 1;
    }
    proof {
        assert(names.deep_view().take(names.len() as int) =~= names.deep_view());
    }
    out
}

} // verus!

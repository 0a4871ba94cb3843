//! The supervisor's decisions, one tick every 3s: keep OBS launched,
//! pick the running game, and arm or disarm the replay buffer.

use vstd::prelude::*;

use crate::clips::Settings;
use crate::text::{
    any_eq_ignore_case, contains_string, lowercase_all, lowered, spec_any_eq_ignore_case,
    spec_to_lowercase, str_eq,
};

verus! {

/// What the supervisor does to the replay buffer on one tick.
#[derive(Debug, Clone, Copy, PartialEq, Eq, Structural)]
pub enum BufferAction {
    Keep,
    Start,
    Stop,
}

/// Ticks without a game before the buffer is disarmed (3s ticks: 30s grace).
pub const EXIT_GRACE_TICKS: u32 = 10;

/// The arm/disarm rule, stated directly.
pub open spec fn spec_buffer_action(
    connected: bool,
    game: bool,
    active: bool,
    paused: bool,
    managed: bool,
    no_game_ticks: u32,
    save_recent: bool,
) -> BufferAction {
    if !connected {
        BufferAction::Keep
    } else if paused {
        if active && !save_recent { BufferAction::Stop } else { BufferAction::Keep }
    } else if managed && game && !active {
        BufferAction::Start
    } else if managed && !game && active && no_game_ticks >= EXIT_GRACE_TICKS && !save_recent {
        BufferAction::Stop
    } else {
        BufferAction::Keep
    }
}

/// Decide whether to start, stop or leave the replay buffer alone.
pub fn buffer_action(
    connected: bool,
    game: bool,
    active: bool,
    paused: bool,
    managed: bool,
    no_game_ticks: u32,
    save_recent: bool,
) -> (r: BufferAction)
    ensures
        r == spec_buffer_action(connected, game, active, paused, managed, no_game_ticks, save_recent),
{
    if !connected {
        return BufferAction::Keep;
    }
    if paused {
        if active && !save_recent {
            BufferAction::Stop
        } else {
            BufferAction::Keep
        }
    } else if managed && game && !active {
        BufferAction::Start
    } else if managed && !game && active && no_game_ticks >= EXIT_GRACE_TICKS && !save_recent {
        BufferAction::Stop
    } else {
        BufferAction::Keep
    }
}

/// What the supervisor reports to the frontend after each tick.
#[derive(Clone, Debug, Default)]
pub struct SupervisorState {
    pub obs_running: bool,
    pub connected: bool,
    pub game: Option<String>,
    pub buffer_active: bool,
    pub paused: bool,
    /// OBS runs with its websocket server off (or never set up): the user
    /// has to close OBS once so the config can be changed.
    pub obs_needs_restart: bool,
    /// Connected OBS is too old for the recording format (version string).
    pub obs_outdated: Option<String>,
    /// The GPU is too busy for OBS to render every frame (sustained).
    pub render_lag: bool,
    /// The encoder is dropping frames while the buffer records.
    pub encoder_lag: bool,
}

// ---------------------------------------------------------------- OBS process and launch

/// OBS counts as running when a process named `obs64.exe` (any ASCII
/// case) exists.
pub fn obs_process_running(process_names: &Vec<String>) -> (r: bool)
    ensures
        r == spec_any_eq_ignore_case(process_names.deep_view(), "obs64.exe"@),
{
    any_eq_ignore_case(process_names, "obs64.exe")
}

/// Ticks to wait after spawning OBS before trying again (~15s).
pub const LAUNCH_COOLDOWN_TICKS: u8 = 5;

/// While OBS is missing: count an active cooldown down, otherwise ask for
/// a launch when auto-launch is on. Returns the next cooldown and whether
/// to spawn OBS now.
pub fn launch_step(cooldown: u8, auto_launch: bool) -> (r: (u8, bool))
    ensures
        cooldown > 0 ==> r == (((cooldown - 1) as u8, false)),
        cooldown == 0 ==> r == ((0u8, auto_launch)),
{
    if cooldown > 0 {
        (cooldown - 1, false)
    } else {
        (0, auto_launch)
    }
}

/// The cooldown after a launch attempt: a successful spawn gets a grace
/// period so a slow-starting OBS is not spawned twice.
pub fn cooldown_after_spawn(spawned: bool) -> (r: u8)
    ensures
        r == (if spawned {
            LAUNCH_COOLDOWN_TICKS
        } else {
            0u8
        }),
{
    if spawned {
        LAUNCH_COOLDOWN_TICKS
    } else {
        0
    }
}

// ---------------------------------------------------------------- failed connection

/// What to do when OBS runs but the websocket connection failed.
#[derive(Clone, Debug)]
pub enum ConnectFallback {
    /// The websocket server is off (or never configured): only fixable
    /// with OBS closed, so tell the user.
    NeedsRestart,
    /// OBS has other credentials than the saved ones: adopt and save them.
    UpdateCredentials(String, u16),
    Nothing,
}

/// Decide, after a failed connection, between asking for an OBS restart
/// and adopting the credentials OBS's own config now holds.
pub fn connect_fallback(
    saved_password: &Option<String>,
    saved_port: u16,
    server_enabled: bool,
    file_credentials: Option<(String, u16)>,
) -> (r: ConnectFallback)
    ensures
        (saved_password is None || !server_enabled) ==> r is NeedsRestart,
        (saved_password is Some && server_enabled) ==> match file_credentials {
            Some((pw, port)) => if saved_password.deep_view() != Some(pw@) || saved_port != port {
                r matches ConnectFallback::UpdateCredentials(p2, q2) && p2@ == pw@ && q2 == port
            } else {
                r is Nothing
            },
            None => r is Nothing,
        },
{
    match saved_password {
        None => ConnectFallback::NeedsRestart,
        Some(saved) => {
            if !server_enabled {
                return ConnectFallback::NeedsRestart;
            }
            match file_credentials {
                Some((pw, port)) => {
                    if !str_eq(saved.as_str(), pw.as_str()) || saved_port != port {
                        ConnectFallback::UpdateCredentials(pw, port)
                    } else {
                        ConnectFallback::Nothing
                    }
                },
                None => ConnectFallback::Nothing,
            }
        },
    }
}

/// Whether the game-audio track must be pointed at the detected game: a
/// game runs and the track is not already bound to it.
pub fn audio_needs_retarget(game: &Option<String>, audio_game: &Option<String>) -> (r: bool)
    ensures
        r == (game is Some && audio_game.deep_view() != game.deep_view()),
{
    match game {
        Some(g) => match audio_game {
            Some(a) => !crate::text::str_eq(a.as_str(), g.as_str()),
            None => true,
        },
        None => false,
    }
}

/// Whether to try the deferred profile reload now: only between games,
/// and only when settings changed that need it.
pub fn reload_now(game_present: bool, reload_pending: bool) -> (r: bool)
    ensures
        r == (!game_present && reload_pending),
{
    !game_present && reload_pending
}

// ---------------------------------------------------------------- game detection

/// Consecutive ticks without a game, saturating.
pub fn next_no_game_ticks(game_present: bool, ticks: u32) -> (r: u32)
    ensures
        game_present ==> r == 0,
        !game_present ==> r == (if ticks == u32::MAX {
            u32::MAX
        } else {
            (ticks + 1) as u32
        }),
{
    if game_present {
        0
    } else {
        ticks.saturating_add(1)
    }
}

/// Session games that still count: their process still owns a visible
/// window and the user has not blacklisted them.
pub open spec fn spec_keep_session(
    session: Seq<Seq<char>>,
    running: Seq<Seq<char>>,
    settings: Settings,
) -> Seq<Seq<char>>
    decreases session.len(),
{
    if session.len() == 0 {
        Seq::empty()
    } else {
        let rest = spec_keep_session(session.drop_last(), running, settings);
        let g = session.last();
        if running.contains(g) && !settings.spec_capture_blocked(g) {
            rest.push(g)
        } else {
            rest
        }
    }
}

/// The kept session games are some of the old ones, and none twice when
/// none was there twice.
proof fn lemma_keep_session_no_dups(
    session: Seq<Seq<char>>,
    running: Seq<Seq<char>>,
    settings: Settings,
)
    ensures
        forall|x: Seq<char>|
            #[trigger] spec_keep_session(session, running, settings).contains(x)
                ==> session.contains(x),
        session.no_duplicates() ==> spec_keep_session(session, running, settings).no_duplicates(),
    decreases session.len(),
{
    if session.len() > 0 {
        let init = session.drop_last();
        lemma_keep_session_no_dups(init, running, settings);
        let rest = spec_keep_session(init, running, settings);
        let all = spec_keep_session(session, running, settings);
        assert forall|x: Seq<char>| #[trigger] all.contains(x) implies session.contains(x) by {
            if rest.contains(x) {
                let k = choose|k: int| 0 <= k < init.len() && init[k] == x;
                assert(session[k] == x);
            } else {
                assert(x == session.last());
                assert(session[session.len() - 1] == x);
            }
        }
        if session.no_duplicates() {
            assert(init.no_duplicates()) by {
                assert forall|a: int, b: int| 0 <= a < init.len() && 0 <= b < init.len() && a != b
                    implies init[a] != init[b] by {
                    assert(init[a] == session[a] && init[b] == session[b]);
                }
            }
            let g = session.last();
            if !rest.contains(g) {
            } else {
                let k = choose|k: int| 0 <= k < init.len() && init[k] == g;
                assert(session[k] == session[session.len() - 1]);
            }
            if running.contains(g) && !settings.spec_capture_blocked(g) {
                assert forall|a: int, b: int| 0 <= a < all.len() && 0 <= b < all.len() && a != b
                    implies all[a] != all[b] by {
                    if a < rest.len() && b < rest.len() {
                        assert(all[a] == rest[a] && all[b] == rest[b]);
                    } else if a < rest.len() {
                        assert(all[a] == rest[a]);
                        assert(rest.contains(rest[a]));
                    } else {
                        assert(all[b] == rest[b]);
                        assert(rest.contains(rest[b]));
                    }
                }
            }
        }
    }
}

/// The first watched exe (lowercased) that is running and not blacklisted.
pub open spec fn spec_first_watched(
    exes: Seq<Seq<char>>,
    running: Seq<Seq<char>>,
    settings: Settings,
) -> Option<Seq<char>>
    decreases exes.len(),
{
    if exes.len() == 0 {
        None
    } else {
        let g = spec_to_lowercase(exes[0]);
        if running.contains(g) && !settings.spec_capture_blocked(g) {
            Some(g)
        } else {
            spec_first_watched(exes.drop_first(), running, settings)
        }
    }
}

/// The outcome of game detection on one tick.
pub open spec fn detection_outcome(
    old_settings: Settings,
    old_session: Seq<Seq<char>>,
    process_names: Seq<Seq<char>>,
    foreground: Option<Seq<char>>,
) -> (Seq<Seq<char>>, Option<Seq<char>>, bool) {
    let running = lowered(process_names);
    let kept = spec_keep_session(old_session, running, old_settings);
    let fg_ok = foreground is Some && !old_settings.spec_capture_blocked(foreground->0);
    let inserted = fg_ok && !kept.contains(foreground->0);
    let session = if inserted {
        kept.push(foreground->0)
    } else {
        kept
    };
    let learned = inserted && !spec_any_eq_ignore_case(
        old_settings.game_exes.deep_view(),
        foreground->0,
    );
    let game = if fg_ok {
        foreground
    } else {
        match spec_first_watched(old_settings.game_exes.deep_view(), running, old_settings) {
            Some(g) => Some(g),
            None => if session.len() > 0 {
                Some(session[0])
            } else {
                None
            },
        }
    };
    (session, game, learned)
}

/// Game detection for one tick. `process_names` are the processes that
/// own a visible window; `foreground` is the fullscreen heuristic's pick.
///
/// Session games (seen fullscreen this session) are forgotten once their
/// process exits or they are blacklisted. A non-blacklisted fullscreen app
/// wins; a newly seen one is remembered for the session and, unless some
/// watched exe already names it, learned into `game_exes` (`learned`
/// says the settings changed and should be saved). Otherwise the first
/// watched exe that runs is the game, then any session game.
pub fn detect_game(
    settings: &mut Settings,
    session: &mut Vec<String>,
    process_names: &Vec<String>,
    foreground: Option<String>,
) -> (r: (Option<String>, bool))
    ensures
        ({
            let (s2, g2, l2) = detection_outcome(
                *old(settings),
                old(session).deep_view(),
                process_names.deep_view(),
                foreground.deep_view(),
            );
            &&& final(session).deep_view() == s2
            &&& r.0.deep_view() == g2
            &&& r.1 == l2
        }),
        final(settings).game_exes.deep_view() == (if r.1 {
            old(settings).game_exes.deep_view().push(foreground->0@)
        } else {
            old(settings).game_exes.deep_view()
        }),
        final(settings).game_blacklist == old(settings).game_blacklist,
        *final(settings) == (Settings { game_exes: final(settings).game_exes, ..*old(settings) }),
        old(session).deep_view().no_duplicates() ==> final(session).deep_view().no_duplicates(),
{
    let ghost st = *settings;
    proof {
        lemma_keep_session_no_dups(
            session.deep_view(),
            lowered(process_names.deep_view()),
            *settings,
        );
    }
    let running = lowercase_all(process_names);
    // Forget session games whose process exited (or that got blacklisted).
    let mut kept: Vec<String> = Vec::new();
    let mut i: usize = 0;
    while i < session.len()
        invariant
            i <= session.len(),
            *settings == st,
            running.deep_view() == lowered(process_names.deep_view()),
            kept.deep_view() == spec_keep_session(
                session.deep_view().take(i as int),
                running.deep_view(),
                st,
            ),
        decreases session.len() - i,
    {
        let g = session[i].clone();
        proof {
            assert(session.deep_view().take(i as int + 1).drop_last() =~= session.deep_view().take(
                i as int,
            ));
            assert(session.deep_view().take(i as int + 1).last() == g@);
        }
        if contains_string(&running, g.as_str()) && !settings.capture_blocked(g.as_str()) {
            let ghost prev = kept.deep_view();
            kept.push(g);
            proof {
                assert(kept.deep_view() =~= prev.push(session.deep_view()[i as int]));
            }
        }
        i = i + 1;
    }
    proof {
        assert(session.deep_view().take(session.len() as int) =~= session.deep_view());
    }
    let ghost kept_v = kept.deep_view();
    let mut learned = false;
    let fg_ok = match &foreground {
        Some(f) => !settings.capture_blocked(f.as_str()),
        None => false,
    };
    if fg_ok {
        let f = foreground.clone().unwrap();
        if !contains_string(&kept, f.as_str()) {
            let ghost prev = kept.deep_view();
            let f2 = f.clone();
            kept.push(f2);
            proof {
                assert(kept.deep_view() =~= prev.push(f@));
            }
            if !any_eq_ignore_case(&settings.game_exes, f.as_str()) {
                let ghost prev_exes = settings.game_exes.deep_view();
                settings.game_exes.push(f);
                proof {
                    assert(settings.game_exes.deep_view() =~= prev_exes.push(foreground->0@));
                }
                learned = true;
            }
        }
    }
    *session = kept;
    let game = if fg_ok {
        foreground
    } else {
        match first_watched(&settings.game_exes, &running, settings) {
            Some(g) => Some(g),
            None => if session.len() > 0 {
                Some(session[0].clone())
            } else {
                None
            },
        }
    };
    (game, learned)
}

fn first_watched(exes: &Vec<String>, running: &Vec<String>, settings: &Settings) -> (r: Option<
    String,
>)
    ensures
        r.deep_view() == spec_first_watched(exes.deep_view(), running.deep_view(), *settings),
{
    let mut i: usize = 0;
    proof {
        assert(exes.deep_view().skip(0) =~= exes.deep_view());
    }
    while i < exes.len()
        invariant
            i <= exes.len(),
            spec_first_watched(exes.deep_view(), running.deep_view(), *settings)
                == spec_first_watched(exes.deep_view().skip(i as int), running.deep_view(), *settings),
        decreases exes.len() - i,
    {
        let g = exes[i].to_lowercase();
        proof {
            let rest = exes.deep_view().skip(i as int);
            assert(rest[0] == exes.deep_view()[i as int]);
            assert(rest.drop_first() =~= exes.deep_view().skip(i + 1));
        }
        if contains_string(running, g.as_str()) && !settings.capture_blocked(g.as_str()) {
            return Some(g);
        }
        i = i + 1;
    }
    None
}

// ---------------------------------------------------------------- laws

/// The fullscreen app wins: when one is present and not blacklisted, it is
/// the game reported, whatever watched exes or session games also run,
/// and it is part of the session afterwards.
pub proof fn lemma_foreground_game_wins(
    settings: Settings,
    session: Seq<Seq<char>>,
    process_names: Seq<Seq<char>>,
    foreground: Option<Seq<char>>,
)
    requires
        foreground is Some,
        !settings.spec_capture_blocked(foreground->0),
    ensures
        detection_outcome(settings, session, process_names, foreground).1 == foreground,
        detection_outcome(settings, session, process_names, foreground).0.contains(foreground->0),
{
    let out = detection_outcome(settings, session, process_names, foreground);
    let kept = spec_keep_session(session, lowered(process_names), settings);
    if !kept.contains(foreground->0) {
        assert(out.0 == kept.push(foreground->0));
        assert(out.0[kept.len() as int] == foreground->0);
    }
}

/// Once the game has been gone for the whole grace period, a managed,
/// recording, unpaused buffer is stopped (unless a save is being
/// written), however many more ticks have passed; and a managed, unpaused
/// buffer that is not recording is started as soon as a game runs.
pub proof fn lemma_buffer_follows_the_game(no_game_ticks: u32, save_recent: bool)
    ensures
        no_game_ticks >= EXIT_GRACE_TICKS ==> spec_buffer_action(
            true,
            false,
            true,
            false,
            true,
            no_game_ticks,
            false,
        ) == BufferAction::Stop,
        spec_buffer_action(true, true, false, false, true, no_game_ticks, save_recent)
            == BufferAction::Start,
{
}


/// The buffer is only ever started for a running game: while connected,
/// not paused, with auto-management on, and only when it is not already
/// recording.
pub proof fn lemma_start_only_for_a_game(
    connected: bool,
    game: bool,
    active: bool,
    paused: bool,
    managed: bool,
    no_game_ticks: u32,
    save_recent: bool,
)
    requires
        spec_buffer_action(connected, game, active, paused, managed, no_game_ticks, save_recent)
            == BufferAction::Start,
    ensures
        connected && game && !active && !paused && managed,
{
}

/// The buffer is never stopped within the save window (a stop landing on a
/// flush can wedge OBS), never when it is not recording, and, unless the
/// user paused, only after the game has been gone for the whole grace
/// period, and only when the app manages it.
pub proof fn lemma_stop_is_safe(
    connected: bool,
    game: bool,
    active: bool,
    paused: bool,
    managed: bool,
    no_game_ticks: u32,
    save_recent: bool,
)
    requires
        spec_buffer_action(connected, game, active, paused, managed, no_game_ticks, save_recent)
            == BufferAction::Stop,
    ensures
        connected && active && !save_recent,
        !paused ==> managed && !game && no_game_ticks >= EXIT_GRACE_TICKS,
{
}

/// A paused buffer is never started; a pause stops a recording buffer
/// (outside the save window) whatever the game state.
pub proof fn lemma_pause_keeps_buffer_down(
    game: bool,
    active: bool,
    managed: bool,
    no_game_ticks: u32,
    save_recent: bool,
)
    ensures
        spec_buffer_action(true, game, active, true, managed, no_game_ticks, save_recent)
            != BufferAction::Start,
        active && !save_recent ==> spec_buffer_action(
            true,
            game,
            active,
            true,
            managed,
            no_game_ticks,
            save_recent,
        ) == BufferAction::Stop,
{
}

/// Without a connection the supervisor leaves the buffer alone.
pub proof fn lemma_disconnected_keeps(
    game: bool,
    active: bool,
    paused: bool,
    managed: bool,
    no_game_ticks: u32,
    save_recent: bool,
)
    ensures
        spec_buffer_action(false, game, active, paused, managed, no_game_ticks, save_recent)
            == BufferAction::Keep,
{
}

proof fn lemma_keep_session(session: Seq<Seq<char>>, running: Seq<Seq<char>>, settings: Settings)
    ensures
        forall|i: int|
            0 <= i < spec_keep_session(session, running, settings).len() ==> running.contains(
                #[trigger] spec_keep_session(session, running, settings)[i],
            ) && !settings.spec_capture_blocked(spec_keep_session(session, running, settings)[i]),
        forall|g: Seq<char>|
            session.contains(g) && running.contains(g) && !settings.spec_capture_blocked(g)
                ==> #[trigger] spec_keep_session(session, running, settings).contains(g),
    decreases session.len(),
{
    if session.len() > 0 {
        let rest = spec_keep_session(session.drop_last(), running, settings);
        let full = spec_keep_session(session, running, settings);
        lemma_keep_session(session.drop_last(), running, settings);
        assert forall|i: int| 0 <= i < full.len() implies running.contains(#[trigger] full[i])
            && !settings.spec_capture_blocked(full[i]) by {
            if i < rest.len() {
                assert(full[i] == rest[i]);
            }
        }
        assert forall|g: Seq<char>|
            session.contains(g) && running.contains(g) && !settings.spec_capture_blocked(
                g,
            ) implies #[trigger] full.contains(g) by {
            let k = choose|k: int| 0 <= k < session.len() && session[k] == g;
            if k < session.len() - 1 {
                assert(session.drop_last()[k] == g);
                assert(rest.contains(g));
                let j = choose|j: int| 0 <= j < rest.len() && rest[j] == g;
                assert(full[j] == g);
            } else {
                assert(full[full.len() - 1] == g);
            }
        }
    }
}

proof fn lemma_first_watched(exes: Seq<Seq<char>>, running: Seq<Seq<char>>, settings: Settings)
    ensures
        spec_first_watched(exes, running, settings) is Some ==> running.contains(
            spec_first_watched(exes, running, settings)->0,
        ) && !settings.spec_capture_blocked(spec_first_watched(exes, running, settings)->0),
    decreases exes.len(),
{
    if exes.len() > 0 {
        lemma_first_watched(exes.drop_first(), running, settings);
    }
}

/// Game detection never reports or remembers a blacklisted exe: the
/// reported game, every session game and a learned exe are all off the
/// blacklist; and an exe is only learned when it is not already watched.
pub proof fn lemma_detection_respects_blacklist(
    settings: Settings,
    session: Seq<Seq<char>>,
    process_names: Seq<Seq<char>>,
    foreground: Option<Seq<char>>,
)
    ensures
        ({
            let (s2, g2, learned) = detection_outcome(settings, session, process_names, foreground);
            &&& g2 is Some ==> !settings.spec_capture_blocked(g2->0)
            &&& forall|i: int| 0 <= i < s2.len() ==> !settings.spec_capture_blocked(#[trigger] s2[i])
            &&& learned ==> foreground is Some && !settings.spec_capture_blocked(foreground->0)
                && !crate::text::spec_any_eq_ignore_case(settings.game_exes.deep_view(), foreground->0)
        }),
{
    let running = lowered(process_names);
    let kept = spec_keep_session(session, running, settings);
    lemma_keep_session(session, running, settings);
    lemma_first_watched(settings.game_exes.deep_view(), running, settings);
    let (s2, g2, learned) = detection_outcome(settings, session, process_names, foreground);
    assert forall|i: int| 0 <= i < s2.len() implies !settings.spec_capture_blocked(#[trigger] s2[i]) by {
        if i < kept.len() {
            assert(s2[i] == kept[i]);
        }
    }
    if g2 is Some && !(foreground is Some && !settings.spec_capture_blocked(foreground->0)) {
        if spec_first_watched(settings.game_exes.deep_view(), running, settings) is None {
            assert(s2.len() > 0);
            assert(g2->0 == s2[0]);
        }
    }
}

/// A game seen fullscreen stays the session's game while its process
/// runs: alt-tabbing out does not drop it. (It only leaves the session
/// when its process is gone or the user blacklists it.)
pub proof fn lemma_session_game_survives(
    settings: Settings,
    session: Seq<Seq<char>>,
    process_names: Seq<Seq<char>>,
    foreground: Option<Seq<char>>,
    g: Seq<char>,
)
    requires
        session.contains(g),
        lowered(process_names).contains(g),
        !settings.spec_capture_blocked(g),
    ensures
        detection_outcome(settings, session, process_names, foreground).0.contains(g),
        detection_outcome(settings, session, process_names, foreground).1 is Some,
{
    let running = lowered(process_names);
    let kept = spec_keep_session(session, running, settings);
    lemma_keep_session(session, running, settings);
    assert(kept.contains(g));
    let s2 = detection_outcome(settings, session, process_names, foreground).0;
    let j = choose|j: int| 0 <= j < kept.len() && kept[j] == g;
    assert(s2[j] == g);
}

/// A game the user removed stays removed: `remove_watched_game` puts it on
/// the blacklist (when nothing lowercasing like it was there), and from
/// then on detection never reports it nor learns it back.
pub proof fn lemma_removed_game_stays_removed(
    before: Settings,
    after: Settings,
    exe: Seq<char>,
    session: Seq<Seq<char>>,
    process_names: Seq<Seq<char>>,
    foreground: Option<Seq<char>>,
)
    requires
        !crate::clips::any_lowers_to(before.game_blacklist.deep_view(), spec_to_lowercase(exe)),
        after.game_blacklist.deep_view() == (if crate::clips::any_lowers_to(
            before.game_blacklist.deep_view(),
            spec_to_lowercase(exe),
        ) {
            before.game_blacklist.deep_view()
        } else {
            before.game_blacklist.deep_view().push(exe)
        }),
    ensures
        after.spec_capture_blocked(exe),
        detection_outcome(after, session, process_names, foreground).1 != Some(exe),
        detection_outcome(after, session, process_names, foreground).2 ==> foreground != Some(exe),
{
    let n = before.game_blacklist@.len() as int;
    assert(before.game_blacklist.deep_view().len() == n);
    assert(after.game_blacklist.deep_view().len() == after.game_blacklist@.len());
    assert(after.game_blacklist.deep_view()[n] == exe);
    assert(after.game_blacklist.deep_view()[n] == after.game_blacklist@[n].deep_view());
    assert(after.game_blacklist@[n]@ == exe);
    assert(crate::text::spec_eq_ignore_ascii_case(after.game_blacklist@[n]@, exe));
    lemma_detection_respects_blacklist(after, session, process_names, foreground);
}

} // verus!

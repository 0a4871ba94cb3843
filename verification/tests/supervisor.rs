use clipforge::clips::Settings;
use clipforge::supervisor::{
    audio_needs_retarget, buffer_action, connect_fallback, cooldown_after_spawn, detect_game, launch_step,
    next_no_game_ticks, obs_process_running, reload_now, BufferAction, ConnectFallback, EXIT_GRACE_TICKS,
    LAUNCH_COOLDOWN_TICKS,
};

#[test]
fn arms_only_for_a_connected_game_and_rearms_after_reconnect() {
    assert_eq!(buffer_action(true, false, false, false, true, 0, false), BufferAction::Keep);
    assert_eq!(buffer_action(false, true, false, false, true, 0, false), BufferAction::Keep);
    assert_eq!(buffer_action(true, true, false, false, true, 0, false), BufferAction::Start);
    assert_eq!(buffer_action(true, true, true, false, true, 0, false), BufferAction::Keep);
}

#[test]
fn exit_grace_and_pending_save_protect_the_buffer() {
    assert_eq!(buffer_action(true, false, true, false, true, 9, false), BufferAction::Keep);
    assert_eq!(buffer_action(true, false, true, false, true, 10, true), BufferAction::Keep);
    assert_eq!(buffer_action(true, false, true, false, true, 10, false), BufferAction::Stop);
}

#[test]
fn pause_and_manual_control() {
    assert_eq!(buffer_action(true, true, false, true, true, 0, false), BufferAction::Keep);
    assert_eq!(buffer_action(true, true, true, true, false, 0, false), BufferAction::Stop);
    assert_eq!(buffer_action(true, true, true, true, true, 0, true), BufferAction::Keep);
    assert_eq!(buffer_action(true, true, false, false, false, 0, false), BufferAction::Keep);
    assert_eq!(buffer_action(true, false, true, false, false, 50, false), BufferAction::Keep);
}

#[test]
fn buffer_never_started_while_paused_or_disconnected() {
    for &game in &[false, true] {
        for &active in &[false, true] {
            for &managed in &[false, true] {
                for &ticks in &[0u32, 9, 10, 1000] {
                    for &recent in &[false, true] {
                        assert_ne!(
                            buffer_action(true, game, active, true, managed, ticks, recent),
                            BufferAction::Start
                        );
                        assert_eq!(
                            buffer_action(false, game, active, false, managed, ticks, recent),
                            BufferAction::Keep
                        );
                        if buffer_action(true, game, active, false, managed, ticks, recent)
                            == BufferAction::Stop
                        {
                            assert!(!game && active && !recent && ticks >= EXIT_GRACE_TICKS);
                        }
                    }
                }
            }
        }
    }
}

#[test]
fn obs_process_found_in_any_case() {
    let names = vec!["explorer.exe".to_string(), "OBS64.EXE".to_string()];
    assert!(obs_process_running(&names));
    assert!(!obs_process_running(&vec!["obs32.exe".to_string()]));
    assert!(!obs_process_running(&Vec::new()));
}

#[test]
fn launch_cooldown_counts_down() {
    assert_eq!(launch_step(3, true), (2, false));
    assert_eq!(launch_step(1, true), (0, false));
    assert_eq!(launch_step(0, true), (0, true));
    assert_eq!(launch_step(0, false), (0, false));
    assert_eq!(cooldown_after_spawn(true), LAUNCH_COOLDOWN_TICKS);
    assert_eq!(cooldown_after_spawn(true), 5);
    assert_eq!(cooldown_after_spawn(false), 0);
}

#[test]
fn failed_connection_fallbacks() {
    assert!(matches!(connect_fallback(&None, 4455, true, None), ConnectFallback::NeedsRestart));
    let saved = Some("pw".to_string());
    assert!(matches!(
        connect_fallback(&saved, 4455, false, Some(("pw".to_string(), 4455))),
        ConnectFallback::NeedsRestart
    ));
    match connect_fallback(&saved, 4455, true, Some(("new".to_string(), 4455))) {
        ConnectFallback::UpdateCredentials(p, q) => {
            assert_eq!(p, "new");
            assert_eq!(q, 4455);
        }
        _ => panic!("expected new credentials"),
    }
    match connect_fallback(&saved, 4455, true, Some(("pw".to_string(), 4460))) {
        ConnectFallback::UpdateCredentials(p, q) => {
            assert_eq!(p, "pw");
            assert_eq!(q, 4460);
        }
        _ => panic!("expected new port"),
    }
    assert!(matches!(
        connect_fallback(&saved, 4455, true, Some(("pw".to_string(), 4455))),
        ConnectFallback::Nothing
    ));
    assert!(matches!(connect_fallback(&saved, 4455, true, None), ConnectFallback::Nothing));
}

#[test]
fn no_game_ticks_saturate_and_reset() {
    assert_eq!(next_no_game_ticks(true, 7), 0);
    assert_eq!(next_no_game_ticks(false, 7), 8);
    assert_eq!(next_no_game_ticks(false, u32::MAX), u32::MAX);
}

fn settings_with(exes: &[&str], blacklist: &[&str]) -> Settings {
    let mut s = Settings::default();
    s.game_exes = exes.iter().map(|e| e.to_string()).collect();
    s.game_blacklist = blacklist.iter().map(|e| e.to_string()).collect();
    s
}

fn strings(v: &[&str]) -> Vec<String> {
    v.iter().map(|e| e.to_string()).collect()
}

#[test]
fn fullscreen_game_is_learned_once() {
    let mut s = settings_with(&["cs2.exe"], &[]);
    let mut session = Vec::new();
    let procs = strings(&["newgame.exe", "explorer.exe"]);
    let (game, learned) = detect_game(&mut s, &mut session, &procs, Some("newgame.exe".to_string()));
    assert_eq!(game.as_deref(), Some("newgame.exe"));
    assert!(learned);
    assert_eq!(s.game_exes, strings(&["cs2.exe", "newgame.exe"]));
    assert_eq!(session, strings(&["newgame.exe"]));
    // Seen again: already in the session, nothing more to learn.
    let (game, learned) = detect_game(&mut s, &mut session, &procs, Some("newgame.exe".to_string()));
    assert_eq!(game.as_deref(), Some("newgame.exe"));
    assert!(!learned);
    assert_eq!(s.game_exes.len(), 2);
}

#[test]
fn alt_tabbed_session_game_stays_until_it_exits() {
    let mut s = settings_with(&[], &[]);
    let mut session = strings(&["indie.exe"]);
    let procs = strings(&["Indie.exe", "discord.exe"]);
    let (game, learned) = detect_game(&mut s, &mut session, &procs, None);
    assert_eq!(game.as_deref(), Some("indie.exe"));
    assert!(!learned);
    let (game, _) = detect_game(&mut s, &mut session, &strings(&["discord.exe"]), None);
    assert_eq!(game, None);
    assert!(session.is_empty());
}

#[test]
fn watched_exe_found_in_process_list() {
    let mut s = settings_with(&["R5Apex.exe", "cs2.exe"], &[]);
    let mut session = Vec::new();
    let procs = strings(&["CS2.EXE", "r5apex.exe"]);
    let (game, learned) = detect_game(&mut s, &mut session, &procs, None);
    assert_eq!(game.as_deref(), Some("r5apex.exe"));
    assert!(!learned);
}

#[test]
fn blacklisted_games_are_never_detected_or_learned() {
    let mut s = settings_with(&["cs2.exe"], &["CS2.exe", "vlc2.exe"]);
    let mut session = strings(&["vlc2.exe"]);
    let procs = strings(&["cs2.exe", "vlc2.exe"]);
    let (game, learned) = detect_game(&mut s, &mut session, &procs, Some("vlc2.exe".to_string()));
    assert_eq!(game, None);
    assert!(!learned);
    assert!(session.is_empty());
    assert_eq!(s.game_exes, strings(&["cs2.exe"]));
}

#[test]
fn known_exe_in_other_case_is_not_relearned() {
    let mut s = settings_with(&["Valorant.exe"], &[]);
    let mut session = Vec::new();
    let (game, learned) =
        detect_game(&mut s, &mut session, &strings(&["valorant.exe"]), Some("valorant.exe".to_string()));
    assert_eq!(game.as_deref(), Some("valorant.exe"));
    assert!(!learned);
    assert_eq!(session, strings(&["valorant.exe"]));
    assert_eq!(s.game_exes, strings(&["Valorant.exe"]));
}

#[test]
fn audio_track_follows_the_game_and_reload_waits() {
    let cs2 = Some("cs2.exe".to_string());
    assert!(audio_needs_retarget(&cs2, &None));
    assert!(!audio_needs_retarget(&cs2, &cs2.clone()));
    assert!(audio_needs_retarget(&cs2, &Some("dota2.exe".to_string())));
    assert!(!audio_needs_retarget(&None, &cs2));
    assert!(reload_now(false, true));
    assert!(!reload_now(true, true));
    assert!(!reload_now(false, false));
}

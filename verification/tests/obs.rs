use clipforge::obs::{
    autogame_missing, autogame_source_name, capture_source_settings, capture_window_selector,
    check_capture_kind, game_capture_source_name, obs_version_outdated, game_clip_name, game_sources_from, obs_status_of,
    pretty_game, saved_clip_target, ObsValue,
};
use std::path::Path;

#[test]
fn friendly_game_names() {
    assert_eq!(pretty_game("VALORANT-Win64-Shipping.exe"), "Valorant");
    assert_eq!(pretty_game("cs2.exe"), "CS2");
    assert_eq!(pretty_game("League of Legends.exe"), "LoL");
    assert_eq!(pretty_game("r5apex_dx12.exe"), "Apex");
    assert_eq!(pretty_game("RainbowSix_BE.exe"), "R6");
    assert_eq!(pretty_game("gta5.exe"), "GTA");
}

#[test]
fn unknown_games_get_cleaned_stems() {
    assert_eq!(pretty_game("marathon.exe"), "Marathon");
    assert_eq!(pretty_game("Deadlock.exe"), "Deadlock");
    assert_eq!(pretty_game("SomeGame-Win64-Shipping.exe"), "Somegame");
    assert_eq!(pretty_game("mygameclient-win64-shipping.exe"), "Mygameclient");
    assert_eq!(pretty_game("thing_dx11_be.exe"), "Thing_dx11");
    assert_eq!(pretty_game("cool-game.exe"), "Cool");
    assert_eq!(pretty_game("my game.exe"), "Mygame");
    assert_eq!(pretty_game("x.exe.exe"), "X");
    assert_eq!(pretty_game(".exe"), "");
    assert_eq!(pretty_game("ßtraße.exe"), "SStraße");
}

#[test]
fn saved_clips_carry_the_game() {
    assert_eq!(game_clip_name("cs2.exe", "Replay 2024-05-01 20-11-09.mp4"), "CS2 2024-05-01 20-11-09.mp4");
    assert_eq!(game_clip_name("cs2.exe", "clip Replay Replay .mp4"), "CS2 clip Replay .mp4");
    let t = saved_clip_target("D:/Clips/Replay 1.mp4", &Some("gta5.exe".into())).unwrap();
    assert_eq!(Path::new(&t), Path::new("D:/Clips/GTA 1.mp4"));
    assert_eq!(saved_clip_target("D:/Clips/Replay 1.mp4", &None), None);
    assert_eq!(saved_clip_target("/", &Some("gta5.exe".into())), None);
}

#[test]
fn obs_status_reports() {
    let s = obs_status_of(true, Some(true));
    assert!(s.connected && s.replay_buffer_active && s.obs_version.is_none());
    let s = obs_status_of(true, None);
    assert!(s.connected && !s.replay_buffer_active);
    let s = obs_status_of(false, Some(true));
    assert!(!s.connected && !s.replay_buffer_active);
}

#[test]
fn capture_sources() {
    assert_eq!(autogame_source_name(), "AutoGame");
    assert!(autogame_missing(&vec!["Capture: cs2.exe".to_string()]));
    assert!(!autogame_missing(&vec!["AutoGame".to_string()]));
    assert_eq!(game_capture_source_name("cs2.exe"), "Capture: cs2.exe");
    assert!(check_capture_kind("window_capture").is_ok());
    assert!(check_capture_kind("game_capture").is_ok());
    assert_eq!(check_capture_kind("monitor_capture"), Err("unknown capture kind: monitor_capture".to_string()));
    assert_eq!(
        capture_window_selector(&Some(("Counter-Strike 2".into(), "SDL_app".into())), "cs2.exe"),
        "Counter-Strike 2:SDL_app:cs2.exe"
    );
    assert_eq!(capture_window_selector(&None, "cs2.exe"), "::cs2.exe");
}

#[test]
fn capture_source_settings_by_kind() {
    let g = capture_source_settings("game_capture", "::cs2.exe");
    let keys: Vec<&str> = g.iter().map(|(k, _)| k.as_str()).collect();
    assert_eq!(keys, vec!["capture_mode", "window", "priority", "capture_cursor", "anti_cheat_hook"]);
    assert!(matches!(&g[0].1, ObsValue::Str(s) if s == "window"));
    assert!(matches!(&g[1].1, ObsValue::Str(s) if s == "::cs2.exe"));
    assert!(matches!(&g[2].1, ObsValue::Int(2)));
    assert!(matches!(&g[4].1, ObsValue::Bool(true)));
    let w = capture_source_settings("window_capture", "::cs2.exe");
    let keys: Vec<&str> = w.iter().map(|(k, _)| k.as_str()).collect();
    assert_eq!(keys, vec!["window", "priority", "cursor"]);
}

#[test]
fn dedicated_sources_listed() {
    let names = vec!["AutoGame".to_string(), "Capture: cs2.exe".to_string(), "Capture: ".to_string()];
    let s = game_sources_from("game_capture", &names);
    assert_eq!(s.len(), 2);
    assert_eq!((s[0].exe.as_str(), s[0].kind.as_str()), ("cs2.exe", "game_capture"));
    assert_eq!(s[1].exe, "");
}

#[test]
fn old_obs_versions() {
    assert!(obs_version_outdated("30.1.2"));
    assert!(obs_version_outdated("29"));
    assert!(!obs_version_outdated("30.2.0"));
    assert!(!obs_version_outdated("31.0.0-beta1"));
    assert!(!obs_version_outdated("unknown"));
    assert!(!obs_version_outdated("30.x"));
}

use clipforge::fullscreen::{
    covers_monitor, fullscreen_game, is_blocklisted, main_window_of, process_for_exe,
    running_windowed_apps, Rect, WindowEntry, WindowInfo,
};
use clipforge::health::{FrameCounters, FrameTracker, WINDOW};
use clipforge::setup::list_running_apps;
use clipforge::watcher::{after_wait, event_is_relevant, WatchNext, WatchWait};

fn rect(l: i32, t: i32, r: i32, b: i32) -> Rect {
    Rect { left: l, top: t, right: r, bottom: b }
}

#[test]
fn fullscreen_heuristic() {
    let mon = rect(0, 0, 1920, 1080);
    assert!(covers_monitor(rect(0, 0, 1920, 1080), mon));
    assert!(covers_monitor(rect(-8, -8, 1928, 1088), mon));
    assert!(!covers_monitor(rect(0, 0, 1920, 1040), mon));
    assert_eq!(fullscreen_game(rect(0, 0, 1920, 1080), mon, Some("Game.EXE".into())).as_deref(), Some("game.exe"));
    assert_eq!(fullscreen_game(rect(0, 0, 1920, 1080), mon, Some("chrome.exe".into())), None);
    assert_eq!(fullscreen_game(rect(0, 0, 800, 600), mon, Some("game.exe".into())), None);
    assert_eq!(fullscreen_game(rect(0, 0, 1920, 1080), mon, None), None);
    assert!(is_blocklisted("obs64.exe"));
    assert!(!is_blocklisted("cs2.exe"));
}

fn win(exe: Option<&str>, title: &str) -> WindowInfo {
    WindowInfo { exe: exe.map(String::from), title: title.to_string() }
}

#[test]
fn running_apps_picker() {
    let windows = vec![
        win(Some("Zed.exe"), "zebra"),
        win(Some("chrome.exe"), "Browser"),
        win(Some("game.exe"), "Alpha"),
        win(Some("zed.exe"), "second zed window"),
        win(None, "orphan"),
        win(Some("clipforge.exe"), "ClipForge"),
    ];
    let apps = running_windowed_apps(&windows);
    let v: Vec<(&str, &str)> = apps.iter().map(|a| (a.exe.as_str(), a.title.as_str())).collect();
    assert_eq!(v, vec![("game.exe", "Alpha"), ("zed.exe", "zebra")]);
    let picker = list_running_apps(apps);
    assert_eq!(picker.len(), 2);
    assert_eq!(picker[1].exe, "zed.exe");
}

#[test]
fn window_lookup_for_capture() {
    let procs = vec![(10u32, "explorer.exe".to_string()), (42, "CS2.exe".to_string()), (43, "cs2.exe".to_string())];
    assert_eq!(process_for_exe(&procs, "cs2.EXE"), Some(42));
    assert_eq!(process_for_exe(&procs, "gta5.exe"), None);
    let w = |pid: u32, visible: bool, title: &str, class: &str| WindowEntry {
        pid,
        visible,
        title: title.to_string(),
        class: class.to_string(),
    };
    let windows = vec![w(42, true, "", "tooltip"), w(42, false, "hidden", "x"), w(7, true, "other", "y"), w(42, true, "Counter-Strike 2", "SDL_app")];
    assert_eq!(main_window_of(&windows, 42), Some(("Counter-Strike 2".to_string(), "SDL_app".to_string())));
    assert_eq!(main_window_of(&windows, 99), None);
}

fn c(rs: u32, rt: u32, os: u32, ot: u32) -> FrameCounters {
    FrameCounters { render_skipped: rs, render_total: rt, output_skipped: os, output_total: ot }
}

#[test]
fn frame_health_window() {
    let mut t = FrameTracker::new();
    assert_eq!(t.record(c(0, 0, 0, 0)), (0, 0, 0, 0));
    assert_eq!(t.record(c(3, 300, 1, 100)), (3, 300, 1, 100));
    assert_eq!(t.record(c(3, 600, 1, 200)), (3, 600, 1, 200));
    // OBS restarted: counters went backwards, counted as a fresh start.
    assert_eq!(t.record(c(0, 10, 0, 10)), (3, 600, 1, 200));
    for i in 0..20u32 {
        t.record(c(0, 100 + i * 60, 0, 10));
    }
    assert_eq!(t.window.len(), WINDOW);
    assert_eq!(t.sums(), (0, 600, 0, 0));
    t.reset();
    assert!(t.last.is_none() && t.window.is_empty());
    assert_eq!(t.record(c(5, 5, 5, 5)), (0, 0, 0, 0));
}

#[test]
fn folder_watcher_decisions() {
    assert!(event_is_relevant(&vec!["D:/Clips/.thumbs/a.jpg".to_string(), "D:/Clips/a.mp4".to_string()]));
    assert!(!event_is_relevant(&vec!["D:/Clips/.thumbs/a.jpg".to_string()]));
    assert!(!event_is_relevant(&Vec::new()));
    assert_eq!(after_wait(WatchWait::Changed, "D:/Clips", "D:/Clips"), WatchNext::NotifyAfterDebounce);
    assert_eq!(after_wait(WatchWait::TimedOut, "D:/Clips", "D:/Clips"), WatchNext::KeepWatching);
    assert_eq!(after_wait(WatchWait::TimedOut, "D:/Clips", "E:/Clips"), WatchNext::Retarget);
    assert_eq!(after_wait(WatchWait::Disconnected, "D:/Clips", "D:/Clips"), WatchNext::Retarget);
}

#[test]
fn health_window_covers_the_last_ten_ticks() {
    let mut t = FrameTracker::new();
    // Tick k renders 100 more frames and skips k more.
    let mut skipped = 0u32;
    let mut last = (0, 0, 0, 0);
    for k in 0..15u32 {
        skipped += k;
        last = t.record(c(skipped, 100 * k, 0, 0));
    }
    // Deltas 5..=14 skipped, 10 ticks of 100 frames.
    assert_eq!(last, ((5..15u64).sum(), 1000, 0, 0));
    assert_eq!(t.window.len(), WINDOW);
}

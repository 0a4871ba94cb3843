use clipforge::clips::{
    audio_stream_count, default_game_exes, default_true, derived_files, cap_after_answer, enforce_storage_cap, h264_encoder_candidates,
    is_ffmpeg_package, list_clips, markers_path, name_taken_error, remove_watched_game, rename_target,
    select_in_folder_arg, sibling_output, thumbnail_path, toggle_favorite, total_size,
    dirs_next, ClipInfo, DirEntry, RecycleBin, Settings, DEFAULT_CLIPS_DIR,
};
use std::path::Path;

fn same_path(a: &str, b: &str) -> bool {
    Path::new(a) == Path::new(b)
}

#[test]
fn default_settings() {
    let s = Settings::default();
    assert_eq!(s.host, "localhost");
    assert_eq!(s.port, 4455);
    assert_eq!(s.clips_dir, DEFAULT_CLIPS_DIR);
    assert_eq!(s.vc_exe, "discord.exe");
    assert_eq!(s.hotkey_save, "alt+f10");
    assert_eq!(s.hotkey_short, "shift+alt+f10");
    assert_eq!(s.video_fps, 60);
    assert_eq!(s.encoder_pref, "auto");
    assert!(s.auto_launch_obs && s.auto_manage_buffer && !s.auto_clip && !s.auto_connect);
    assert_eq!(s.obs_path, "C:/Program Files/obs-studio/bin/64bit/obs64.exe");
    assert!(default_true());
    assert_eq!(default_game_exes().len(), 17);
    assert_eq!(default_game_exes()[3], "cs2.exe");
}

#[test]
fn capture_blacklist_ignores_ascii_case() {
    let mut s = Settings::default();
    s.game_blacklist = vec!["VLC.exe".into()];
    assert!(s.capture_blocked("vlc.EXE"));
    assert!(!s.capture_blocked("vlc2.exe"));
}

fn entry(path: &str, meta: Option<(u64, u64)>) -> DirEntry {
    DirEntry { path: path.to_string(), metadata: meta }
}

#[test]
fn library_listing_newest_first() {
    let entries = vec![
        entry("D:\\Clips\\old.mp4", Some((100, 10))),
        entry("D:\\Clips\\notes.txt", Some((900, 1))),
        entry("D:\\Clips\\new.MKV", Some((300, 20))),
        entry("D:\\Clips\\tie.mp4", Some((100, 5))),
        entry("D:\\Clips\\broken.mp4", None),
    ];
    let clips = list_clips(&entries);
    let names: Vec<&str> = clips.iter().map(|c| c.name.as_str()).collect();
    assert_eq!(names.len(), 3);
    assert_eq!(clips[0].modified_ms, 300);
    assert_eq!((clips[1].modified_ms, clips[2].modified_ms), (100, 100));
    assert_eq!(clips[1].size_bytes, 10);
    assert_eq!(clips[2].size_bytes, 5);
    assert!(clips.iter().all(|c| !c.path.contains('\\')));
    assert_eq!(total_size(&clips), 35);
}

fn clip(path: &str, t: u64, size: u64) -> ClipInfo {
    ClipInfo { path: path.to_string(), name: path.to_string(), modified_ms: t, size_bytes: size }
}

#[test]
fn storage_cap_leaves_a_fitting_library_alone() {
    let clips = vec![clip("/nonexistent/a.mp4", 3, 10), clip("/nonexistent/b.mp4", 2, 10)];
    assert_eq!(enforce_storage_cap(&clips, &Vec::new(), 20, &mut RecycleBin::new()), 0);
    // Over the cap, but every candidate is a favorite.
    let favs = vec!["/nonexistent/a.mp4".to_string(), "/nonexistent/b.mp4".to_string()];
    assert_eq!(enforce_storage_cap(&clips, &favs, 5, &mut RecycleBin::new()), 0);
}

#[test]
fn storage_cap_skips_clips_the_bin_refuses() {
    // Over the cap, but the files do not exist, so the bin refuses each one.
    let clips = vec![clip("/nonexistent/cf/a.mp4", 3, 10), clip("/nonexistent/cf/b.mp4", 2, 10)];
    assert_eq!(enforce_storage_cap(&clips, &vec!["/nonexistent/cf/a.mp4".to_string()], 5, &mut RecycleBin::new()), 0);
    assert_eq!(enforce_storage_cap(&clips, &Vec::new(), 1, &mut RecycleBin::new()), 0);
    // A cap of 0 bytes is a cap like any other: everything not a favorite is tried.
    assert_eq!(enforce_storage_cap(&clips, &Vec::new(), 0, &mut RecycleBin::new()), 0);
}

#[test]
fn storage_cap_step_after_the_bins_answer() {
    assert_eq!(cap_after_answer(30, 2, 10, true), (20, 3));
    assert_eq!(cap_after_answer(30, 2, 10, false), (30, 2));
}

#[test]
fn favorites_toggle() {
    let favs = toggle_favorite(Vec::new(), "a".into());
    assert_eq!(favs, vec!["a"]);
    let favs = toggle_favorite(favs, "b".into());
    assert_eq!(favs, vec!["a", "b"]);
    let favs = toggle_favorite(favs, "a".into());
    assert_eq!(favs, vec!["b"]);
    let favs = toggle_favorite(favs, "b".into());
    assert!(favs.is_empty());
}

#[test]
fn removing_a_watched_game_blacklists_it() {
    let mut s = Settings::default();
    s.game_exes = vec!["CS2.exe".into(), "cs2.exe".into(), "gta5.exe".into()];
    s.game_blacklist = Vec::new();
    remove_watched_game(&mut s, "Cs2.exe".into());
    assert_eq!(s.game_exes, vec!["gta5.exe"]);
    assert_eq!(s.game_blacklist, vec!["Cs2.exe"]);
    remove_watched_game(&mut s, "CS2.EXE".into());
    assert_eq!(s.game_blacklist, vec!["Cs2.exe"]);
}

#[test]
fn derived_file_names() {
    let m = markers_path("D:/Clips/CS2 Replay.mp4").unwrap();
    assert!(same_path(&m, "D:/Clips/.thumbs/CS2 Replay.markers.json"));
    assert_eq!(markers_path(""), None);
    let d = derived_files("D:/Clips/a.mp4");
    assert_eq!(d.len(), 9);
    assert!(same_path(&d[0], "D:/Clips/.thumbs/a.jpg"));
    assert!(same_path(&d[1], "D:/Clips/.thumbs/a.wave.png"));
    assert!(same_path(&d[8], "D:/Clips/.thumbs/a.wave5.png"));
    assert!(derived_files("").is_empty());
    assert!(same_path(&thumbnail_path("D:/Clips/.thumbs", "x.mkv"), "D:/Clips/.thumbs/x.jpg"));
    assert!(same_path(&sibling_output("D:/Clips/x.mp4", "_discord.mp4").unwrap(), "D:/Clips/x_discord.mp4"));
}

#[test]
fn renaming_clips() {
    let t = rename_target("D:/Clips/old.mkv", "  my:best*clip?  ").unwrap();
    assert!(same_path(&t, "D:/Clips/mybestclip.mkv"));
    let t = rename_target("D:/Clips/noext", "x").unwrap();
    assert!(same_path(&t, "D:/Clips/x.mp4"));
    assert_eq!(rename_target("D:/Clips/a.mp4", " <>|/ "), Err("empty name".to_string()));
    assert_eq!(name_taken_error(), "a clip with that name already exists");
}

#[test]
fn ffmpeg_helpers() {
    assert_eq!(audio_stream_count(Some("0\n1\n\n2\n  \n")), 3);
    assert_eq!(audio_stream_count(Some("")), 0);
    assert_eq!(audio_stream_count(None), 1);
    assert!(same_path(
        &dirs_next("C:/Users/me/AppData/Local"),
        "C:/Users/me/AppData/Local/Microsoft\\WinGet\\Packages"
    ));
    assert!(is_ffmpeg_package("Gyan.FFmpeg_Microsoft.Winget.Source_8wekyb3d8bbwe"));
    assert!(!is_ffmpeg_package("gyan.ffmpeg"));
    assert_eq!(h264_encoder_candidates(), vec!["h264_nvenc", "h264_amf", "h264_qsv", "libx264"]);
    assert_eq!(select_in_folder_arg("D:/Clips/a.mp4"), "/select,D:\\Clips\\a.mp4");
}

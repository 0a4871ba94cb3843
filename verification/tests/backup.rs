use clipforge::backup::{
    backup_destination, backup_dir, backup_now_check, backup_start, backup_status_of,
    cloud_synced_provider, copy_error_message, copy_plan, existing_backup_error, partial_path,
    receipt_path, split_pending, BackupPass, CopyPlan, FavoriteCopy,
};

#[test]
fn detects_synced_paths() {
    assert_eq!(cloud_synced_provider(r"F:\My Drive\Media\Clips", None), Some("Google Drive"));
    assert_eq!(cloud_synced_provider(r"C:\Users\x\OneDrive\Videos", None), Some("OneDrive"));
    assert_eq!(cloud_synced_provider(r"C:\Users\x\Dropbox\Clips", None), Some("Dropbox"));
    assert_eq!(cloud_synced_provider(r"C:\Users\x\Videos\Clips", None), None);
}

#[test]
fn synced_folders_by_name_and_volume_label() {
    assert_eq!(cloud_synced_provider("D:/Google Drive/clips", None), Some("Google Drive"));
    assert_eq!(cloud_synced_provider(r"C:\Users\x\iCloudDrive\Clips", None), Some("iCloud Drive"));
    assert_eq!(cloud_synced_provider(r"C:\Users\x\OneDrive - Work", None), Some("OneDrive"));
    // A shared drive mounted on a letter labelled "Google Drive".
    assert_eq!(cloud_synced_provider(r"G:\Shared drives\Team", Some("google drive")), Some("Google Drive"));
    assert_eq!(cloud_synced_provider(r"G:\Clips", Some("Data")), None);
    // The path wins over the label.
    assert_eq!(cloud_synced_provider(r"D:\Dropbox\x", Some("Google Drive")), Some("Dropbox"));
}

#[test]
fn backup_folder_setting_is_trimmed() {
    assert_eq!(backup_dir("  G:/Backups  ").as_deref(), Some("G:/Backups"));
    assert_eq!(backup_dir("   "), None);
    assert_eq!(backup_dir(""), None);
}

#[test]
fn receipt_and_partial_names() {
    assert_eq!(receipt_path("G:/b/clip.mp4"), "G:/b/clip.mp4.clipforge.json");
    assert_eq!(partial_path("G:/b/clip.mp4"), "G:/b/clip.mp4.partial");
}

#[test]
fn destination_keeps_the_clip_name() {
    let d = backup_destination("G:/Backups", "D:/Clips/CS2 2024-01-01.mp4").unwrap();
    assert_eq!(std::path::Path::new(&d), std::path::Path::new("G:/Backups/CS2 2024-01-01.mp4"));
    assert_eq!(backup_destination("G:/Backups", "/"), None);
}

fn copy(src: &str, verified: bool) -> FavoriteCopy {
    FavoriteCopy { src: src.to_string(), dst: format!("B/{src}"), verified }
}

#[test]
fn pending_and_backed_up_favorites() {
    let copies = vec![copy("a", true), copy("b", false), copy("c", true), copy("d", false)];
    let (todo, done) = split_pending(&copies);
    assert_eq!(done, 2);
    assert_eq!(
        todo,
        vec![("b".to_string(), "B/b".to_string()), ("d".to_string(), "B/d".to_string())]
    );
    let (todo, done) = split_pending(&Vec::new());
    assert!(todo.is_empty());
    assert_eq!(done, 0);
}

#[test]
fn backup_status_reports() {
    let s = backup_status_of(false, Some(5), None, false, false, Ok((3, 4)));
    assert!(!s.enabled && !s.folder_ok && s.pending == 0 && s.backed_up == 0);
    assert_eq!(s.last_run_ms, Some(5));
    let s = backup_status_of(true, None, Some("old".into()), true, false, Ok((3, 4)));
    assert!(s.enabled && !s.folder_ok && s.running);
    assert_eq!(s.error.as_deref(), Some("old"));
    let s = backup_status_of(false, None, None, true, true, Ok((3, 4)));
    assert_eq!((s.pending, s.backed_up), (3, 4));
    let s = backup_status_of(false, None, None, true, true, Err("denied".into()));
    assert_eq!(s.error.as_deref(), Some("Couldn't read favorites: denied"));
}

#[test]
fn passes_wait_for_the_game_and_the_minute() {
    // Never while a game runs, not even forced.
    assert_eq!(backup_start(true, true, None, true, true, false), (false, false));
    // Throttled to once a minute unless forced.
    assert_eq!(backup_start(false, false, Some(59_999), true, true, false), (false, false));
    assert_eq!(backup_start(false, false, Some(60_000), true, true, false), (true, true));
    assert_eq!(backup_start(false, false, None, true, true, false), (true, true));
    assert_eq!(backup_start(false, true, Some(10), true, true, false), (true, false));
    // Folder missing or a pass already running.
    assert_eq!(backup_start(false, false, None, false, true, false), (false, true));
    assert_eq!(backup_start(false, true, None, true, false, false), (false, false));
    assert_eq!(backup_start(false, true, None, true, true, true), (false, false));
}

#[test]
fn back_up_now_errors() {
    assert_eq!(
        backup_now_check(true, &Some("G:/b".into()), true).unwrap_err(),
        "Backups wait until your game closes."
    );
    assert_eq!(backup_now_check(false, &None, true).unwrap_err(), "Pick a backup folder first.");
    assert_eq!(
        backup_now_check(false, &Some("G:/b".into()), false).unwrap_err(),
        "Backup folder not found: G:/b"
    );
    assert!(backup_now_check(false, &Some("G:/b".into()), true).is_ok());
}

#[test]
fn existing_backups_are_adopted_or_refused() {
    assert_eq!(copy_plan(false, false), CopyPlan::CopyViaPartial);
    assert_eq!(copy_plan(true, true), CopyPlan::AdoptExisting);
    assert_eq!(copy_plan(true, false), CopyPlan::Refuse);
    assert!(existing_backup_error().starts_with("A backup with this name already exists."));
    assert_eq!(
        copy_error_message("D:/Clips/a.mp4", "disk full"),
        "Couldn't back up a.mp4: disk full"
    );
}

#[test]
fn a_pass_stops_when_a_game_starts() {
    let mut pass = BackupPass::start(None);
    assert!(pass.should_copy(false));
    pass.after_copy("C:/clips/a.mp4", Ok(()));
    assert_eq!(pass.copied, 1);
    assert!(!pass.should_copy(true));
    // The game ended, but this pass is over; the next one resumes.
    assert!(!pass.should_copy(false));
    assert_eq!(pass.copied, 1);
    assert!(pass.error.is_none());
}

#[test]
fn a_pass_stops_at_the_first_error() {
    let mut pass = BackupPass::start(None);
    assert!(pass.should_copy(false));
    pass.after_copy("C:/clips/a.mp4", Err("disk full".to_string()));
    assert_eq!(pass.error.as_deref(), Some("Couldn't back up a.mp4: disk full"));
    assert!(!pass.should_copy(false));
    assert_eq!(pass.copied, 0);
    let failed = BackupPass::start(Some("Couldn't read favorites: x".to_string()));
    assert!(failed.finished);
}

#[test]
fn synced_detection_ignores_case_and_slashes() {
    let plain = cloud_synced_provider("c:/users/me/dropbox/clips", None);
    assert_eq!(plain, Some("Dropbox"));
    assert_eq!(cloud_synced_provider("C:/USERS/ME/DROPBOX/CLIPS", None), plain);
    assert_eq!(cloud_synced_provider("c:\\users\\me\\dropbox\\clips", None), plain);
}

use clipforge::autoclip::{
    autoclip_plan, content_length, cs2_cfg_dir, gsi_config_file, library_folders_vdf, example_triggers_file, expand_env, expanded_env_names, find_body,
    gsi_config_text, gsi_read_step, handle_cs2_payload, handle_gsi_request, lol_events_step,
    lol_player_name, log_tail_step, new_lines_match, record_kill, schedule_clip, steam_roots,
    take_due, trigger_for_game, usable_triggers, vdf_library_paths, write_kill_markers, LogTrigger,
    LolEvent, ReadStep, TailPos, KILL_RETENTION_MS,
};

#[test]
fn kills_age_out_after_sixteen_minutes() {
    let mut kills = vec![1_000, 500_000, 900_000];
    record_kill(&mut kills, 1_460_000);
    // 1_000 is 1_459_000 ms old (dropped); 500_000 is exactly 960 s old (dropped).
    assert_eq!(kills, vec![900_000, 1_460_000]);
    assert_eq!(KILL_RETENTION_MS, 960_000);
    let mut none = Vec::new();
    record_kill(&mut none, 5);
    assert_eq!(none, vec![5]);
}

#[test]
fn markers_sit_where_kills_happened() {
    // A 60 s clip ending at t = 100 s: kills 10 s and 45 s ago, one before the clip.
    let kills = vec![20_000, 55_000, 90_000, 100_000];
    assert_eq!(write_kill_markers(&kills, 100_000, 60_000), vec![15_000, 50_000, 60_000]);
    assert!(write_kill_markers(&Vec::new(), 1, 1).is_empty());
    // A kill stamped after "now" counts as now.
    assert_eq!(write_kill_markers(&vec![200], 100, 50), vec![50]);
}

#[test]
fn multikill_extends_one_countdown() {
    let mut kills = Vec::new();
    let mut pending = None;
    assert!(schedule_clip(&mut kills, &mut pending, 10_000, 8_000));
    assert_eq!(pending, Some(18_000));
    assert!(!take_due(&mut pending, 17_999));
    assert!(!schedule_clip(&mut kills, &mut pending, 15_000, 8_000));
    assert_eq!(pending, Some(23_000));
    assert!(!take_due(&mut pending, 22_000));
    assert!(take_due(&mut pending, 23_000));
    assert_eq!(pending, None);
    assert!(!take_due(&mut pending, 99_000));
    assert_eq!(kills, vec![10_000, 15_000]);
    // Never sooner than 2 s after the last kill.
    assert!(schedule_clip(&mut kills, &mut pending, 0, 500));
    assert_eq!(pending, Some(2_000));
}

fn request(body: &str) -> Vec<u8> {
    format!(
        "POST / HTTP/1.1\r\nHost: 127.0.0.1:3888\r\ncontent-Length: {}\r\n\r\n{}",
        body.len(),
        body
    )
    .into_bytes()
}

#[test]
fn http_framing() {
    let req = request("{}");
    let start = find_body(&req).unwrap();
    assert_eq!(&req[start..], b"{}");
    assert_eq!(content_length(&req), Some(2));
    assert_eq!(find_body(b"GET / HTTP/1.1\r\nHost: x\r\n"), None);
    assert_eq!(find_body(b"\r\n\r\n"), Some(4));
    assert_eq!(content_length(b"POST / HTTP/1.1\r\n\r\n"), None);
    assert_eq!(content_length(b"Content-Length:  +17 \r\n"), Some(17));
    assert_eq!(content_length(b"Content-Length: x\r\n"), None);
    assert_eq!(content_length(&[0xff, 0xfe]), None);
}

#[test]
fn read_steps() {
    let req = request("{\"a\":1}");
    assert_eq!(gsi_read_step(&req), ReadStep::Complete);
    assert_eq!(gsi_read_step(&req[..req.len() - 2]), ReadStep::More);
    assert_eq!(gsi_read_step(b"POST / HTTP/1.1\r\nHost"), ReadStep::More);
    let big = vec![b'a'; 1_000_001];
    assert_eq!(gsi_read_step(&big), ReadStep::Abort);
}

fn payload(provider: &str, player: &str, kills: i64) -> String {
    format!(
        "{{\"provider\":{{\"steamid\":\"{provider}\"}},\"player\":{{\"steamid\":\"{player}\",\"match_stats\":{{\"kills\":{kills}}}}}}}"
    )
}

#[test]
fn cs2_kills_trigger_clips() {
    let me = payload("765", "765", 3);
    // First payload of a match only sets the count.
    assert_eq!(handle_gsi_request(&request(&me), -1), (3, false));
    assert_eq!(handle_gsi_request(&request(&payload("765", "765", 4)), 3), (4, true));
    assert_eq!(handle_gsi_request(&request(&payload("765", "765", 4)), 4), (4, false));
    // Spectating someone else changes nothing.
    assert_eq!(handle_gsi_request(&request(&payload("765", "999", 9)), 4), (4, false));
    // New match: the count went down.
    assert_eq!(handle_gsi_request(&request(&payload("765", "765", 0)), 4), (0, false));
    assert_eq!(handle_gsi_request(&request("not json"), 4), (4, false));
    assert_eq!(handle_gsi_request(b"no header end", 4), (4, false));
    assert_eq!(
        handle_cs2_payload(2, Some((Some("1".into()), Some("1".into()), Some(5)))),
        (5, true)
    );
    assert_eq!(handle_cs2_payload(2, Some((None, None, Some(5)))), (2, false));
    assert_eq!(handle_cs2_payload(2, Some((Some("1".into()), Some("1".into()), None))), (2, false));
}

fn ev(id: i64, name: &str, killer: &str) -> LolEvent {
    LolEvent { id, name: Some(name.to_string()), killer: Some(killer.to_string()) }
}

#[test]
fn league_events() {
    assert_eq!(lol_player_name("Faker#KR1"), "Faker");
    assert_eq!(lol_player_name("NoTag"), "NoTag");
    let events = vec![ev(0, "GameStart", ""), ev(1, "ChampionKill", "Faker"), ev(2, "ChampionKill", "Other")];
    // First poll: backlog only.
    assert_eq!(lol_events_step(-1, "Faker", &events), (2, false));
    assert_eq!(lol_events_step(0, "Faker", &events), (2, true));
    assert_eq!(lol_events_step(1, "Faker", &events), (2, false));
    assert_eq!(lol_events_step(5, "Faker", &events), (5, false));
    let odd = vec![LolEvent { id: 7, name: None, killer: None }];
    assert_eq!(lol_events_step(3, "Faker", &odd), (7, false));
}

fn trig(exe: &str) -> LogTrigger {
    LogTrigger { game_exe: exe.into(), log_path: "%LOCALAPPDATA%/G/game.log".into(), pattern: "killed".into() }
}

#[test]
fn log_triggers() {
    let all = vec![trig("example.exe"), trig("MyGame.exe"), trig("other.exe")];
    let usable = usable_triggers(&all);
    assert_eq!(usable.len(), 2);
    assert_eq!(usable[0].game_exe, "MyGame.exe");
    assert_eq!(trigger_for_game(&usable, "mygame.exe"), Some(0));
    assert_eq!(trigger_for_game(&usable, "cs2.exe"), None);
    assert!(example_triggers_file().contains("\"game_exe\": \"example.exe\""));
    assert_eq!(expanded_env_names(), vec!["LOCALAPPDATA", "APPDATA", "USERPROFILE", "PROGRAMDATA"]);
    let vars = vec![("LOCALAPPDATA".to_string(), "C:\\Users\\me\\AppData\\Local".to_string())];
    assert_eq!(expand_env("%LOCALAPPDATA%/G/game.log", &vars), "C:/Users/me/AppData/Local/G/game.log");
    assert_eq!(expand_env("$LOCALAPPDATA\\x", &vars), "C:/Users/me/AppData/Local/x");
    assert_eq!(expand_env("%APPDATA%/x", &vars), "%APPDATA%/x");
}

#[test]
fn log_tail_follows_the_file() {
    // New tail starts at the end of the file.
    let (t, read) = log_tail_step(None, "a.log", 100, "kill");
    let t = t.unwrap();
    assert_eq!((t.path.as_str(), t.offset, read), ("a.log", 100, None));
    // Growth: read from the old end.
    let (t, read) = log_tail_step(Some(t), "a.log", 150, "kill");
    let t = t.unwrap();
    assert_eq!((t.offset, read), (150, Some(100)));
    // No growth.
    let (t, read) = log_tail_step(Some(t), "a.log", 150, "kill");
    assert_eq!((t.as_ref().unwrap().offset, read), (150, None));
    // Rotated: read from the start.
    let (t, read) = log_tail_step(t, "a.log", 20, "kill");
    assert_eq!((t.as_ref().unwrap().offset, read), (20, Some(0)));
    // A pattern that does not compile never starts a tail.
    let (t, read) = log_tail_step(None, "a.log", 5, "(unclosed");
    assert!(t.is_none() && read.is_none());
    let old = TailPos { path: "old.log".into(), offset: 9 };
    let (t, _) = log_tail_step(Some(old), "new.log", 5, "(unclosed");
    assert_eq!(t.unwrap().path, "old.log");
    assert!(new_lines_match(r"you eliminated \w+", "line one\r\nKillFeed: you eliminated Bob\n"));
    assert!(!new_lines_match(r"you eliminated \w+", "nothing\n"));
    assert!(!new_lines_match("(bad", "(bad"));
}

#[test]
fn steam_libraries_and_gsi_config() {
    assert_eq!(steam_roots(), vec!["C:/Program Files (x86)/Steam", "C:/Program Files/Steam"]);
    let vdf = "\"libraryfolders\"\n{\n\t\"0\"\n\t{\n\t\t\"path\"\t\t\"C:\\\\Program Files (x86)\\\\Steam\"\n\t}\n\t\"1\"\n\t{\n\t\t\"path\"\t\t\"D:\\\\SteamLibrary\"\n\t}\n}\n";
    assert_eq!(vdf_library_paths(vdf), vec!["C:/Program Files (x86)/Steam", "D:/SteamLibrary"]);
    let cfg = gsi_config_text();
    assert!(cfg.starts_with("\"ClipForge GSI\"\n{\n \"uri\" \"http://127.0.0.1:3888\"\n \"timeout\" \"1.0\"\n"));
    assert!(cfg.ends_with("  \"map\" \"1\"\n }\n}\n"));
}

#[test]
fn loop_plan() {
    let p = autoclip_plan("cs2.exe", false);
    assert!(p.install_gsi && !p.poll_lol && p.reset_lol && p.poll_log);
    let p = autoclip_plan("cs2.exe", true);
    assert!(!p.install_gsi);
    let p = autoclip_plan("league of legends.exe", false);
    assert!(p.poll_lol && !p.reset_lol && !p.install_gsi);
    let p = autoclip_plan("", false);
    assert!(!p.poll_log && p.reset_lol);
}

#[test]
fn steam_paths() {
    assert_eq!(library_folders_vdf("C:/Steam"), "C:/Steam/steamapps/libraryfolders.vdf");
    let cfg = cs2_cfg_dir("D:/Games");
    assert_eq!(cfg, "D:/Games/steamapps/common/Counter-Strike Global Offensive/game/csgo/cfg");
    assert_eq!(
        gsi_config_file(&cfg),
        "D:/Games/steamapps/common/Counter-Strike Global Offensive/game/csgo/cfg/gamestate_integration_clipforge.cfg"
    );
}

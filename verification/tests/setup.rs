use clipforge::clips::Settings;
use clipforge::obs::ObsValue;
use clipforge::setup::{
    audio_track_plan, autoconfig_ini, device_needs_reset, diagnostics_fps, enable_websocket_config,
    encoder_summary, encoder_tuning, fixed_obs_paths, merge_encoder_json, fresh_ws_config, install_route, is_audio_capture_kind,
    launch_failure, localize_settings, obs_launch_args, obs_missing_error, replay_buffer_switches, missing_installer_error, obs_install_outcome,
    obs_installer_needs_ui, output_config_params, output_size, param_needs_set, parse_encoder_ids,
    password_text, pick_encoder, pick_installer, process_audio_settings, profile_reload_allowed,
    random_password, read_websocket_password, reg_value, registry_obs_paths, replay_length_params,
    resolution_text, shell_launch_outcome, solo_track, split_audio_targets, tracks_need_change,
    video_fps, video_needs_update, videos_clips_dir, websocket_server_enabled, winget_outcome,
    AudioInput, InstallRoute, WsConfig,
};

// Verbatim from a real OBS 32.2.2 log on an AMD + Intel iGPU machine.
const LOG: &str = "13:27:06.774: Available Encoders:
13:27:06.774:   Video Encoders:
13:27:06.774: 	- ffmpeg_svt_av1 (SVT-AV1)
13:27:06.774: 	- ffmpeg_aom_av1 (AOM AV1)
13:27:06.774: 	- h264_texture_amf (AMD HW H.264 (AVC))
13:27:06.774: 	- h265_texture_amf (AMD HW H.265 (HEVC))
13:27:06.774: 	- av1_texture_amf (AMD HW AV1)
13:27:06.774: 	- obs_qsv11_v2 (QuickSync H.264)
13:27:06.774: 	- obs_qsv11_hevc (QuickSync HEVC)
13:27:06.774: 	- obs_x264 (x264)
13:27:06.774:   Audio Encoders:
13:27:06.774: 	- ffmpeg_aac (FFmpeg AAC)";

#[test]
fn parses_timestamped_encoder_list() {
    let ids = parse_encoder_ids(LOG);
    assert!(ids.contains(&"av1_texture_amf".to_string()), "{ids:?}");
    assert!(ids.contains(&"obs_x264".to_string()), "{ids:?}");
    assert!(!ids.iter().any(|i| i.contains("aac")), "{ids:?}");
}

#[test]
fn prefers_discrete_gpu_encoder() {
    let ids = parse_encoder_ids(LOG);
    assert_eq!(pick_encoder("auto", &ids).as_deref(), Some("av1_texture_amf"));
    assert_eq!(pick_encoder("hevc", &ids).as_deref(), Some("h265_texture_amf"));
    assert_eq!(pick_encoder("h264", &ids).as_deref(), Some("h264_texture_amf"));
    let intel_only: Vec<String> = ["obs_qsv11_v2", "obs_qsv11_hevc", "obs_x264"].map(String::from).into();
    assert_eq!(pick_encoder("h264", &intel_only).as_deref(), Some("obs_qsv11_v2"));
    assert_eq!(pick_encoder("auto", &intel_only).as_deref(), Some("obs_qsv11_hevc"));
}

#[test]
fn encoder_list_in_log_order() {
    let ids = parse_encoder_ids(LOG);
    assert_eq!(
        ids,
        vec![
            "ffmpeg_svt_av1",
            "ffmpeg_aom_av1",
            "h264_texture_amf",
            "h265_texture_amf",
            "av1_texture_amf",
            "obs_qsv11_v2",
            "obs_qsv11_hevc",
            "obs_x264"
        ]
    );
    assert!(parse_encoder_ids("no encoders here\n").is_empty());
}

#[test]
fn nvenc_beats_the_rest_and_fallbacks() {
    let ids: Vec<String> =
        ["h264_texture_amf", "jim_nvenc", "jim_hevc_nvenc", "jim_av1_nvenc"].map(String::from).into();
    assert_eq!(pick_encoder("auto", &ids).as_deref(), Some("jim_av1_nvenc"));
    assert_eq!(pick_encoder("hevc", &ids).as_deref(), Some("jim_hevc_nvenc"));
    let none: Vec<String> = Vec::new();
    assert_eq!(pick_encoder("h264", &none).as_deref(), Some("obs_x264"));
    assert_eq!(pick_encoder("av1", &none), None);
    assert_eq!(pick_encoder("auto", &none), None);
}

#[test]
fn registry_value_parsing() {
    let out = "\r\nHKEY_LOCAL_MACHINE\\SOFTWARE\\OBS Studio\r\n    (Default)    REG_SZ    C:\\Program Files\\obs-studio\r\n\r\n";
    assert_eq!(reg_value(out).as_deref(), Some("C:\\Program Files\\obs-studio"));
    assert_eq!(reg_value("    SteamPath    REG_SZ    \r\n"), None);
    assert_eq!(reg_value("ERROR: not found"), None);
}

#[test]
fn obs_candidate_paths() {
    let fixed = fixed_obs_paths("C:\\Program Files");
    assert_eq!(fixed[0], "C:/Program Files/obs-studio/bin/64bit/obs64.exe");
    assert_eq!(fixed[1], "C:/Program Files (x86)/obs-studio/bin/64bit/obs64.exe");
    assert_eq!(fixed[2], "C:/Program Files/obs-studio/bin/64bit/obs64.exe");
    let reg = registry_obs_paths(&vec!["D:\\Apps\\OBS".to_string()], Some("C:\\Steam".to_string()));
    assert_eq!(
        reg,
        vec![
            "D:/Apps/OBS/bin/64bit/obs64.exe".to_string(),
            "C:/Steam/steamapps/common/OBS Studio/bin/64bit/obs64.exe".to_string()
        ]
    );
    assert!(registry_obs_paths(&Vec::new(), None).is_empty());
}

#[test]
fn wizard_flag_goes_into_the_general_section() {
    let ini = "[General]\nPre19Defaults=false\n[Video]\nRenderer=Direct3D 11\n";
    assert_eq!(
        autoconfig_ini(ini).as_deref(),
        Some("[General]\nPre19Defaults=false\nFirstRun=true\n[Video]\nRenderer=Direct3D 11\n")
    );
    assert_eq!(autoconfig_ini("").as_deref(), Some("[General]\nFirstRun=true\n"));
    assert_eq!(autoconfig_ini("[general]\r\nA=1").as_deref(), Some("[general]\nA=1\nFirstRun=true\n"));
    assert_eq!(autoconfig_ini("[Video]\nX=1\n").as_deref(), Some("[Video]\nX=1\n[General]\nFirstRun=true\n"));
    assert_eq!(autoconfig_ini("[General]\n  FirstRun=true  \n"), None);
    // Applying it twice changes nothing the second time.
    let once = autoconfig_ini(ini).unwrap();
    assert_eq!(autoconfig_ini(&once), None);
}

fn ws(enabled: bool, pw: &str, port: u16) -> WsConfig {
    WsConfig {
        alerts_enabled: true,
        auth_required: true,
        first_load: false,
        server_enabled: enabled,
        server_password: pw.to_string(),
        server_port: port,
    }
}

#[test]
fn websocket_config_reading() {
    assert!(!websocket_server_enabled(&None));
    assert!(websocket_server_enabled(&Some(ws(true, "", 4455))));
    assert!(!websocket_server_enabled(&Some(ws(false, "x", 4455))));
    assert_eq!(read_websocket_password(Some(ws(true, "secret", 4460))), Some(("secret".to_string(), 4460)));
    assert_eq!(read_websocket_password(Some(ws(true, "", 4460))), None);
    assert_eq!(read_websocket_password(None), None);
    let fresh = fresh_ws_config();
    assert!(!fresh.server_enabled && fresh.auth_required && fresh.server_password.is_empty());
    assert_eq!(fresh.server_port, 4455);
}

#[test]
fn enabling_the_server_is_idempotent() {
    let (c, changed) = enable_websocket_config(None, "cfabc".to_string());
    assert!(changed && c.server_enabled);
    assert_eq!(c.server_password, "cfabc");
    assert_eq!(c.server_port, 4455);
    let (c2, changed2) = enable_websocket_config(Some(c.clone()), "other".to_string());
    assert!(!changed2);
    assert_eq!(c2.server_password, "cfabc");
    let (c3, changed3) = enable_websocket_config(Some(ws(false, "keep", 4460)), "new".to_string());
    assert!(changed3 && c3.server_enabled && c3.alerts_enabled);
    assert_eq!((c3.server_password.as_str(), c3.server_port), ("keep", 4460));
}

#[test]
fn passwords_are_cf_and_32_hex_digits() {
    assert_eq!(password_text(0x1f, u64::MAX), "cf000000000000001fffffffffffffffff");
    let p = random_password();
    assert_eq!(p.len(), 34);
    assert!(p.starts_with("cf"));
    assert!(p[2..].chars().all(|c| c.is_ascii_hexdigit() && !c.is_ascii_uppercase()));
    assert_ne!(random_password(), random_password());
}

#[test]
fn package_installs() {
    assert_eq!(install_route("OBSProject.OBSStudio"), Ok(InstallRoute::ObsInstaller));
    assert_eq!(install_route("Gyan.FFmpeg"), Ok(InstallRoute::Winget));
    assert_eq!(install_route("Evil.Package"), Err("unknown package".to_string()));
    assert_eq!(winget_outcome(true, "", ""), Ok(()));
    assert_eq!(winget_outcome(false, "Found an existing package ALREADY INSTALLED", ""), Ok(()));
    assert_eq!(winget_outcome(false, "  \n", "boom"), Err("install failed: boom".to_string()));
    assert_eq!(winget_outcome(false, "nope", "boom"), Err("install failed: nope".to_string()));
}

#[test]
fn obs_installer_outcomes() {
    assert!(obs_installer_needs_ui(6));
    assert!(!obs_installer_needs_ui(0));
    assert_eq!(obs_install_outcome(0), Ok(()));
    assert!(obs_install_outcome(6).unwrap_err().starts_with("OBS files are in use"));
    assert_eq!(obs_install_outcome(1602), Err("OBS installer failed (exit code 1602)".to_string()));
    let paths = vec!["C:/t/readme.txt".to_string(), "C:/t/OBS-Setup.EXE".to_string(), "C:/t/b.exe".to_string()];
    assert_eq!(pick_installer(&paths).as_deref(), Some("C:/t/OBS-Setup.EXE"));
    assert_eq!(pick_installer(&vec!["a.msi".to_string()]), None);
    assert_eq!(missing_installer_error("  no network \n"), "couldn't download the OBS installer: no network");
}

#[test]
fn launching_obs() {
    assert_eq!(launch_failure(Some(740), "elevation"), Ok(()));
    assert_eq!(launch_failure(Some(2), "not found"), Err("couldn't launch OBS: not found".to_string()));
    assert_eq!(launch_failure(None, "x"), Err("couldn't launch OBS: x".to_string()));
    assert_eq!(shell_launch_outcome(42), Ok(()));
    assert!(shell_launch_outcome(5).unwrap_err().starts_with("OBS needs administrator rights"));
}

#[test]
fn output_layout_params() {
    let p = output_config_params("D:/RECORDINGS/Clips");
    assert_eq!(p.len(), 7);
    assert_eq!(p[0], ("Output".to_string(), "Mode".to_string(), "Advanced".to_string()));
    assert_eq!(p[2], ("AdvOut".to_string(), "RecFilePath".to_string(), "D:\\RECORDINGS\\Clips".to_string()));
    assert_eq!(p[3], ("SimpleOutput".to_string(), "FilePath".to_string(), "D:\\RECORDINGS\\Clips".to_string()));
    assert_eq!(p[4].2, "31");
    assert_eq!(p[6], ("SimpleOutput".to_string(), "RecFormat2".to_string(), "hybrid_mp4".to_string()));
    let r = replay_length_params(180, 768);
    assert_eq!(r[0], ("AdvOut".to_string(), "RecRBTime".to_string(), "180".to_string()));
    assert_eq!(r[3], ("SimpleOutput".to_string(), "RecRBSize".to_string(), "768".to_string()));
    assert!(param_needs_set(&None, "true"));
    assert!(param_needs_set(&Some("false".into()), "true"));
    assert!(!param_needs_set(&Some("true".into()), "true"));
}

#[test]
fn video_sizing() {
    assert_eq!(video_fps(10), 30);
    assert_eq!(video_fps(144), 144);
    assert_eq!(video_fps(1000), 240);
    assert_eq!(output_size(0, 2560, 1440), (2560, 1440));
    assert_eq!(output_size(1080, 2560, 1440), (1920, 1080));
    assert_eq!(output_size(2160, 1920, 1080), (1920, 1080));
    // 720 * 1280 / 1024 / 2 = 450 exactly; 1366x768 to 720p rounds 640.3 down.
    assert_eq!(output_size(720, 1280, 1024), (900, 720));
    assert_eq!(output_size(720, 1366, 768), (1280, 720));
    // A half rounds away from zero: 1 * 2 / 2 / 2 = 0.5 -> 1; 3 * 5 / 4 / 2 = 1.875 -> 2.
    assert_eq!(output_size(1, 2, 2), (2, 1));
    assert_eq!(output_size(3, 5, 4), (4, 3));
    assert_eq!(output_size(1, 3, 2), (2, 1));
    assert_eq!(output_size(1080, 1920, 0), (0, 0));
    assert!(!video_needs_update(60, 1, 1920, 1080, 60, 1920, 1080));
    assert!(video_needs_update(60, 2, 1920, 1080, 60, 1920, 1080));
    assert!(video_needs_update(30, 1, 1920, 1080, 60, 1920, 1080));
}

#[test]
fn output_size_matches_float_rounding() {
    for &(h, bw, bh) in &[(1080u32, 2560u32, 1440u32), (720, 1920, 1080), (900, 3440, 1440), (1000, 1366, 768), (7, 13, 11)] {
        let hh = h.min(bh);
        let w = (hh as f64 * bw as f64 / bh as f64 / 2.0).round() as u32 * 2;
        assert_eq!(output_size(h, bw, bh), (w, hh));
    }
}

fn keys(v: &[(String, ObsValue)]) -> Vec<String> {
    v.iter().map(|(k, _)| k.clone()).collect()
}

#[test]
fn encoder_tuning_per_vendor() {
    let n = encoder_tuning("jim_av1_nvenc", 20000);
    assert_eq!(keys(&n), vec!["rate_control", "bitrate", "keyint_sec", "preset2", "tune", "multipass"]);
    assert!(matches!(&n[1].1, ObsValue::UInt(20000)));
    assert!(matches!(&n[2].1, ObsValue::Int(1)));
    assert!(matches!(&n[3].1, ObsValue::Str(s) if s == "p5"));
    let a = encoder_tuning("av1_texture_amf", 1);
    assert_eq!(keys(&a), vec!["rate_control", "bitrate", "keyint_sec", "preset"]);
    assert!(matches!(&a[3].1, ObsValue::Str(s) if s == "quality"));
    let q = encoder_tuning("obs_qsv11_v2", 1);
    assert!(matches!(&q[3].1, ObsValue::Str(s) if s == "TU2"));
    let x = encoder_tuning("obs_x264", 1);
    assert_eq!(keys(&x), vec!["rate_control", "bitrate", "keyint_sec", "preset", "profile"]);
    assert_eq!(encoder_tuning("", 5).len(), 3);
}

#[test]
fn reload_only_when_idle() {
    assert!(profile_reload_allowed(Some(false), Some(false), Some(false)));
    assert!(!profile_reload_allowed(Some(true), Some(false), Some(false)));
    assert!(!profile_reload_allowed(Some(false), None, Some(false)));
    assert!(!profile_reload_allowed(Some(false), Some(false), Some(true)));
}

#[test]
fn diagnostics_values() {
    assert_eq!(diagnostics_fps(120, 2), 60);
    assert_eq!(diagnostics_fps(60, 0), 60);
    assert_eq!(resolution_text(1920, 1080), "1920x1080");
}

#[test]
fn stale_audio_devices() {
    assert!(is_audio_capture_kind("wasapi_output_capture"));
    assert!(!is_audio_capture_kind("game_capture"));
    let items = vec![Some("{abc}".to_string()), None, Some("default".to_string())];
    assert!(!device_needs_reset(&None, &items));
    assert!(!device_needs_reset(&Some("default".into()), &Vec::new()));
    assert!(!device_needs_reset(&Some("{abc}".into()), &items));
    assert!(device_needs_reset(&Some("{gone}".into()), &items));
}

#[test]
fn track_layout() {
    let inputs = vec![
        AudioInput { kind: "wasapi_output_capture".into(), device: None },
        AudioInput { kind: "wasapi_input_capture".into(), device: Some("mic".into()) },
        AudioInput { kind: "wasapi_output_capture".into(), device: Some("default".into()) },
        AudioInput { kind: "wasapi_output_capture".into(), device: Some("{hdmi}".into()) },
        AudioInput { kind: "game_capture".into(), device: None },
    ];
    let plan = audio_track_plan(&inputs);
    assert_eq!(plan[0], Some(vec![true, false, false, true, false, false]));
    assert_eq!(plan[1], Some(vec![true, false, false, false, true, false]));
    assert_eq!(plan[2], Some(vec![false; 6]));
    assert_eq!(plan[3], Some(vec![true, false, false, true, false, false]));
    assert_eq!(plan[4], None);
    assert!(tracks_need_change(&vec![true, false], &vec![true, true]));
    assert!(!tracks_need_change(&vec![true, false], &vec![true, false]));
}

#[test]
fn split_audio_routing() {
    let t = split_audio_targets(&Some("cs2.exe".into()), "discord.exe");
    assert_eq!(
        t,
        vec![
            ("GameAudio".to_string(), "cs2.exe".to_string(), 1),
            ("VCAudio".to_string(), "discord.exe".to_string(), 2)
        ]
    );
    assert!(split_audio_targets(&None, "   ").is_empty());
    let s = process_audio_settings("cs2.exe");
    assert!(matches!(&s[0].1, ObsValue::Str(w) if w == "::cs2.exe"));
    assert!(matches!(&s[1].1, ObsValue::Int(2)));
    assert_eq!(solo_track(2), vec![false, false, true, false, false, false]);
}

#[test]
fn first_run_localization() {
    assert_eq!(videos_clips_dir(&Some("C:\\Users\\me".into()), "D:/x"), "C:/Users/me/Videos/Clips");
    assert_eq!(videos_clips_dir(&None, "D:/x"), "D:/x");
    let mut s = Settings::default();
    let changed = localize_settings(
        &mut s,
        false,
        Some("E:/obs/obs64.exe".into()),
        false,
        "C:/Users/me/Videos/Clips".into(),
        true,
        Some(("pw".into(), 4460)),
    );
    assert!(changed);
    assert_eq!(s.obs_path, "E:/obs/obs64.exe");
    assert_eq!(s.clips_dir, "C:/Users/me/Videos/Clips");
    assert_eq!(s.password.as_deref(), Some("pw"));
    assert_eq!(s.port, 4460);
    assert!(s.auto_connect);
    // Nothing to do on a set-up machine.
    let before_path = s.obs_path.clone();
    let changed = localize_settings(&mut s, true, None, true, "x".into(), true, Some(("other".into(), 1)));
    assert!(!changed);
    assert_eq!(s.obs_path, before_path);
    assert_eq!(s.password.as_deref(), Some("pw"));
    // A clips folder that could not be created is kept.
    let mut t = Settings::default();
    assert!(!localize_settings(&mut t, true, None, false, "C:/V".into(), false, None));
    assert_eq!(t.clips_dir, "D:/RECORDINGS/Clips");
}

#[test]
fn launch_args_and_fixed_params() {
    assert_eq!(obs_launch_args(), vec!["--minimize-to-tray", "--disable-shutdown-check"]);
    assert_eq!(obs_missing_error(), "OBS isn't installed \u{2014} install it from the setup bar first");
    assert_eq!(
        replay_buffer_switches(),
        vec![
            ("AdvOut".to_string(), "RecRB".to_string(), "true".to_string()),
            ("SimpleOutput".to_string(), "RecRB".to_string(), "true".to_string())
        ]
    );
}

#[test]
fn encoder_json_merge_writes_only_changes() {
    let tuning = encoder_tuning("jim_nvenc", 20000);
    let merged = merge_encoder_json(r#"{"rate_control":"VBR","keep":1}"#, &tuning).expect("changed");
    let v: serde_json::Value = serde_json::from_str(&merged).unwrap();
    assert_eq!(v["rate_control"], "CBR");
    assert_eq!(v["bitrate"], 20000);
    assert_eq!(v["keyint_sec"], 1);
    assert_eq!(v["preset2"], "p5");
    assert_eq!(v["keep"], 1);
    // Merging again changes nothing: nothing to write.
    assert_eq!(merge_encoder_json(&merged, &tuning), None);
    // A file that is not a JSON object counts as empty.
    let fresh = merge_encoder_json("not json", &tuning).expect("changed");
    let v: serde_json::Value = serde_json::from_str(&fresh).unwrap();
    assert_eq!(v["tune"], "hq");
    assert!(v.get("keep").is_none());
}

#[test]
fn encoder_summary_reads_rate_control_and_bitrate() {
    assert_eq!(
        encoder_summary(Some(r#"{"rate_control":"CBR","bitrate":18000,"keyint_sec":1}"#)),
        (Some("CBR".to_string()), Some(18000))
    );
    assert_eq!(encoder_summary(Some(r#"{"bitrate":"x"}"#)), (None, None));
    assert_eq!(encoder_summary(Some("{")), (None, None));
    assert_eq!(encoder_summary(None), (None, None));
}

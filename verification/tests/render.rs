use clipforge::render::{
    check_montage_count, export_filter, export_tracks, montage_filter, montage_output,
    montage_quality_args, track_waveform_filter, trim_output, waveform_jobs, TrackGain,
};
use std::path::Path;

fn tg(track: u32, gain: &str) -> TrackGain {
    TrackGain { track, gain: gain.to_string() }
}

fn view(v: &[TrackGain]) -> Vec<(u32, String)> {
    v.iter().map(|k| (k.track, k.gain.clone())).collect()
}

#[test]
fn export_track_selection() {
    // Out-of-range tracks dropped, duplicates keep their first gain, sorted.
    let req = vec![tg(4, "0.50"), tg(1, "1.00"), tg(9, "2.00"), tg(1, "3.00")];
    assert_eq!(view(&export_tracks(&req, 5)), vec![(1, "1.00".to_string()), (4, "0.50".to_string())]);
    // Old single-track clips fall back to the full mix.
    assert_eq!(view(&export_tracks(&req, 1)), vec![(0, "1.00".to_string())]);
    assert_eq!(view(&export_tracks(&Vec::new(), 5)), vec![(0, "1.00".to_string())]);
    assert_eq!(view(&export_tracks(&vec![tg(0, "0.25")], 1)), vec![(0, "0.25".to_string())]);
}

#[test]
fn export_filter_graphs() {
    assert_eq!(
        export_filter(false, &vec![tg(0, "1.00")]),
        "[0:v:0]scale=-2:1080[vout];[0:a:0]volume=1.00[aout]"
    );
    assert_eq!(
        export_filter(true, &vec![tg(1, "1.00"), tg(4, "2.00")]),
        "[0:v:0]scale=-2:720[vout];[0:a:1]volume=1.00[ga0];[0:a:4]volume=2.00[ga1];[ga0][ga1]amix=inputs=2:normalize=0[aout]"
    );
}

#[test]
fn montage_jobs() {
    assert_eq!(check_montage_count(1), Err("select at least 2 clips".to_string()));
    assert!(check_montage_count(2).is_ok());
    assert_eq!(Path::new(&montage_output("D:/Clips", 1700000000)), Path::new("D:/Clips/Montage_1700000000.mp4"));
    let f = montage_filter(2);
    assert_eq!(
        f,
        "[0:v]scale=1920:1080:force_original_aspect_ratio=decrease,pad=1920:1080:(ow-iw)/2:(oh-ih)/2,fps=60,setsar=1[v0];[0:a:0]aresample=48000,aformat=channel_layouts=stereo[a0];\
[1:v]scale=1920:1080:force_original_aspect_ratio=decrease,pad=1920:1080:(ow-iw)/2:(oh-ih)/2,fps=60,setsar=1[v1];[1:a:0]aresample=48000,aformat=channel_layouts=stereo[a1];\
[v0][a0][v1][a1]concat=n=2:v=1:a=1[outv][outa]"
    );
    assert_eq!(montage_quality_args("h264_nvenc"), vec!["-preset", "p5", "-rc", "vbr", "-cq", "21", "-b:v", "0"]);
    assert_eq!(montage_quality_args("h264_qsv"), vec!["-preset", "veryfast", "-global_quality", "21"]);
    assert_eq!(montage_quality_args("h264_amf")[1], "balanced");
    assert_eq!(montage_quality_args("libx264"), vec!["-preset", "veryfast", "-crf", "21"]);
}

#[test]
fn waveform_jobs_per_track() {
    assert_eq!(
        track_waveform_filter(3),
        "[0:a:3]aformat=channel_layouts=mono,compand,showwavespic=s=1200x40:colors=#6b8bff"
    );
    let jobs = waveform_jobs("D:/Clips/.thumbs", "a", 2);
    assert_eq!(jobs.len(), 2);
    assert_eq!(jobs[1].track, 1);
    assert_eq!(Path::new(&jobs[1].waveform), Path::new("D:/Clips/.thumbs/a.wave1.png"));
    assert!(waveform_jobs("x", "a", 0).is_empty());
}

#[test]
fn trim_outputs_keep_the_container() {
    let (p, mp4) = trim_output("D:/Clips/a.MP4", 12, 30).unwrap();
    assert_eq!(Path::new(&p), Path::new("D:/Clips/a_trim_12-30.mp4"));
    assert!(mp4);
    let (p, mp4) = trim_output("D:/Clips/b.mkv", 0, 5).unwrap();
    assert_eq!(Path::new(&p), Path::new("D:/Clips/b_trim_0-5.mkv"));
    assert!(!mp4);
    let (p, mp4) = trim_output("D:/Clips/c", 1, 2).unwrap();
    assert_eq!(Path::new(&p), Path::new("D:/Clips/c_trim_1-2.mp4"));
    assert!(mp4);
    assert_eq!(trim_output("", 1, 2), None);
}

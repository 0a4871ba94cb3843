//! The ffmpeg jobs behind the editor's exports: which audio tracks a
//! Discord export keeps and the filter graph that mixes them, the montage
//! filter graph and encoder settings, per-track waveform jobs, and the
//! names of the files these write.

use vstd::prelude::*;

use crate::paths::{file_stem, join, spec_file_stem, spec_join};
use crate::text::{
    chars_of, concat, copy_str, push_decimal, push_str, spec_decimal, spec_to_lowercase, str_eq,
    string_of,
};

verus! {

// ---------------------------------------------------------------- Discord export

/// A track the user keeps, with its export gain already written with two
/// decimals (OBS's layout: 0 = mix, 1 = game, 2 = voice, 3 = desktop,
/// 4 = mic).
#[derive(Clone, Debug)]
pub struct TrackGain {
    pub track: u32,
    pub gain: String,
}

pub open spec fn gain_view(k: TrackGain) -> (u32, Seq<char>) {
    (k.track, k.gain@)
}

/// The gain of the first request for track `t`, if any.
pub open spec fn first_gain(req: Seq<(u32, Seq<char>)>, t: u32) -> Option<Seq<char>>
    decreases req.len(),
{
    if req.len() == 0 {
        None
    } else if req[0].0 == t {
        Some(req[0].1)
    } else {
        first_gain(req.drop_first(), t)
    }
}

/// The kept tracks below `n`, ascending, each with its first requested gain.
pub open spec fn kept_below(req: Seq<(u32, Seq<char>)>, n: nat) -> Seq<(u32, Seq<char>)>
    decreases n,
{
    if n == 0 {
        Seq::empty()
    } else {
        let rest = kept_below(req, (n - 1) as nat);
        match first_gain(req, (n - 1) as u32) {
            Some(g) => rest.push(((n - 1) as u32, g)),
            None => rest,
        }
    }
}

/// The tracks an export keeps: every requested track the file has
/// (`count` audio streams), once each, ascending, with the gain first
/// asked for it; just the full mix at unit gain when none is left.
pub open spec fn spec_export_tracks(req: Seq<(u32, Seq<char>)>, count: u32) -> Seq<(u32, Seq<char>)> {
    let k = kept_below(req, count as nat);
    if k.len() == 0 {
        seq![(0u32, "1.00"@)]
    } else {
        k
    }
}

fn first_gain_of(req: &Vec<TrackGain>, t: u32) -> (r: Option<String>)
    ensures
        r.deep_view() == first_gain(req@.map_values(|k: TrackGain| gain_view(k)), t),
{
    let ghost rv = req@.map_values(|k: TrackGain| gain_view(k));
    let mut i: usize = 0;
    proof {
        assert(rv.skip(0) =~= rv);
    }
    while i < req.len()
        invariant
            i <= req.len(),
            rv == req@.map_values(|k: TrackGain| gain_view(k)),
            first_gain(rv, t) == first_gain(rv.skip(i as int), t),
        decreases req.len() - i,
    {
        proof {
            assert(rv.skip(i as int)[0] == gain_view(req@[i as int]));
            assert(rv.skip(i as int).drop_first() =~= rv.skip(i as int + 1));
        }
        if req[i].track == t {
            return Some(req[i].gain.clone());
        }
        i = i + 1;
    }
    proof {
        assert(rv.skip(i as int) =~= Seq::<(u32, Seq<char>)>::empty());
    }
    None
}

pub fn export_tracks(requested: &Vec<TrackGain>, count: u32) -> (r: Vec<TrackGain>)
    ensures
        r@.map_values(|k: TrackGain| gain_view(k)) == spec_export_tracks(
            requested@.map_values(|k: TrackGain| gain_view(k)),
            count,
        ),
{
    let ghost rv = requested@.map_values(|k: TrackGain| gain_view(k));
    let mut out: Vec<TrackGain> = Vec::new();
    let mut t: u32 = 0;
    while t < count
        invariant
            t <= count,
            rv == requested@.map_values(|k: TrackGain| gain_view(k)),
            out@.map_values(|k: TrackGain| gain_view(k)) == kept_below(rv, t as nat),
        decreases count - t,
    {
        match first_gain_of(requested, t) {
            Some(g) => {
                let ghost prev = out@;
                let k = TrackGain { track: t, gain: g };
                out.push(k);
                proof {
                    assert(out@.map_values(|k: TrackGain| gain_view(k)) =~= prev.map_values(
                        |k: TrackGain| gain_view(k),
                    ).push((t, k.gain@)));
                }
            },
            None => {},
        }
        t = t + 1;
    }
    if out.len() == 0 {
        out.push(TrackGain { track: 0, gain: copy_str("1.00") });
        proof {
            assert(out@.map_values(|k: TrackGain| gain_view(k)) =~= seq![(0u32, "1.00"@)]);
        }
    }
    out
}

/// `[0:a:T]volume=G[gaI];` for kept track `I`.
pub open spec fn gain_chain(i: nat, k: (u32, Seq<char>)) -> Seq<char> {
    "[0:a:"@ + spec_decimal(k.0 as nat) + "]volume="@ + k.1 + "[ga"@ + spec_decimal(i) + "];"@
}

pub open spec fn gain_chains(keep: Seq<(u32, Seq<char>)>, n: nat) -> Seq<char>
    decreases n,
{
    if n == 0 {
        Seq::empty()
    } else {
        gain_chains(keep, (n - 1) as nat) + gain_chain((n - 1) as nat, keep[n - 1])
    }
}

pub open spec fn mix_labels(n: nat) -> Seq<char>
    decreases n,
{
    if n == 0 {
        Seq::empty()
    } else {
        mix_labels((n - 1) as nat) + "[ga"@ + spec_decimal((n - 1) as nat) + "]"@
    }
}

/// The audio half of the export graph: one kept track gets its gain; more
/// are each gained and then summed by `amix` without renormalizing.
pub open spec fn spec_audio_filter(keep: Seq<(u32, Seq<char>)>) -> Seq<char> {
    if keep.len() == 1 {
        "[0:a:"@ + spec_decimal(keep[0].0 as nat) + "]volume="@ + keep[0].1 + "[aout]"@
    } else {
        gain_chains(keep, keep.len()) + mix_labels(keep.len()) + "amix=inputs="@ + spec_decimal(
            keep.len(),
        ) + ":normalize=0[aout]"@
    }
}

/// The whole export graph: the video scaled to 720p when the bitrate is
/// starved (1080p otherwise), and the audio mix.
pub open spec fn spec_export_filter(low_bitrate: bool, keep: Seq<(u32, Seq<char>)>) -> Seq<char> {
    "[0:v:0]"@ + (if low_bitrate {
        "scale=-2:720"@
    } else {
        "scale=-2:1080"@
    }) + "[vout];"@ + spec_audio_filter(keep)
}

pub fn export_filter(low_bitrate: bool, keep: &Vec<TrackGain>) -> (r: String)
    requires
        keep.len() >= 1,
    ensures
        r@ == spec_export_filter(low_bitrate, keep@.map_values(|k: TrackGain| gain_view(k))),
{
    let ghost kv = keep@.map_values(|k: TrackGain| gain_view(k));
    let mut out: Vec<char> = Vec::new();
    push_str(&mut out, "[0:v:0]");
    if low_bitrate {
        push_str(&mut out, "scale=-2:720");
    } else {
        push_str(&mut out, "scale=-2:1080");
    }
    push_str(&mut out, "[vout];");
    let ghost head = out@;
    if keep.len() == 1 {
        push_str(&mut out, "[0:a:");
        push_decimal(&mut out, keep[0].track as u64);
        push_str(&mut out, "]volume=");
        push_str(&mut out, keep[0].gain.as_str());
        push_str(&mut out, "[aout]");
        proof {
            assert(kv[0] == gain_view(keep@[0]));
            assert(out@ =~= head + spec_audio_filter(kv));
        }
    } else {
        let mut i: usize = 0;
        while i < keep.len()
            invariant
                i <= keep.len(),
                kv == keep@.map_values(|k: TrackGain| gain_view(k)),
                out@ == head + gain_chains(kv, i as nat),
            decreases keep.len() - i,
        {
            let ghost before = out@;
            push_str(&mut out, "[0:a:");
            push_decimal(&mut out, keep[i].track as u64);
            push_str(&mut out, "]volume=");
            push_str(&mut out, keep[i].gain.as_str());
            push_str(&mut out, "[ga");
            push_decimal(&mut out, i as u64);
            push_str(&mut out, "];");
            proof {
                assert(kv[i as int] == gain_view(keep@[i as int]));
                assert(out@ =~= before + gain_chain(i as nat, kv[i as int]));
            }
            i = i + 1;
        }
        let ghost mid = out@;
        let mut j: usize = 0;
        while j < keep.len()
            invariant
                j <= keep.len(),
                out@ == mid + mix_labels(j as nat),
            decreases keep.len() - j,
        {
            push_str(&mut out, "[ga");
            push_decimal(&mut out, j as u64);
            push_str(&mut out, "]");
            j = j + 1;
        }
        push_str(&mut out, "amix=inputs=");
        push_decimal(&mut out, keep.len() as u64);
        push_str(&mut out, ":normalize=0[aout]");
        proof {
            assert(out@ =~= head + spec_audio_filter(kv));
        }
    }
    string_of(&out)
}

// ---------------------------------------------------------------- montage

/// A montage joins at least two clips.
pub fn check_montage_count(n: usize) -> (r: Result<(), String>)
    ensures
        n >= 2 ==> r is Ok,
        n < 2 ==> (r matches Err(e) && e@ == "select at least 2 clips"@),
{
    if n < 2 {
        Err(copy_str("select at least 2 clips"))
    } else {
        Ok(())
    }
}

/// Where a montage made at Unix second `stamp` goes.
pub fn montage_output(clips_dir: &str, stamp: u64) -> (r: String)
    ensures
        r@ == spec_join(clips_dir@, "Montage_"@ + spec_decimal(stamp as nat) + ".mp4"@),
{
    let mut n: Vec<char> = Vec::new();
    push_str(&mut n, "Montage_");
    push_decimal(&mut n, stamp);
    push_str(&mut n, ".mp4");
    let name = string_of(&n);
    join(clips_dir, name.as_str())
}

/// Input `i` normalized to 1080p60 stereo 48 kHz.
pub open spec fn montage_input_chain(i: nat) -> Seq<char> {
    "["@ + spec_decimal(i) + ":v]scale=1920:1080:force_original_aspect_ratio=decrease,pad=1920:1080:(ow-iw)/2:(oh-ih)/2,fps=60,setsar=1[v"@
        + spec_decimal(i) + "];["@ + spec_decimal(i)
        + ":a:0]aresample=48000,aformat=channel_layouts=stereo[a"@ + spec_decimal(i) + "];"@
}

pub open spec fn montage_chains(n: nat) -> Seq<char>
    decreases n,
{
    if n == 0 {
        Seq::empty()
    } else {
        montage_chains((n - 1) as nat) + montage_input_chain((n - 1) as nat)
    }
}

pub open spec fn montage_pairs(n: nat) -> Seq<char>
    decreases n,
{
    if n == 0 {
        Seq::empty()
    } else {
        montage_pairs((n - 1) as nat) + "[v"@ + spec_decimal((n - 1) as nat) + "][a"@
            + spec_decimal((n - 1) as nat) + "]"@
    }
}

/// The montage graph: each input normalized, then all concatenated.
pub open spec fn spec_montage_filter(n: nat) -> Seq<char> {
    montage_chains(n) + montage_pairs(n) + "concat=n="@ + spec_decimal(n) + ":v=1:a=1[outv][outa]"@
}

/// The montage graph concatenates exactly the inputs it labels: it ends
/// with a `concat` of `n` segments, and (with at least one input) the
/// pair just before it is that of the last input, `[v{n-1}][a{n-1}]`.
pub proof fn lemma_montage_concat_counts_inputs(n: nat)
    ensures
        exists|pre: Seq<char>|
            spec_montage_filter(n) == pre + "concat=n="@ + spec_decimal(n)
                + ":v=1:a=1[outv][outa]"@,
        n >= 1 ==> exists|pre: Seq<char>|
            spec_montage_filter(n) == pre + "[v"@ + spec_decimal((n - 1) as nat) + "][a"@
                + spec_decimal((n - 1) as nat) + "]"@ + "concat=n="@ + spec_decimal(n)
                + ":v=1:a=1[outv][outa]"@,
{
    let tail = "concat=n="@ + spec_decimal(n) + ":v=1:a=1[outv][outa]"@;
    let pre = montage_chains(n) + montage_pairs(n);
    assert(spec_montage_filter(n) =~= pre + "concat=n="@ + spec_decimal(n)
        + ":v=1:a=1[outv][outa]"@);
    if n >= 1 {
        let m = (n - 1) as nat;
        let pre2 = montage_chains(n) + montage_pairs(m);
        assert(spec_montage_filter(n) =~= pre2 + "[v"@ + spec_decimal(m) + "][a"@
            + spec_decimal(m) + "]"@ + "concat=n="@ + spec_decimal(n) + ":v=1:a=1[outv][outa]"@);
    }
}

pub fn montage_filter(n: u64) -> (r: String)
    ensures
        r@ == spec_montage_filter(n as nat),
{
    let mut out: Vec<char> = Vec::new();
    let mut i: u64 = 0;
    while i < n
        invariant
            i <= n,
            out@ == montage_chains(i as nat),
        decreases n - i,
    {
        let ghost before = out@;
        push_str(&mut out, "[");
        push_decimal(&mut out, i);
        push_str(
            &mut out,
            ":v]scale=1920:1080:force_original_aspect_ratio=decrease,pad=1920:1080:(ow-iw)/2:(oh-ih)/2,fps=60,setsar=1[v",
        );
        push_decimal(&mut out, i);
        push_str(&mut out, "];[");
        push_decimal(&mut out, i);
        push_str(&mut out, ":a:0]aresample=48000,aformat=channel_layouts=stereo[a");
        push_decimal(&mut out, i);
        push_str(&mut out, "];");
        proof {
            assert(out@ =~= before + montage_input_chain(i as nat));
        }
        i = i + 1;
    }
    let ghost mid = out@;
    let mut j: u64 = 0;
    while j < n
        invariant
            j <= n,
            out@ == mid + montage_pairs(j as nat),
        decreases n - j,
    {
        push_str(&mut out, "[v");
        push_decimal(&mut out, j);
        push_str(&mut out, "][a");
        push_decimal(&mut out, j);
        push_str(&mut out, "]");
        j = j + 1;
    }
    push_str(&mut out, "concat=n=");
    push_decimal(&mut out, n);
    push_str(&mut out, ":v=1:a=1[outv][outa]");
    proof {
        assert(out@ =~= spec_montage_filter(n as nat));
    }
    string_of(&out)
}

/// Quality-targeted settings for each H.264 encoder (each spells it
/// differently), CRF 21 on the CPU.
pub open spec fn spec_quality_args(encoder: Seq<char>) -> Seq<Seq<char>> {
    if encoder == "h264_nvenc"@ {
        seq!["-preset"@, "p5"@, "-rc"@, "vbr"@, "-cq"@, "21"@, "-b:v"@, "0"@]
    } else if encoder == "h264_qsv"@ {
        seq!["-preset"@, "veryfast"@, "-global_quality"@, "21"@]
    } else if encoder == "h264_amf"@ {
        seq!["-quality"@, "balanced"@, "-rc"@, "cqp"@, "-qp_i"@, "21"@, "-qp_p"@, "23"@]
    } else {
        seq!["-preset"@, "veryfast"@, "-crf"@, "21"@]
    }
}

fn strings(items: &[&str]) -> (r: Vec<String>)
    ensures
        r.deep_view() == items@.map_values(|s: &str| s@),
{
    let mut v: Vec<String> = Vec::new();
    let mut i: usize = 0;
    while i < items.len()
        invariant
            i <= items.len(),
            v.deep_view() == items@.map_values(|s: &str| s@).take(i as int),
        decreases items.len() - i,
    {
        let ghost prev = v.deep_view();
        v.push(copy_str(items[i]));
        proof {
            assert(items@.map_values(|s: &str| s@).take(i as int + 1) =~= prev.push(items@[i as int]@));
        }
        i = i + 1;
    }
    proof {
        assert(items@.map_values(|s: &str| s@).take(items.len() as int) =~= items@.map_values(
            |s: &str| s@,
        ));
    }
    v
}

pub fn montage_quality_args(encoder: &str) -> (r: Vec<String>)
    ensures
        r.deep_view() == spec_quality_args(encoder@),
{
    if str_eq(encoder, "h264_nvenc") {
        let a = ["-preset", "p5", "-rc", "vbr", "-cq", "21", "-b:v", "0"];
        let r = strings(&a);
        proof {
            assert(a@.map_values(|s: &str| s@) =~= spec_quality_args(encoder@));
        }
        r
    } else if str_eq(encoder, "h264_qsv") {
        let a = ["-preset", "veryfast", "-global_quality", "21"];
        let r = strings(&a);
        proof {
            assert(a@.map_values(|s: &str| s@) =~= spec_quality_args(encoder@));
        }
        r
    } else if str_eq(encoder, "h264_amf") {
        let a = ["-quality", "balanced", "-rc", "cqp", "-qp_i", "21", "-qp_p", "23"];
        let r = strings(&a);
        proof {
            assert(a@.map_values(|s: &str| s@) =~= spec_quality_args(encoder@));
        }
        r
    } else {
        let a = ["-preset", "veryfast", "-crf", "21"];
        let r = strings(&a);
        proof {
            assert(a@.map_values(|s: &str| s@) =~= spec_quality_args(encoder@));
        }
        r
    }
}

// ---------------------------------------------------------------- waveforms

/// The waveform of audio track `i`, for the editor's stacked tracks.
pub open spec fn spec_track_waveform_filter(i: u32) -> Seq<char> {
    "[0:a:"@ + spec_decimal(i as nat)
        + "]aformat=channel_layouts=mono,compand,showwavespic=s=1200x40:colors=#6b8bff"@
}

pub fn track_waveform_filter(i: u32) -> (r: String)
    ensures
        r@ == spec_track_waveform_filter(i),
{
    let mut out: Vec<char> = Vec::new();
    push_str(&mut out, "[0:a:");
    push_decimal(&mut out, i as u64);
    push_str(&mut out, "]aformat=channel_layouts=mono,compand,showwavespic=s=1200x40:colors=#6b8bff");
    string_of(&out)
}

/// One track's waveform image.
#[derive(Clone, Debug)]
pub struct TrackWave {
    pub track: u32,
    pub waveform: String,
}

/// The per-track waveform images of a clip with `count` audio streams:
/// `<thumbs>/<stem>.wave<i>.png` for each track `i`.
pub fn waveform_jobs(thumbs_dir: &str, stem: &str, count: u32) -> (r: Vec<TrackWave>)
    ensures
        r@.len() == count,
        forall|i: int|
            0 <= i < count ==> (#[trigger] r@[i]).track == i && r@[i].waveform@ == spec_join(
                thumbs_dir@,
                stem@ + ".wave"@ + spec_decimal(i as nat) + ".png"@,
            ),
{
    let mut out: Vec<TrackWave> = Vec::new();
    let mut i: u32 = 0;
    while i < count
        invariant
            i <= count,
            out@.len() == i,
            forall|k: int|
                0 <= k < i ==> (#[trigger] out@[k]).track == k && out@[k].waveform@ == spec_join(
                    thumbs_dir@,
                    stem@ + ".wave"@ + spec_decimal(k as nat) + ".png"@,
                ),
        decreases count - i,
    {
        let mut n = chars_of(stem);
        push_str(&mut n, ".wave");
        push_decimal(&mut n, i as u64);
        push_str(&mut n, ".png");
        let name = string_of(&n);
        let w = join(thumbs_dir, name.as_str());
        out.push(TrackWave { track: i, waveform: w });
        i = i + 1;
    }
    out
}

// ---------------------------------------------------------------- trims

/// A lossless trim's output, next to the input: `<stem>_trim_<a>-<b>.<ext>`
/// with the whole seconds of its range and the input's extension
/// lowercased (`mp4` when it has none), so the container is kept. Also
/// whether the container is mp4 (only its muxer takes `+faststart`).
pub fn trim_output(input: &str, start_s: u64, end_s: u64) -> (r: Option<(String, bool)>)
    ensures
        match spec_file_stem(input@) {
            Some(stem) => {
                let ext = match crate::paths::spec_extension(input@) {
                    Some(e) => spec_to_lowercase(e),
                    None => spec_to_lowercase("mp4"@),
                };
                r matches Some((p, mp4)) && p@ == crate::paths::spec_with_file_name(
                    input@,
                    stem + "_trim_"@ + spec_decimal(start_s as nat) + "-"@ + spec_decimal(
                        end_s as nat,
                    ) + "."@ + ext,
                ) && mp4 == (ext == "mp4"@)
            },
            None => r is None,
        },
{
    let stem = match file_stem(input) {
        Some(s) => s,
        None => return None,
    };
    let ext = match crate::paths::extension(input) {
        Some(e) => e.to_lowercase(),
        None => "mp4".to_lowercase(),
    };
    let mut n = chars_of(stem.as_str());
    push_str(&mut n, "_trim_");
    push_decimal(&mut n, start_s);
    push_str(&mut n, "-");
    push_decimal(&mut n, end_s);
    push_str(&mut n, ".");
    let e = chars_of(ext.as_str());
    crate::text::extend_chars(&mut n, &e);
    let name = string_of(&n);
    let p = crate::paths::with_file_name(input, name.as_str());
    let mp4 = str_eq(ext.as_str(), "mp4");
    Some((p, mp4))
}

// ---------------------------------------------------------------- laws

proof fn lemma_kept_below(req: Seq<(u32, Seq<char>)>, n: nat)
    requires
        n <= 0x1_0000_0000,
    ensures
        forall|i: int|
            0 <= i < kept_below(req, n).len() ==> (#[trigger] kept_below(req, n)[i]).0 < n,
        forall|i: int, j: int|
            0 <= i < j < kept_below(req, n).len() ==> (#[trigger] kept_below(req, n)[i]).0
                < (#[trigger] kept_below(req, n)[j]).0,
    decreases n,
{
    if n > 0 {
        let m = (n - 1) as nat;
        lemma_kept_below(req, m);
        let rest = kept_below(req, m);
        let all = kept_below(req, n);
        assert forall|i: int| 0 <= i < all.len() implies (#[trigger] all[i]).0 < n by {
            if i < rest.len() {
                assert(all[i] == rest[i]);
            }
        }
        assert forall|i: int, j: int| 0 <= i < j < all.len() implies (#[trigger] all[i]).0 < (
        #[trigger] all[j]).0 by {
            if j < rest.len() {
                assert(all[i] == rest[i]);
                assert(all[j] == rest[j]);
            } else {
                assert(all[i] == rest[i]);
                assert(rest[i].0 < m);
                assert(all.len() == rest.len() + 1);
                assert(all[j] == all.last());
                assert(all.last().0 == m as u32);
            }
        }
    }
}

/// An export keeps at least one track, each track at most once, in
/// ascending order, and only tracks the file has (or the full mix).
pub proof fn lemma_export_tracks_valid(req: Seq<(u32, Seq<char>)>, count: u32)
    ensures
        spec_export_tracks(req, count).len() >= 1,
        forall|i: int|
            0 <= i < spec_export_tracks(req, count).len() ==> (#[trigger] spec_export_tracks(
                req,
                count,
            )[i]).0 < count || spec_export_tracks(req, count)[i].0 == 0,
        forall|i: int, j: int|
            0 <= i < j < spec_export_tracks(req, count).len() ==> (#[trigger] spec_export_tracks(
                req,
                count,
            )[i]).0 < (#[trigger] spec_export_tracks(req, count)[j]).0,
{
    lemma_kept_below(req, count as nat);
}

} // verus!

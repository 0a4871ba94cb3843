//! First-run bootstrap and OBS configuration planning: which encoder this
//! machine should record with, the output settings the app depends on,
//! obs-websocket credentials, OBS's first-run wizard flag, audio track
//! routing and package installs.

use vstd::prelude::*;

use crate::text::{
    chars_eq, chars_of, concat, contains, contains_chars, contains_string, copy_str, decimal,
    eq_ignore_ascii_case_chars, extend_chars, find_from, first_line_from, first_occurrence_from,
    hex_fixed, lemma_first_line_from, lemma_first_line_is, lemma_first_occurrence_is, lines,
    push_str, replace_chars, spec_contains, spec_decimal, spec_eq_ignore_ascii_case, spec_hex_fixed,
    spec_lines, spec_replace, spec_to_lowercase, spec_trim, str_eq, string_of, sub_chars, trim,
    trim_chars,
};
use crate::clips::Settings;
use crate::obs::{setting, ObsValue, ObsValueView};

verus! {

// ---------------------------------------------------------------- regex

/// What `regex::Regex::new(pattern)` then `captures(text)` yield for
/// capture group `group`: `None` when the pattern is invalid, does not
/// match, or the group did not take part.
pub uninterp spec fn spec_regex_capture(pattern: Seq<char>, text: Seq<char>, group: int) -> Option<
    Seq<char>,
>;

/// Capture group `group` of the first match of `pattern` in `text`, named
/// by `spec_regex_capture`.
#[verifier::external_body]
pub(crate) fn regex_capture(pattern: &str, text: &str, group: usize) -> (r: Option<String>)
    ensures
        r.deep_view() == spec_regex_capture(pattern@, text@, group as int),
{
    let re = regex::Regex::new(pattern).ok()?;
    let caps = re.captures(text)?;
    caps.get(group).map(|m| m.as_str().to_string())
}

// ---------------------------------------------------------------- encoders

/// An encoder line of OBS's "Available Encoders" log list, e.g.
/// "13:27:06.774: \t- av1_texture_amf (AMD HW AV1)": group 1 is the id.
pub const ENCODER_LINE: &'static str = r"^(?:[\d:.]+:)?\s*-\s+([a-z0-9_]+)\s+\(";

/// Video codecs only; QuickSync H.264 ("obs_qsv11_v2") names no codec.
pub open spec fn is_video_encoder_id(id: Seq<char>) -> bool {
    spec_contains(id, "264"@) || spec_contains(id, "265"@) || spec_contains(id, "hevc"@)
        || spec_contains(id, "av1"@) || spec_contains(id, "qsv"@)
}

/// `Vec::dedup`: runs of equal neighbours collapsed to one.
pub open spec fn spec_dedup(s: Seq<Seq<char>>) -> Seq<Seq<char>>
    decreases s.len(),
{
    if s.len() == 0 {
        s
    } else {
        let rest = spec_dedup(s.drop_last());
        if rest.len() > 0 && rest.last() == s.last() {
            rest
        } else {
            rest.push(s.last())
        }
    }
}

/// The video-encoder ids of the log's encoder lines, in log order,
/// neighbouring repeats collapsed.
pub open spec fn spec_encoder_ids_raw(ls: Seq<Seq<char>>) -> Seq<Seq<char>>
    decreases ls.len(),
{
    if ls.len() == 0 {
        Seq::empty()
    } else {
        let rest = spec_encoder_ids_raw(ls.drop_last());
        match spec_regex_capture(ENCODER_LINE@, ls.last(), 1) {
            Some(id) => if is_video_encoder_id(id) {
                rest.push(id)
            } else {
                rest
            },
            None => rest,
        }
    }
}

pub open spec fn spec_encoder_ids(log: Seq<char>) -> Seq<Seq<char>> {
    spec_dedup(spec_encoder_ids_raw(spec_lines(log)))
}

fn is_video_encoder(id: &str) -> (r: bool)
    ensures
        r == is_video_encoder_id(id@),
{
    contains(id, "264") || contains(id, "265") || contains(id, "hevc") || contains(id, "av1")
        || contains(id, "qsv")
}

/// Video-encoder ids from an OBS log's "Available Encoders" list.
pub fn parse_encoder_ids(raw: &str) -> (r: Vec<String>)
    ensures
        r.deep_view() == spec_encoder_ids(raw@),
{
    let cs = chars_of(raw);
    let ls = lines(&cs);
    let ghost lsv = ls@.map_values(|v: Vec<char>| v@);
    let mut ids: Vec<String> = Vec::new();
    let mut i: usize = 0;
    while i < ls.len()
        invariant
            i <= ls.len(),
            lsv == ls@.map_values(|v: Vec<char>| v@),
            ids.deep_view() == spec_dedup(spec_encoder_ids_raw(lsv.take(i as int))),
        decreases ls.len() - i,
    {
        let line = string_of(&ls[i]);
        proof {
            assert(lsv.take(i as int + 1).drop_last() =~= lsv.take(i as int));
            assert(lsv.take(i as int + 1).last() == line@);
        }
        match regex_capture(ENCODER_LINE, line.as_str(), 1) {
            Some(id) => {
                if is_video_encoder(id.as_str()) {
                    let ghost prev = ids.deep_view();
                    proof {
                        let x = spec_encoder_ids_raw(lsv.take(i as int));
                        assert(x.push(id@).drop_last() =~= x);
                        assert(x.push(id@).last() == id@);
                    }
                    let dup = ids.len() > 0 && str_eq(ids[ids.len() - 1].as_str(), id.as_str());
                    if !dup {
                        let ghost idv = id@;
                        ids.push(id);
                        proof {
                            assert(ids.deep_view() =~= prev.push(idv));
                        }
                    }
                }
            },
            None => {},
        }
        i = i + 1;
    }
    proof {
        assert(lsv.take(ls.len() as int) =~= lsv);
    }
    ids
}

/// `id` is an encoder for one of `codecs`. QuickSync's H.264 id
/// ("obs_qsv11_v2") has no codec in its name: a QuickSync id naming
/// neither HEVC nor AV1 counts as H.264.
pub open spec fn is_codec(id: Seq<char>, codecs: Seq<Seq<char>>) -> bool {
    (exists|i: int| 0 <= i < codecs.len() && spec_contains(id, #[trigger] codecs[i])) || (
    codecs.contains("264"@) && spec_contains(id, "qsv"@) && !spec_contains(id, "hevc"@)
        && !spec_contains(id, "av1"@))
}

/// The first available id from `vendor` that encodes one of `codecs`.
pub open spec fn first_from_vendor(
    available: Seq<Seq<char>>,
    vendor: Seq<char>,
    codecs: Seq<Seq<char>>,
) -> Option<Seq<char>>
    decreases available.len(),
{
    if available.len() == 0 {
        None
    } else if spec_contains(available[0], vendor) && is_codec(available[0], codecs) {
        Some(available[0])
    } else {
        first_from_vendor(available.drop_first(), vendor, codecs)
    }
}

/// The best hardware encoder for `codecs`: discrete GPUs first (NVENC,
/// then AMF), then QuickSync.
pub open spec fn spec_find_encoder(available: Seq<Seq<char>>, codecs: Seq<Seq<char>>) -> Option<
    Seq<char>,
> {
    match first_from_vendor(available, "nvenc"@, codecs) {
        Some(id) => Some(id),
        None => match first_from_vendor(available, "amf"@, codecs) {
            Some(id) => Some(id),
            None => first_from_vendor(available, "qsv"@, codecs),
        },
    }
}

pub open spec fn av1_codecs() -> Seq<Seq<char>> {
    seq!["av1"@]
}

pub open spec fn hevc_codecs() -> Seq<Seq<char>> {
    seq!["hevc"@, "265"@]
}

pub open spec fn h264_codecs() -> Seq<Seq<char>> {
    seq!["264"@, "avc"@]
}

/// The encoder for a codec preference: "av1", "hevc", "h264" (falling
/// back to CPU x264), anything else = auto, the most efficient codec this
/// machine's hardware offers.
pub open spec fn spec_pick_encoder(pref: Seq<char>, available: Seq<Seq<char>>) -> Option<Seq<char>> {
    if pref == "av1"@ {
        spec_find_encoder(available, av1_codecs())
    } else if pref == "hevc"@ {
        spec_find_encoder(available, hevc_codecs())
    } else if pref == "h264"@ {
        match spec_find_encoder(available, h264_codecs()) {
            Some(id) => Some(id),
            None => Some("obs_x264"@),
        }
    } else {
        match spec_find_encoder(available, av1_codecs()) {
            Some(id) => Some(id),
            None => match spec_find_encoder(available, hevc_codecs()) {
                Some(id) => Some(id),
                None => spec_find_encoder(available, h264_codecs()),
            },
        }
    }
}

fn codec_list(which: u8) -> (r: Vec<Vec<char>>)
    requires
        which < 3,
    ensures
        r@.map_values(|v: Vec<char>| v@) == (if which == 0 {
            av1_codecs()
        } else if which == 1 {
            hevc_codecs()
        } else {
            h264_codecs()
        }),
{
    let mut v: Vec<Vec<char>> = Vec::new();
    if which == 0 {
        v.push(chars_of("av1"));
        proof {
            assert(v@.map_values(|v: Vec<char>| v@) =~= av1_codecs());
        }
    } else if which == 1 {
        v.push(chars_of("hevc"));
        v.push(chars_of("265"));
        proof {
            assert(v@.map_values(|v: Vec<char>| v@) =~= hevc_codecs());
        }
    } else {
        v.push(chars_of("264"));
        v.push(chars_of("avc"));
        proof {
            assert(v@.map_values(|v: Vec<char>| v@) =~= h264_codecs());
        }
    }
    v
}

fn encodes(id: &Vec<char>, codecs: &Vec<Vec<char>>) -> (r: bool)
    ensures
        r == is_codec(id@, codecs@.map_values(|v: Vec<char>| v@)),
{
    let ghost cv = codecs@.map_values(|v: Vec<char>| v@);
    let mut has_264 = false;
    let mut i: usize = 0;
    while i < codecs.len()
        invariant
            i <= codecs.len(),
            cv == codecs@.map_values(|v: Vec<char>| v@),
            forall|k: int| 0 <= k < i ==> !spec_contains(id@, #[trigger] cv[k]),
            has_264 == (exists|k: int| 0 <= k < i && cv[k] == "264"@),
        decreases codecs.len() - i,
    {
        if contains_chars(id, &codecs[i]) {
            proof {
                assert(spec_contains(id@, cv[i as int]));
            }
            return true;
        }
        let is264 = str_eq(string_of(&codecs[i]).as_str(), "264");
        proof {
            if has_264 {
                let k = choose|k: int| 0 <= k < i && cv[k] == "264"@;
                assert(0 <= k < i + 1 && cv[k] == "264"@);
            }
            if is264 {
                assert(cv[i as int] == "264"@);
            }
            if !has_264 && !is264 {
                assert forall|k: int| 0 <= k < i + 1 implies cv[k] != "264"@ by {
                }
            }
        }
        has_264 = has_264 || is264;
        i = i + 1;
    }
    proof {
        if cv.contains("264"@) {
            let k = choose|k: int| 0 <= k < cv.len() && cv[k] == "264"@;
            assert(0 <= k < i && cv[k] == "264"@);
        }
        if has_264 {
            let k = choose|k: int| 0 <= k < i && cv[k] == "264"@;
            assert(cv.contains("264"@));
        }
    }
    let q = chars_of("qsv");
    let h = chars_of("hevc");
    let a = chars_of("av1");
    has_264 && contains_chars(id, &q) && !contains_chars(id, &h) && !contains_chars(id, &a)
}

fn first_from(available: &Vec<String>, vendor: &str, codecs: &Vec<Vec<char>>) -> (r: Option<
    String,
>)
    ensures
        r.deep_view() == first_from_vendor(
            available.deep_view(),
            vendor@,
            codecs@.map_values(|v: Vec<char>| v@),
        ),
{
    let ghost cv = codecs@.map_values(|v: Vec<char>| v@);
    let ghost av = available.deep_view();
    let mut i: usize = 0;
    proof {
        assert(av.skip(0) =~= av);
    }
    while i < available.len()
        invariant
            i <= available.len(),
            av == available.deep_view(),
            cv == codecs@.map_values(|v: Vec<char>| v@),
            first_from_vendor(av, vendor@, cv) == first_from_vendor(av.skip(i as int), vendor@, cv),
        decreases available.len() - i,
    {
        proof {
            assert(av.skip(i as int)[0] == av[i as int]);
            assert(av.skip(i as int).drop_first() =~= av.skip(i + 1));
        }
        let id = chars_of(available[i].as_str());
        if contains(available[i].as_str(), vendor) && encodes(&id, codecs) {
            return Some(available[i].clone());
        }
        i = i + 1;
    }
    None
}

fn find_encoder(available: &Vec<String>, codecs: &Vec<Vec<char>>) -> (r: Option<String>)
    ensures
        r.deep_view() == spec_find_encoder(
            available.deep_view(),
            codecs@.map_values(|v: Vec<char>| v@),
        ),
{
    match first_from(available, "nvenc", codecs) {
        Some(id) => Some(id),
        None => match first_from(available, "amf", codecs) {
            Some(id) => Some(id),
            None => first_from(available, "qsv", codecs),
        },
    }
}

/// Map a codec preference to this machine's best hardware encoder id.
/// Vendor order matters on machines with an Intel iGPU next to a discrete
/// card: the dGPU's encoder (NVENC, then AMF) beats QuickSync.
pub fn pick_encoder(pref: &str, available: &Vec<String>) -> (r: Option<String>)
    ensures
        r.deep_view() == spec_pick_encoder(pref@, available.deep_view()),
{
    let av1 = codec_list(0);
    let hevc = codec_list(1);
    let h264 = codec_list(2);
    if str_eq(pref, "av1") {
        find_encoder(available, &av1)
    } else if str_eq(pref, "hevc") {
        find_encoder(available, &hevc)
    } else if str_eq(pref, "h264") {
        match find_encoder(available, &h264) {
            Some(id) => Some(id),
            None => Some(copy_str("obs_x264")),
        }
    } else {
        match find_encoder(available, &av1) {
            Some(id) => Some(id),
            None => match find_encoder(available, &hevc) {
                Some(id) => Some(id),
                None => find_encoder(available, &h264),
            },
        }
    }
}

// ---------------------------------------------------------------- OBS first-run wizard

/// A line that opens an ini section.
pub open spec fn is_section_header(l: Seq<char>) -> bool {
    spec_trim(l).len() > 0 && spec_trim(l)[0] == '['
}

/// A line that opens the `[General]` section (any ASCII case).
pub open spec fn is_general_header(l: Seq<char>) -> bool {
    is_section_header(l) && spec_eq_ignore_ascii_case(spec_trim(l), "[General]"@)
}

/// The lines, each followed by `\n`.
pub open spec fn joined(ls: Seq<Seq<char>>) -> Seq<char>
    decreases ls.len(),
{
    if ls.len() == 0 {
        Seq::empty()
    } else {
        joined(ls.drop_last()) + ls.last() + seq!['\n']
    }
}

pub open spec fn first_run_line(l: Seq<char>) -> bool {
    spec_trim(l) == "FirstRun=true"@
}

/// The new `global.ini` text that makes OBS skip its Auto-Configuration
/// Wizard, or `None` when a `FirstRun=true` line is already there. The
/// flag goes at the end of the first `[General]` section (a new
/// `[General]` section is appended when there is none); lines are
/// rewritten with `\n` endings.
pub open spec fn spec_autoconfig_ini(ini: Seq<char>) -> Option<Seq<char>> {
    let ls = spec_lines(ini);
    if exists|i: int| 0 <= i < ls.len() && first_run_line(#[trigger] ls[i]) {
        None
    } else {
        let g = first_line_from(ls, 0, |l: Seq<char>| is_general_header(l));
        if g < ls.len() {
            let e = first_line_from(ls, g + 1, |l: Seq<char>| is_section_header(l));
            Some(joined(ls.take(e)) + "FirstRun=true\n"@ + joined(ls.skip(e)))
        } else {
            Some(joined(ls) + "[General]\nFirstRun=true\n"@)
        }
    }
}

proof fn lemma_joined_step(ls: Seq<Seq<char>>, a: int, i: int)
    requires
        0 <= a <= i < ls.len(),
    ensures
        joined(ls.subrange(a, i + 1)) == joined(ls.subrange(a, i)) + ls[i] + seq!['\n'],
{
    assert(ls.subrange(a, i + 1).drop_last() =~= ls.subrange(a, i));
    assert(ls.subrange(a, i + 1).last() == ls[i]);
}

fn header_kind(l: &Vec<char>) -> (r: (bool, bool))
    ensures
        r.0 == is_section_header(l@),
        r.1 == is_general_header(l@),
{
    let t = trim_chars(l);
    let header = t.len() > 0 && t[0] == '[';
    let general = chars_of("[General]");
    let is_general = header && eq_ignore_ascii_case_chars(&t, &general);
    (header, is_general)
}

/// `global.ini` rewritten so OBS skips its first-run wizard; `None` when
/// it already does.
pub fn autoconfig_ini(ini: &str) -> (r: Option<String>)
    ensures
        r.deep_view() == spec_autoconfig_ini(ini@),
{
    let cs = chars_of(ini);
    let ls = lines(&cs);
    let ghost lv = ls@.map_values(|v: Vec<char>| v@);
    let n = ls.len();
    let fr = chars_of("FirstRun=true");
    let mut k: usize = 0;
    while k < n
        invariant
            k <= n,
            n == ls.len(),
            lv == ls@.map_values(|v: Vec<char>| v@),
            lv == spec_lines(ini@),
            fr@ == "FirstRun=true"@,
            forall|j: int| 0 <= j < k ==> !first_run_line(#[trigger] lv[j]),
        decreases n - k,
    {
        let t = trim_chars(&ls[k]);
        if chars_eq(&t, &fr) {
            proof {
                assert(first_run_line(lv[k as int]));
            }
            return None;
        }
        k = k + 1;
    }
    let ghost g = first_line_from(lv, 0, |l: Seq<char>| is_general_header(l));
    let ghost e = if g < n {
        first_line_from(lv, g + 1, |l: Seq<char>| is_section_header(l))
    } else {
        n as int
    };
    proof {
        lemma_first_line_from(lv, 0, |l: Seq<char>| is_general_header(l));
        if g < n {
            lemma_first_line_from(lv, g + 1, |l: Seq<char>| is_section_header(l));
        }
        assert(lv.take(0) =~= Seq::<Seq<char>>::empty());
        assert(joined(Seq::<Seq<char>>::empty()) == Seq::<char>::empty());
    }
    let mut out: Vec<char> = Vec::new();
    proof {
        assert(out@ =~= joined(lv.take(0)));
    }
    let mut in_general = false;
    let mut wrote = false;
    let mut i: usize = 0;
    while i < n
        invariant
            i <= n,
            n == ls.len(),
            lv == ls@.map_values(|v: Vec<char>| v@),
            0 <= g <= n,
            g <= e <= n,
            g < n ==> g < e,
            g < n ==> is_general_header(lv[g]),
            forall|j: int| 0 <= j < g ==> !is_general_header(#[trigger] lv[j]),
            e < n ==> is_section_header(lv[e]),
            forall|j: int| g < j < e ==> !is_section_header(#[trigger] lv[j]),
            i <= g ==> !in_general && !wrote && out@ == joined(lv.take(i as int)),
            g < i <= e ==> in_general && !wrote && out@ == joined(lv.take(i as int)),
            e < i ==> wrote && out@ == joined(lv.take(e)) + "FirstRun=true\n"@ + joined(
                lv.subrange(e, i as int),
            ),
        decreases n - i,
    {
        let (header, general) = header_kind(&ls[i]);
        let ghost before = out@;
        if header {
            if in_general && !wrote {
                push_str(&mut out, "FirstRun=true\n");
                wrote = true;
            }
            in_general = general;
        }
        extend_chars(&mut out, &ls[i]);
        out.push('\n');
        proof {
            let ii = i as int;
            assert(lv[ii] == ls@[ii]@);
            assert(lv.take(ii + 1) =~= lv.subrange(0, ii + 1));
            assert(lv.take(ii) =~= lv.subrange(0, ii));
            lemma_joined_step(lv, 0, ii);
            if ii < g {
                assert(!is_general_header(lv[ii]));
            } else if ii == g {
            } else if ii < e {
                assert(!is_section_header(lv[ii]));
            } else if ii == e {
                assert(lv.subrange(e, e + 1).drop_last() =~= Seq::<Seq<char>>::empty());
                assert(lv.subrange(e, e + 1).last() == lv[e]);
                assert(joined(Seq::<Seq<char>>::empty()) == Seq::<char>::empty());
                assert(joined(lv.subrange(e, e + 1)) =~= lv[e] + seq!['\n']);
                assert(lv.take(e) =~= lv.take(ii));
                assert(out@ =~= joined(lv.take(e)) + "FirstRun=true\n"@ + joined(lv.subrange(e, ii + 1)));
            } else {
                lemma_joined_step(lv, e, ii);
                assert(out@ =~= joined(lv.take(e)) + "FirstRun=true\n"@ + joined(lv.subrange(e, ii + 1)));
            }
        }
        i = i + 1;
    }
    if in_general && !wrote {
        push_str(&mut out, "FirstRun=true\n");
        wrote = true;
    }
    if !wrote {
        push_str(&mut out, "[General]\nFirstRun=true\n");
    }
    proof {
        assert(lv.take(n as int) =~= lv);
        assert(forall|j: int| 0 <= j < lv.len() ==> !first_run_line(#[trigger] lv[j]));
        if g < n {
            if e == n {
                assert(lv.skip(e) =~= Seq::<Seq<char>>::empty());
                assert(lv.take(e) =~= lv);
            } else {
                assert(lv.subrange(e, n as int) =~= lv.skip(e));
            }
        }
    }
    Some(string_of(&out))
}

// ---------------------------------------------------------------- obs-websocket config

/// obs-websocket's `config.json`.
#[derive(Clone, Debug)]
pub struct WsConfig {
    pub alerts_enabled: bool,
    pub auth_required: bool,
    pub first_load: bool,
    pub server_enabled: bool,
    pub server_password: String,
    pub server_port: u16,
}

/// The port obs-websocket listens on by default.
pub fn default_port() -> (r: u16)
    ensures
        r == 4455,
{
    4455
}

/// obs-websocket requires authentication unless told otherwise.
pub fn yes() -> (r: bool)
    ensures
        r,
{
    true
}

/// The config a fresh OBS install starts from.
pub fn fresh_ws_config() -> (r: WsConfig)
    ensures
        r@ == fresh_ws_view(),
{
    WsConfig {
        alerts_enabled: false,
        auth_required: yes(),
        first_load: false,
        server_enabled: false,
        server_password: String::new(),
        server_port: default_port(),
    }
}

/// Whether OBS's websocket server is switched on, per its config file
/// (`None` when the file is missing or unreadable).
pub fn websocket_server_enabled(cfg: &Option<WsConfig>) -> (r: bool)
    ensures
        r == (cfg is Some && cfg->0.server_enabled),
{
    match cfg {
        Some(c) => c.server_enabled,
        None => false,
    }
}

/// The local obs-websocket password and port, if a password is set.
pub fn read_websocket_password(cfg: Option<WsConfig>) -> (r: Option<(String, u16)>)
    ensures
        match cfg {
            Some(c) => if c.server_password@.len() > 0 {
                r matches Some((pw, port)) && pw@ == c.server_password@ && port == c.server_port
            } else {
                r is None
            },
            None => r is None,
        },
{
    match cfg {
        Some(c) => {
            if c.server_password.as_str().unicode_len() == 0 {
                None
            } else {
                Some((c.server_password, c.server_port))
            }
        },
        None => None,
    }
}

/// obs-websocket's config as plain values.
pub struct WsView {
    pub alerts_enabled: bool,
    pub auth_required: bool,
    pub first_load: bool,
    pub server_enabled: bool,
    pub server_password: Seq<char>,
    pub server_port: u16,
}

impl View for WsConfig {
    type V = WsView;

    open spec fn view(&self) -> WsView {
        WsView {
            alerts_enabled: self.alerts_enabled,
            auth_required: self.auth_required,
            first_load: self.first_load,
            server_enabled: self.server_enabled,
            server_password: self.server_password@,
            server_port: self.server_port,
        }
    }
}

pub open spec fn ws_view(cfg: Option<WsConfig>) -> Option<WsView> {
    match cfg {
        Some(c) => Some(c@),
        None => None,
    }
}

/// The config a fresh OBS install starts from.
pub open spec fn fresh_ws_view() -> WsView {
    WsView {
        alerts_enabled: false,
        auth_required: true,
        first_load: false,
        server_enabled: false,
        server_password: Seq::empty(),
        server_port: 4455,
    }
}

/// The server switched on, with `new_password` when none is set; the rest
/// kept. Also whether that changed the config (so it must be written).
pub open spec fn spec_enable_ws(cfg: Option<WsView>, new_password: Seq<char>) -> (WsView, bool) {
    let base = match cfg {
        Some(c) => c,
        None => fresh_ws_view(),
    };
    let pw_missing = base.server_password.len() == 0;
    (
        WsView {
            server_enabled: true,
            server_password: if pw_missing {
                new_password
            } else {
                base.server_password
            },
            ..base
        },
        !base.server_enabled || pw_missing,
    )
}

/// Switch the websocket server on and mint a password if none is set,
/// starting from the existing config (or a fresh one when there is none
/// or it does not parse). Returns the config and whether it changed (and
/// so must be written).
pub fn enable_websocket_config(cfg: Option<WsConfig>, new_password: String) -> (r: (WsConfig, bool))
    ensures
        (r.0@, r.1) == spec_enable_ws(ws_view(cfg), new_password@),
{
    let mut c = match cfg {
        Some(c) => c,
        None => fresh_ws_config(),
    };
    let mut changed = false;
    if !c.server_enabled {
        c.server_enabled = true;
        changed = true;
    }
    if c.server_password.as_str().unicode_len() == 0 {
        c.server_password = new_password;
        changed = true;
    }
    proof {
        assert(c@.server_password =~= spec_enable_ws(ws_view(cfg), new_password@).0.server_password);
    }
    (c, changed)
}

/// Enabling is idempotent: once the server is on with a password, a
/// second pass changes nothing (and keeps that password).
pub proof fn lemma_enable_ws_idempotent(cfg: Option<WsView>, first: Seq<char>, second: Seq<char>)
    requires
        first.len() > 0,
    ensures
        spec_enable_ws(Some(spec_enable_ws(cfg, first).0), second) == (
            spec_enable_ws(cfg, first).0,
            false,
        ),
{
}

/// After enabling, the server is on with a non-empty password whenever
/// the minted one is non-empty, and the port and other settings are kept.
pub proof fn lemma_enable_ws_result(cfg: Option<WsView>, new_password: Seq<char>)
    requires
        new_password.len() > 0,
    ensures
        spec_enable_ws(cfg, new_password).0.server_enabled,
        spec_enable_ws(cfg, new_password).0.server_password.len() > 0,
        cfg is Some ==> spec_enable_ws(cfg, new_password).0.server_port == cfg->0.server_port,
{
}

/// A fresh 64-bit random word (std's `RandomState`, keyed from the OS
/// random source). Nothing is promised of its value.
#[verifier::external_body]
fn random_word() -> (r: u64) {
    let h = std::hash::BuildHasher::build_hasher(&std::collections::hash_map::RandomState::new());
    std::hash::Hasher::finish(&h)
}

/// The password text for two random words: "cf" and 32 hex digits.
pub open spec fn spec_password_text(a: u64, b: u64) -> Seq<char> {
    "cf"@ + spec_hex_fixed(a as nat, 16) + spec_hex_fixed(b as nat, 16)
}

proof fn lemma_hex_len(n: nat, width: nat)
    ensures
        spec_hex_fixed(n, width).len() == width,
    decreases width,
{
    if width > 0 {
        lemma_hex_len(n / 16, (width - 1) as nat);
    }
}

/// A minted password is always 34 characters ("cf" and 32 hex digits), so
/// enabling the server never leaves it without a password.
pub proof fn lemma_password_text_len(a: u64, b: u64)
    ensures
        spec_password_text(a, b).len() == 34,
{
    lemma_hex_len(a as nat, 16);
    lemma_hex_len(b as nat, 16);
    reveal_strlit("cf");
}

pub fn password_text(a: u64, b: u64) -> (r: String)
    ensures
        r@ == spec_password_text(a, b),
{
    let mut out = chars_of("cf");
    let ha = hex_fixed(a, 16);
    let hb = hex_fixed(b, 16);
    extend_chars(&mut out, &ha);
    extend_chars(&mut out, &hb);
    string_of(&out)
}

/// 128-bit random password for obs-websocket (OBS listens on every
/// network interface, so it must not be guessable).
pub fn random_password() -> (r: String)
    ensures
        exists|a: u64, b: u64| r@ == #[trigger] spec_password_text(a, b),
{
    let a = random_word();
    let b = random_word();
    password_text(a, b)
}

// ---------------------------------------------------------------- registry

/// The value `reg query` printed: the first line that names `REG_SZ`, the
/// text after it, trimmed; `None` when there is no such line or its value
/// is empty.
pub open spec fn spec_reg_value(out: Seq<char>) -> Option<Seq<char>> {
    let ls = spec_lines(out);
    let i = first_line_from(ls, 0, |l: Seq<char>| spec_contains(l, "REG_SZ"@));
    if i < ls.len() {
        match first_occurrence_from(ls[i], "REG_SZ"@, 0) {
            Some(at) => {
                let v = spec_trim(ls[i].skip(at + 6));
                if v.len() > 0 {
                    Some(v)
                } else {
                    None
                }
            },
            None => None,
        }
    } else {
        None
    }
}

/// Parse a registry string value out of `reg query`'s output.
pub fn reg_value(output: &str) -> (r: Option<String>)
    ensures
        r.deep_view() == spec_reg_value(output@),
{
    let cs = chars_of(output);
    let ls = lines(&cs);
    let ghost lv = ls@.map_values(|v: Vec<char>| v@);
    let ghost pred = |l: Seq<char>| spec_contains(l, "REG_SZ"@);
    let pat = chars_of("REG_SZ");
    proof {
        reveal_strlit("REG_SZ");
    }
    let mut i: usize = 0;
    while i < ls.len()
        invariant
            i <= ls.len(),
            lv == ls@.map_values(|v: Vec<char>| v@),
            lv == spec_lines(output@),
            pat@ == "REG_SZ"@,
            pat@.len() == 6,
            pred == (|l: Seq<char>| spec_contains(l, "REG_SZ"@)),
            forall|j: int| 0 <= j < i ==> !pred(#[trigger] lv[j]),
        decreases ls.len() - i,
    {
        let line = &ls[i];
        proof {
            assert(lv[i as int] == line@);
        }
        match find_from(line, &pat, 0) {
            Some(at) => {
                proof {
                    assert(pred(lv[i as int]));
                    lemma_first_line_is(lv, 0, pred, i as int);
                    lemma_first_occurrence_is(line@, pat@, 0, at as int);
                }
                let n = line.len();
                let rest = sub_chars(line, at + 6, n);
                let v = trim_chars(&rest);
                proof {
                    assert(rest@ =~= line@.skip(at + 6));
                }
                if v.len() > 0 {
                    return Some(string_of(&v));
                } else {
                    return None;
                }
            },
            None => {
                proof {
                    assert(!spec_contains(line@, pat@));
                }
            },
        }
        i = i + 1;
    }
    proof {
        lemma_first_line_from(lv, 0, pred);
    }
    proof {
        lemma_first_line_from(lv, 0, pred);
    }
    None
}

/// Where OBS's own installer puts obs64.exe, given the `ProgramFiles`
/// environment variable (well-known paths, checked without any process
/// spawn).
pub fn fixed_obs_paths(program_files: &str) -> (r: Vec<String>)
    ensures
        r.deep_view() == seq![
            "C:/Program Files/obs-studio/bin/64bit/obs64.exe"@,
            "C:/Program Files (x86)/obs-studio/bin/64bit/obs64.exe"@,
            forward_slashes(program_files@) + "/obs-studio/bin/64bit/obs64.exe"@,
        ],
{
    let mut v: Vec<String> = Vec::new();
    v.push(copy_str("C:/Program Files/obs-studio/bin/64bit/obs64.exe"));
    v.push(copy_str("C:/Program Files (x86)/obs-studio/bin/64bit/obs64.exe"));
    let pf = to_forward_slashes(program_files);
    v.push(concat(pf.as_str(), "/obs-studio/bin/64bit/obs64.exe"));
    proof {
        assert(v.deep_view() =~= seq![
            "C:/Program Files/obs-studio/bin/64bit/obs64.exe"@,
            "C:/Program Files (x86)/obs-studio/bin/64bit/obs64.exe"@,
            forward_slashes(program_files@) + "/obs-studio/bin/64bit/obs64.exe"@,
        ]);
    }
    v
}

/// `s` with every backslash turned into a forward slash.
pub open spec fn forward_slashes(s: Seq<char>) -> Seq<char> {
    spec_replace(s, seq!['\\'], seq!['/'])
}

/// `s` with every forward slash turned into a backslash.
pub open spec fn back_slashes(s: Seq<char>) -> Seq<char> {
    spec_replace(s, seq!['/'], seq!['\\'])
}

pub fn to_forward_slashes(s: &str) -> (r: String)
    ensures
        r@ == forward_slashes(s@),
{
    let cs = chars_of(s);
    let from = chars_of("\\");
    let to = chars_of("/");
    proof {
        assert(from@ =~= seq!['\\']) by {
            reveal_strlit("\\");
        }
        assert(to@ =~= seq!['/']) by {
            reveal_strlit("/");
        }
    }
    let out = replace_chars(&cs, &from, &to);
    string_of(&out)
}

pub fn to_back_slashes(s: &str) -> (r: String)
    ensures
        r@ == back_slashes(s@),
{
    let cs = chars_of(s);
    let from = chars_of("/");
    let to = chars_of("\\");
    proof {
        assert(from@ =~= seq!['/']) by {
            reveal_strlit("/");
        }
        assert(to@ =~= seq!['\\']) by {
            reveal_strlit("\\");
        }
    }
    let out = replace_chars(&cs, &from, &to);
    string_of(&out)
}

/// The obs64.exe locations OBS's registry entries and Steam point at: each
/// OBS install dir, then Steam's default library.
pub fn registry_obs_paths(install_dirs: &Vec<String>, steam_path: Option<String>) -> (r: Vec<String>)
    ensures
        r.deep_view() == install_dirs.deep_view().map_values(
            |d: Seq<char>| forward_slashes(d) + "/bin/64bit/obs64.exe"@,
        ) + match steam_path {
            Some(s) => seq![forward_slashes(s@) + "/steamapps/common/OBS Studio/bin/64bit/obs64.exe"@],
            None => Seq::empty(),
        },
{
    let mut v: Vec<String> = Vec::new();
    let mut i: usize = 0;
    while i < install_dirs.len()
        invariant
            i <= install_dirs.len(),
            v.deep_view() == install_dirs.deep_view().take(i as int).map_values(
                |d: Seq<char>| forward_slashes(d) + "/bin/64bit/obs64.exe"@,
            ),
        decreases install_dirs.len() - i,
    {
        let d = to_forward_slashes(install_dirs[i].as_str());
        let ghost prev = v.deep_view();
        v.push(concat(d.as_str(), "/bin/64bit/obs64.exe"));
        proof {
            let f = |d: Seq<char>| forward_slashes(d) + "/bin/64bit/obs64.exe"@;
            let dv = install_dirs.deep_view();
            assert(dv[i as int] == install_dirs@[i as int]@);
            assert(v.deep_view() =~= prev.push(f(dv[i as int])));
            assert(dv.take(i as int + 1) =~= dv.take(i as int).push(dv[i as int]));
            assert(dv.take(i as int + 1).map_values(f) =~= dv.take(i as int).map_values(f).push(
                f(dv[i as int]),
            ));
        }
        i = i + 1;
    }
    proof {
        assert(install_dirs.deep_view().take(i as int) =~= install_dirs.deep_view());
    }
    let ghost before = v.deep_view();
    match steam_path {
        Some(s) => {
            let f = to_forward_slashes(s.as_str());
            v.push(concat(f.as_str(), "/steamapps/common/OBS Studio/bin/64bit/obs64.exe"));
            proof {
                assert(v.deep_view() =~= before + seq![
                    forward_slashes(s@) + "/steamapps/common/OBS Studio/bin/64bit/obs64.exe"@,
                ]);
            }
        },
        None => {
            proof {
                assert(v.deep_view() =~= before + Seq::<Seq<char>>::empty());
            }
        },
    }
    v
}

// ---------------------------------------------------------------- installs

/// The packages the app may install through winget.
pub open spec fn is_allowed_package(id: Seq<char>) -> bool {
    id == "Gyan.FFmpeg"@ || id == "OBSProject.OBSStudio"@
}

/// How an allowed package gets installed.
#[derive(Clone, Copy, Debug, PartialEq, Eq, Structural)]
pub enum InstallRoute {
    /// OBS: winget only downloads the installer, which then runs elevated.
    ObsInstaller,
    /// `winget install --silent`.
    Winget,
}

/// Only allow-listed packages are installed; OBS takes its own route.
pub fn install_route(id: &str) -> (r: Result<InstallRoute, String>)
    ensures
        !is_allowed_package(id@) ==> (r matches Err(e) && e@ == "unknown package"@),
        id@ == "OBSProject.OBSStudio"@ ==> r == Ok::<InstallRoute, String>(InstallRoute::ObsInstaller),
        id@ == "Gyan.FFmpeg"@ ==> r == Ok::<InstallRoute, String>(InstallRoute::Winget),
{
    proof {
        reveal_strlit("Gyan.FFmpeg");
        reveal_strlit("OBSProject.OBSStudio");
        assert("Gyan.FFmpeg"@.len() != "OBSProject.OBSStudio"@.len());
    }
    if str_eq(id, "OBSProject.OBSStudio") {
        Ok(InstallRoute::ObsInstaller)
    } else if str_eq(id, "Gyan.FFmpeg") {
        Ok(InstallRoute::Winget)
    } else {
        Err(copy_str("unknown package"))
    }
}

/// The outcome of `winget install`: success, or already installed (its
/// output says so in any case), else the output (stderr when stdout is
/// blank) as the error.
pub open spec fn spec_winget_outcome(success: bool, stdout: Seq<char>, stderr: Seq<char>) -> Result<
    (),
    Seq<char>,
> {
    if success || spec_contains(spec_to_lowercase(stdout), "already installed"@) {
        Ok(())
    } else {
        Err(
            "install failed: "@ + if spec_trim(stdout).len() == 0 {
                stderr
            } else {
                stdout
            },
        )
    }
}

pub fn winget_outcome(success: bool, stdout: &str, stderr: &str) -> (r: Result<(), String>)
    ensures
        match r {
            Ok(()) => spec_winget_outcome(success, stdout@, stderr@) == Ok::<(), Seq<char>>(()),
            Err(e) => spec_winget_outcome(success, stdout@, stderr@) == Err::<(), Seq<char>>(e@),
        },
{
    if success {
        return Ok(());
    }
    let lower = stdout.to_lowercase();
    if contains(lower.as_str(), "already installed") {
        return Ok(());
    }
    let t = trim(stdout);
    if t.as_str().unicode_len() == 0 {
        Err(concat("install failed: ", stderr))
    } else {
        Err(concat("install failed: ", stdout))
    }
}

/// OBS's installer exits with this when files it must replace are in use.
pub const OBS_FILES_IN_USE: u32 = 6;

/// A silent OBS install that hit in-use files is re-run with its UI, so
/// the user sees which apps to close.
pub fn obs_installer_needs_ui(code: u32) -> (r: bool)
    ensures
        r == (code == OBS_FILES_IN_USE),
{
    code == OBS_FILES_IN_USE
}

pub fn obs_install_outcome(code: u32) -> (r: Result<(), String>)
    ensures
        code == 0 ==> r is Ok,
        code == OBS_FILES_IN_USE ==> (r matches Err(e) && e@
            == "OBS files are in use by other apps (often browsers or Ollama). Close them and install again."@),
        code != 0 && code != OBS_FILES_IN_USE ==> (r matches Err(e) && e@ == "OBS installer failed (exit code "@
            + spec_decimal(code as nat) + ")"@),
{
    if code == 0 {
        Ok(())
    } else if code == OBS_FILES_IN_USE {
        Err(
            copy_str(
                "OBS files are in use by other apps (often browsers or Ollama). Close them and install again.",
            ),
        )
    } else {
        let d = decimal(code as u64);
        let a = concat("OBS installer failed (exit code ", d.as_str());
        Err(concat(a.as_str(), ")"))
    }
}

// ---------------------------------------------------------------- installer download

/// The installer winget downloaded: the first file whose extension is
/// `exe` in any ASCII case.
pub open spec fn is_exe_path(p: Seq<char>) -> bool {
    match crate::paths::spec_extension(p) {
        Some(e) => spec_eq_ignore_ascii_case(e, "exe"@),
        None => false,
    }
}

pub fn pick_installer(paths: &Vec<String>) -> (r: Option<String>)
    ensures
        match r {
            Some(p) => exists|i: int|
                0 <= i < paths.len() && paths@[i]@ == p@ && is_exe_path(p@) && forall|j: int|
                    0 <= j < i ==> !is_exe_path(#[trigger] paths@[j]@),
            None => forall|j: int| 0 <= j < paths.len() ==> !is_exe_path(#[trigger] paths@[j]@),
        },
{
    let mut i: usize = 0;
    while i < paths.len()
        invariant
            i <= paths.len(),
            forall|j: int| 0 <= j < i ==> !is_exe_path(#[trigger] paths@[j]@),
        decreases paths.len() - i,
    {
        let ok = match crate::paths::extension(paths[i].as_str()) {
            Some(e) => crate::text::eq_ignore_ascii_case(e.as_str(), "exe"),
            None => false,
        };
        if ok {
            let p = paths[i].clone();
            assert(paths@[i as int]@ == p@);
            return Some(p);
        }
        i = i + 1;
    }
    None
}

/// The error when winget downloaded no installer, with its output.
pub fn missing_installer_error(winget_stdout: &str) -> (r: String)
    ensures
        r@ == "couldn't download the OBS installer: "@ + spec_trim(winget_stdout@),
{
    let t = trim(winget_stdout);
    concat("couldn't download the OBS installer: ", t.as_str())
}

// ---------------------------------------------------------------- launching OBS

/// The flags OBS is started with: hidden to the tray, no crash-recovery
/// prompt.
pub fn obs_launch_args() -> (r: Vec<String>)
    ensures
        r.deep_view() == seq!["--minimize-to-tray"@, "--disable-shutdown-check"@],
{
    let mut v: Vec<String> = Vec::new();
    v.push(copy_str("--minimize-to-tray"));
    v.push(copy_str("--disable-shutdown-check"));
    proof {
        assert(v.deep_view() =~= seq!["--minimize-to-tray"@, "--disable-shutdown-check"@]);
    }
    v
}

/// The error when OBS's exe is missing.
pub fn obs_missing_error() -> (r: String)
    ensures
        r@ == "OBS isn't installed \u{2014} install it from the setup bar first"@,
{
    copy_str("OBS isn't installed \u{2014} install it from the setup bar first")
}

/// Windows' "the requested operation requires elevation".
pub const ERROR_ELEVATION_REQUIRED: i32 = 740;

/// After a failed spawn: an OBS set to run as administrator is retried
/// through the shell (which shows the UAC prompt); other failures are
/// reported.
pub fn launch_failure(os_error: Option<i32>, message: &str) -> (r: Result<(), String>)
    ensures
        os_error == Some(ERROR_ELEVATION_REQUIRED) ==> r is Ok,
        os_error != Some(ERROR_ELEVATION_REQUIRED) ==> (r matches Err(e) && e@
            == "couldn't launch OBS: "@ + message@),
{
    match os_error {
        Some(c) => {
            if c == ERROR_ELEVATION_REQUIRED {
                return Ok(());
            }
        },
        None => {},
    }
    Err(concat("couldn't launch OBS: ", message))
}

/// `ShellExecuteW` returns a value above 32 on success.
pub fn shell_launch_outcome(code: usize) -> (r: Result<(), String>)
    ensures
        code > 32 ==> r is Ok,
        code <= 32 ==> (r matches Err(e) && e@
            == "OBS needs administrator rights to launch. Start OBS manually, or turn off \"Run as administrator\" in OBS's shortcut/compatibility settings."@),
{
    if code > 32 {
        Ok(())
    } else {
        Err(
            copy_str(
                "OBS needs administrator rights to launch. Start OBS manually, or turn off \"Run as administrator\" in OBS's shortcut/compatibility settings.",
            ),
        )
    }
}

// ---------------------------------------------------------------- profile parameters

/// Whether a profile parameter has to be written: OBS does not hold
/// `want` for it (or could not say).
pub fn param_needs_set(current: &Option<String>, want: &str) -> (r: bool)
    ensures
        r == (current.deep_view() != Some(want@)),
{
    match current {
        Some(c) => !str_eq(c.as_str(), want),
        None => true,
    }
}

fn param(category: &str, name: &str, value: &str) -> (r: (String, String, String))
    ensures
        r.0@ == category@,
        r.1@ == name@,
        r.2@ == value@,
{
    (copy_str(category), copy_str(name), copy_str(value))
}

/// The output layout the app depends on: Advanced mode (Simple mode cannot
/// record separate audio tracks), standard recording into the clips folder
/// (with Windows separators), tracks 1-5 recorded (mix, game, voice,
/// desktop, mic = bitmask 31) and fragmented mp4 (plays in the editor,
/// holds many tracks, survives a crash).
pub open spec fn spec_output_params(clips_dir: Seq<char>) -> Seq<(Seq<char>, Seq<char>, Seq<char>)> {
    let path = back_slashes(clips_dir);
    seq![
        ("Output"@, "Mode"@, "Advanced"@),
        ("AdvOut"@, "RecType"@, "Standard"@),
        ("AdvOut"@, "RecFilePath"@, path),
        ("SimpleOutput"@, "FilePath"@, path),
        ("AdvOut"@, "RecTracks"@, "31"@),
        ("AdvOut"@, "RecFormat2"@, "hybrid_mp4"@),
        ("SimpleOutput"@, "RecFormat2"@, "hybrid_mp4"@),
    ]
}

pub fn output_config_params(clips_dir: &str) -> (r: Vec<(String, String, String)>)
    ensures
        r.deep_view() == spec_output_params(clips_dir@),
{
    let path = to_back_slashes(clips_dir);
    let mut v: Vec<(String, String, String)> = Vec::new();
    v.push(param("Output", "Mode", "Advanced"));
    v.push(param("AdvOut", "RecType", "Standard"));
    v.push(param("AdvOut", "RecFilePath", path.as_str()));
    v.push(param("SimpleOutput", "FilePath", path.as_str()));
    v.push(param("AdvOut", "RecTracks", "31"));
    v.push(param("AdvOut", "RecFormat2", "hybrid_mp4"));
    v.push(param("SimpleOutput", "RecFormat2", "hybrid_mp4"));
    proof {
        assert(v.deep_view() =~= spec_output_params(clips_dir@));
    }
    v
}

/// The replay buffer switched on in both output modes.
pub fn replay_buffer_switches() -> (r: Vec<(String, String, String)>)
    ensures
        r.deep_view() == seq![("AdvOut"@, "RecRB"@, "true"@), ("SimpleOutput"@, "RecRB"@, "true"@)],
{
    let mut v: Vec<(String, String, String)> = Vec::new();
    v.push(param("AdvOut", "RecRB", "true"));
    v.push(param("SimpleOutput", "RecRB", "true"));
    proof {
        assert(v.deep_view() =~= seq![
            ("AdvOut"@, "RecRB"@, "true"@),
            ("SimpleOutput"@, "RecRB"@, "true"@),
        ]);
    }
    v
}

/// The buffer's length (whole seconds) and RAM cap (MB), for both output
/// modes.
pub fn replay_length_params(secs: u64, size_mb: u64) -> (r: Vec<(String, String, String)>)
    ensures
        r.deep_view() == seq![
            ("AdvOut"@, "RecRBTime"@, spec_decimal(secs as nat)),
            ("SimpleOutput"@, "RecRBTime"@, spec_decimal(secs as nat)),
            ("AdvOut"@, "RecRBSize"@, spec_decimal(size_mb as nat)),
            ("SimpleOutput"@, "RecRBSize"@, spec_decimal(size_mb as nat)),
        ],
{
    let t = decimal(secs);
    let m = decimal(size_mb);
    let mut v: Vec<(String, String, String)> = Vec::new();
    v.push(param("AdvOut", "RecRBTime", t.as_str()));
    v.push(param("SimpleOutput", "RecRBTime", t.as_str()));
    v.push(param("AdvOut", "RecRBSize", m.as_str()));
    v.push(param("SimpleOutput", "RecRBSize", m.as_str()));
    proof {
        assert(v.deep_view() =~= seq![
            ("AdvOut"@, "RecRBTime"@, spec_decimal(secs as nat)),
            ("SimpleOutput"@, "RecRBTime"@, spec_decimal(secs as nat)),
            ("AdvOut"@, "RecRBSize"@, spec_decimal(size_mb as nat)),
            ("SimpleOutput"@, "RecRBSize"@, spec_decimal(size_mb as nat)),
        ]);
    }
    v
}

// ---------------------------------------------------------------- video settings

/// The recording frame rate, kept within 30..=240.
pub fn video_fps(setting: u32) -> (r: u32)
    ensures
        r == (if setting < 30 {
            30
        } else if setting > 240 {
            240
        } else {
            setting
        }),
{
    if setting < 30 {
        30
    } else if setting > 240 {
        240
    } else {
        setting
    }
}

/// The output size: the canvas when the height setting is 0; otherwise
/// that height (at most the canvas's) and the width that keeps the
/// canvas's aspect, rounded to the nearest even number (halves away from
/// zero). A zero-height canvas gives a zero width.
pub open spec fn spec_output_size(video_height: u32, base_w: u32, base_h: u32) -> (int, int) {
    if video_height == 0 {
        (base_w as int, base_h as int)
    } else {
        let h: int = if video_height < base_h {
            video_height as int
        } else {
            base_h as int
        };
        if base_h == 0 {
            (0, h)
        } else {
            (((h * base_w + base_h) / (2 * base_h)) * 2, h)
        }
    }
}

pub fn output_size(video_height: u32, base_w: u32, base_h: u32) -> (r: (u32, u32))
    requires
        spec_output_size(video_height, base_w, base_h).0 <= u32::MAX,
    ensures
        (r.0 as int, r.1 as int) == spec_output_size(video_height, base_w, base_h),
{
    if video_height == 0 {
        return (base_w, base_h);
    }
    let h: u32 = if video_height < base_h {
        video_height
    } else {
        base_h
    };
    if base_h == 0 {
        return (0, h);
    }
    proof {
        assert((h as int) * (base_w as int) <= 0xffff_ffffint * 0xffff_ffffint) by (nonlinear_arith)
            requires
                0 <= h <= 0xffff_ffff,
                0 <= base_w <= 0xffff_ffff,
        ;
    }
    let num: u64 = (h as u64) * (base_w as u64) + (base_h as u64);
    let den: u64 = 2 * (base_h as u64);
    let half: u64 = num / den;
    proof {
        assert(half * 2 <= u32::MAX);
    }
    ((half * 2) as u32, h)
}

/// Whether OBS's video settings differ from what the app wants.
pub fn video_needs_update(
    fps_numerator: u32,
    fps_denominator: u32,
    output_width: u32,
    output_height: u32,
    fps: u32,
    width: u32,
    height: u32,
) -> (r: bool)
    ensures
        r == (fps_numerator != fps || fps_denominator != 1 || output_width != width || output_height
            != height),
{
    fps_numerator != fps || fps_denominator != 1 || output_width != width || output_height != height
}

/// Encoder settings tuned for clips, merged into the profile's
/// `recordEncoder.json`: constant bitrate (the RAM-backed buffer never
/// truncates), 1 s keyframes (trims land within a second), and each
/// vendor's quality preset.
pub open spec fn spec_encoder_tuning(encoder: Seq<char>, bitrate_kbps: u64) -> Seq<
    (Seq<char>, ObsValueView),
> {
    let base = seq![
        ("rate_control"@, ObsValueView::Str("CBR"@)),
        ("bitrate"@, ObsValueView::UInt(bitrate_kbps)),
        ("keyint_sec"@, ObsValueView::Int(1)),
    ];
    if spec_contains(encoder, "nvenc"@) {
        base + seq![
            ("preset2"@, ObsValueView::Str("p5"@)),
            ("tune"@, ObsValueView::Str("hq"@)),
            ("multipass"@, ObsValueView::Str("qres"@)),
        ]
    } else if spec_contains(encoder, "amf"@) {
        base + seq![("preset"@, ObsValueView::Str("quality"@))]
    } else if spec_contains(encoder, "qsv"@) {
        base + seq![("target_usage"@, ObsValueView::Str("TU2"@))]
    } else if encoder == "obs_x264"@ {
        base + seq![
            ("preset"@, ObsValueView::Str("veryfast"@)),
            ("profile"@, ObsValueView::Str("high"@)),
        ]
    } else {
        base
    }
}

pub fn encoder_tuning(encoder: &str, bitrate_kbps: u64) -> (r: Vec<(String, ObsValue)>)
    ensures
        r.deep_view() == spec_encoder_tuning(encoder@, bitrate_kbps),
{
    let mut v: Vec<(String, ObsValue)> = Vec::new();
    v.push(setting("rate_control", ObsValue::Str(copy_str("CBR"))));
    v.push(setting("bitrate", ObsValue::UInt(bitrate_kbps)));
    v.push(setting("keyint_sec", ObsValue::Int(1)));
    let ghost base = v.deep_view();
    proof {
        assert(base =~= seq![
            ("rate_control"@, ObsValueView::Str("CBR"@)),
            ("bitrate"@, ObsValueView::UInt(bitrate_kbps)),
            ("keyint_sec"@, ObsValueView::Int(1)),
        ]);
    }
    if contains(encoder, "nvenc") {
        v.push(setting("preset2", ObsValue::Str(copy_str("p5"))));
        v.push(setting("tune", ObsValue::Str(copy_str("hq"))));
        v.push(setting("multipass", ObsValue::Str(copy_str("qres"))));
        proof {
            assert(v.deep_view() =~= spec_encoder_tuning(encoder@, bitrate_kbps));
        }
    } else if contains(encoder, "amf") {
        v.push(setting("preset", ObsValue::Str(copy_str("quality"))));
        proof {
            assert(v.deep_view() =~= spec_encoder_tuning(encoder@, bitrate_kbps));
        }
    } else if contains(encoder, "qsv") {
        v.push(setting("target_usage", ObsValue::Str(copy_str("TU2"))));
        proof {
            assert(v.deep_view() =~= spec_encoder_tuning(encoder@, bitrate_kbps));
        }
    } else if str_eq(encoder, "obs_x264") {
        v.push(setting("preset", ObsValue::Str(copy_str("veryfast"))));
        v.push(setting("profile", ObsValue::Str(copy_str("high"))));
        proof {
            assert(v.deep_view() =~= spec_encoder_tuning(encoder@, bitrate_kbps));
        }
    }
    v
}

/// What serde_json makes of `raw` read as a JSON object (an empty object
/// when `raw` is not one), serialised again.
pub uninterp spec fn spec_json_object_text(raw: Seq<char>) -> Seq<char>;

/// That object with each `(key, value)` of `entries` inserted in turn (a
/// later entry replaces the value an earlier one or `raw` gave its key),
/// serialised.
pub uninterp spec fn spec_json_object_merged(
    raw: Seq<char>,
    entries: Seq<(Seq<char>, ObsValueView)>,
) -> Seq<char>;

/// `serde_json::from_str` into a `Map` (empty when `raw` is not a JSON
/// object), then `serde_json::to_string`; named by `spec_json_object_text`.
#[verifier::external_body]
fn json_object_text(raw: &str) -> (r: String)
    ensures
        r@ == spec_json_object_text(raw@),
{
    let map: serde_json::Map<String, serde_json::Value> = serde_json::from_str(raw).unwrap_or_default();
    serde_json::to_string(&map).unwrap_or_default()
}

/// `serde_json::from_str` into a `Map` (empty when `raw` is not a JSON
/// object), `Map::extend` with the entries (each value converted to the
/// JSON string, integer or boolean it holds), then `serde_json::to_string`;
/// named by `spec_json_object_merged`.
#[verifier::external_body]
fn json_object_merged(raw: &str, entries: &Vec<(String, ObsValue)>) -> (r: String)
    ensures
        r@ == spec_json_object_merged(raw@, entries.deep_view()),
{
    let mut map: serde_json::Map<String, serde_json::Value> = serde_json::from_str(raw).unwrap_or_default();
    map.extend(entries.iter().map(|(k, v)| (k.clone(), match v {
        ObsValue::Str(s) => serde_json::Value::from(s.as_str()),
        ObsValue::Int(i) => serde_json::Value::from(*i),
        ObsValue::UInt(u) => serde_json::Value::from(*u),
        ObsValue::Bool(b) => serde_json::Value::from(*b),
    })));
    serde_json::to_string(&map).unwrap_or_default()
}

pub open spec fn spec_merge_encoder_json(
    raw: Seq<char>,
    tuning: Seq<(Seq<char>, ObsValueView)>,
) -> Option<Seq<char>> {
    let merged = spec_json_object_merged(raw, tuning);
    if merged == spec_json_object_text(raw) {
        None
    } else {
        Some(merged)
    }
}

/// Merge encoder settings into the text of `recordEncoder.json`: the new
/// text when the merge changes the object (so it must be written and the
/// profile reloaded), `None` when every setting already had its value.
/// A file that is not a JSON object counts as an empty one.
pub fn merge_encoder_json(raw: &str, tuning: &Vec<(String, ObsValue)>) -> (r: Option<String>)
    ensures
        r.deep_view() == spec_merge_encoder_json(raw@, tuning.deep_view()),
{
    let before = json_object_text(raw);
    let after = json_object_merged(raw, tuning);
    if str_eq(after.as_str(), before.as_str()) {
        None
    } else {
        Some(after)
    }
}

/// What serde_json reads from `recordEncoder.json`: its `rate_control`
/// when that is a string and its `bitrate` when that is an integer that
/// fits `u64`; `None` when the text is not JSON.
pub uninterp spec fn spec_encoder_fields(raw: Seq<char>) -> Option<(Option<Seq<char>>, Option<u64>)>;

/// `serde_json::from_str::<Value>`, then the `rate_control` (`as_str`) and
/// `bitrate` (`as_u64`) fields; named by `spec_encoder_fields`.
#[verifier::external_body]
fn encoder_fields(raw: &str) -> (r: Option<(Option<String>, Option<u64>)>)
    ensures
        r.deep_view() == spec_encoder_fields(raw@),
{
    let json = serde_json::from_str::<serde_json::Value>(raw).ok()?;
    Some((json["rate_control"].as_str().map(String::from), json["bitrate"].as_u64()))
}

/// The rate control and bitrate (kbps) the diagnostics show for the
/// current profile's `recordEncoder.json` (`None` when the file could not
/// be read): each as the file gives it, nothing when it is not JSON.
pub fn encoder_summary(raw: Option<&str>) -> (r: (Option<String>, Option<u64>))
    ensures
        r.deep_view() == match raw {
            Some(t) => match spec_encoder_fields(t@) {
                Some(f) => f,
                None => (None, None),
            },
            None => (None::<Seq<char>>, None::<u64>),
        },
{
    match raw {
        Some(t) => match encoder_fields(t) {
            Some(f) => f,
            None => (None, None),
        },
        None => (None, None),
    }
}

/// OBS only rebuilds its outputs when a profile loads; that reload is
/// safe only while nothing records or streams. A status OBS could not
/// report counts as busy.
pub fn profile_reload_allowed(
    replay_active: Option<bool>,
    recording_active: Option<bool>,
    streaming_active: Option<bool>,
) -> (r: bool)
    ensures
        r == (replay_active == Some(false) && recording_active == Some(false) && streaming_active
            == Some(false)),
{
    let busy = match replay_active {
        Some(a) => a,
        None => true,
    } || match recording_active {
        Some(a) => a,
        None => true,
    } || match streaming_active {
        Some(a) => a,
        None => true,
    };
    !busy
}

/// The Health panel's frame rate: numerator over denominator (a zero
/// denominator counts as 1).
pub fn diagnostics_fps(numerator: u32, denominator: u32) -> (r: u32)
    ensures
        r == numerator / (if denominator == 0 {
            1u32
        } else {
            denominator
        }),
{
    let d = if denominator == 0 {
        1
    } else {
        denominator
    };
    numerator / d
}

/// The Health panel's resolution, "WxH".
pub fn resolution_text(width: u32, height: u32) -> (r: String)
    ensures
        r@ == spec_decimal(width as nat) + "x"@ + spec_decimal(height as nat),
{
    let mut out = crate::text::decimal_chars(width as u64);
    push_str(&mut out, "x");
    let h = crate::text::decimal_chars(height as u64);
    extend_chars(&mut out, &h);
    string_of(&out)
}

// ---------------------------------------------------------------- audio routing

/// Audio capture sources (inputs and outputs) are the `wasapi_` kinds.
pub fn is_audio_capture_kind(kind: &str) -> (r: bool)
    ensures
        r == crate::text::spec_starts_with(kind@, "wasapi_"@),
{
    crate::text::starts_with(&chars_of(kind), &chars_of("wasapi_"))
}

/// An audio source bound to a device that no longer exists (unplugged
/// headset, changed default) must go back to "default", or OBS records
/// silence. `device_id` is the source's device (`None` when unset) and
/// `items` the devices OBS offers now.
pub fn device_needs_reset(device_id: &Option<String>, items: &Vec<Option<String>>) -> (r: bool)
    ensures
        r == match device_id.deep_view() {
            Some(d) => d != "default"@ && !items.deep_view().contains(Some(d)),
            None => false,
        },
{
    match device_id {
        None => false,
        Some(d) => {
            if str_eq(d.as_str(), "default") {
                proof {
                    assert(device_id.deep_view() == Some(d@));
                }
                return false;
            }
            let mut i: usize = 0;
            proof {
                assert(device_id.deep_view() == Some(d@));
            }
            while i < items.len()
                invariant
                    i <= items.len(),
                    device_id.deep_view() == Some(d@),
                    forall|k: int| 0 <= k < i ==> items.deep_view()[k] != Some(d@),
                decreases items.len() - i,
            {
                let same = match &items[i] {
                    Some(v) => str_eq(v.as_str(), d.as_str()),
                    None => false,
                };
                proof {
                    assert(items.deep_view()[i as int] == items@[i as int].deep_view());
                }
                if same {
                    proof {
                        assert(items.deep_view()[i as int] == Some(d@));
                        assert(items.deep_view().contains(Some(d@)));
                        assert(device_id.deep_view() == Some(d@));
                    }
                    return false;
                }
                i = i + 1;
            }
            proof {
                assert(device_id.deep_view() == Some(d@));
                assert(!items.deep_view().contains(Some(d@)));
            }
            true
        },
    }
}

/// An audio source as the track layout sees it: its kind, and for desktop
/// captures the device it records (`None` reads as "default").
#[derive(Clone, Debug)]
pub struct AudioInput {
    pub kind: String,
    pub device: Option<String>,
}

/// Track layout: 1 = mix, 2 = game, 3 = voice, 4 = desktop, 5 = mic. A mic
/// feeds the mix and track 5.
pub open spec fn mic_tracks() -> Seq<bool> {
    seq![true, false, false, false, true, false]
}

/// A desktop capture feeds the mix and track 4.
pub open spec fn desktop_tracks() -> Seq<bool> {
    seq![true, false, false, true, false, false]
}

/// A second capture of an already captured device is taken off every
/// track, so the mix does not double it.
pub open spec fn muted_tracks() -> Seq<bool> {
    seq![false, false, false, false, false, false]
}

pub open spec fn device_of(i: AudioInput) -> Seq<char> {
    match i.device {
        Some(d) => d@,
        None => "default"@,
    }
}

/// The tracks each source should feed (`None` for sources that are not
/// microphones or desktop captures), and the devices captured so far.
pub open spec fn spec_track_plan(inputs: Seq<AudioInput>) -> (Seq<Option<Seq<bool>>>, Seq<Seq<char>>)
    decreases inputs.len(),
{
    if inputs.len() == 0 {
        (Seq::empty(), Seq::empty())
    } else {
        let (plan, seen) = spec_track_plan(inputs.drop_last());
        let i = inputs.last();
        if crate::text::spec_starts_with(i.kind@, "wasapi_input"@) {
            (plan.push(Some(mic_tracks())), seen)
        } else if crate::text::spec_starts_with(i.kind@, "wasapi_output"@) {
            if seen.contains(device_of(i)) {
                (plan.push(Some(muted_tracks())), seen)
            } else {
                (plan.push(Some(desktop_tracks())), seen.push(device_of(i)))
            }
        } else {
            (plan.push(None), seen)
        }
    }
}

fn tracks(a: bool, b: bool, c: bool, d: bool, e: bool, f: bool) -> (r: Vec<bool>)
    ensures
        r@ == seq![a, b, c, d, e, f],
{
    let mut v: Vec<bool> = Vec::new();
    v.push(a);
    v.push(b);
    v.push(c);
    v.push(d);
    v.push(e);
    v.push(f);
    proof {
        assert(v@ =~= seq![a, b, c, d, e, f]);
    }
    v
}

pub fn audio_track_plan(inputs: &Vec<AudioInput>) -> (r: Vec<Option<Vec<bool>>>)
    ensures
        r.deep_view() == spec_track_plan(inputs@).0,
{
    let mut plan: Vec<Option<Vec<bool>>> = Vec::new();
    let mut seen: Vec<String> = Vec::new();
    let mut i: usize = 0;
    while i < inputs.len()
        invariant
            i <= inputs.len(),
            (plan.deep_view(), seen.deep_view()) == spec_track_plan(inputs@.take(i as int)),
        decreases inputs.len() - i,
    {
        let inp = &inputs[i];
        proof {
            assert(inputs@.take(i as int + 1).drop_last() =~= inputs@.take(i as int));
            assert(inputs@.take(i as int + 1).last() == *inp);
        }
        let ghost prev = plan.deep_view();
        let kind = chars_of(inp.kind.as_str());
        if crate::text::starts_with(&kind, &chars_of("wasapi_input")) {
            let t = tracks(true, false, false, false, true, false);
            proof {
                assert(t.deep_view() =~= mic_tracks());
            }
            plan.push(Some(t));
            proof {
                assert(plan.deep_view() =~= prev.push(Some(mic_tracks())));
            }
        } else if crate::text::starts_with(&kind, &chars_of("wasapi_output")) {
            let dev = match &inp.device {
                Some(d) => d.clone(),
                None => copy_str("default"),
            };
            if contains_string(&seen, dev.as_str()) {
                let t = tracks(false, false, false, false, false, false);
                proof {
                    assert(t.deep_view() =~= muted_tracks());
                }
                plan.push(Some(t));
                proof {
                    assert(plan.deep_view() =~= prev.push(Some(muted_tracks())));
                }
            } else {
                let ghost prev_seen = seen.deep_view();
                seen.push(dev);
                let t = tracks(true, false, false, true, false, false);
                proof {
                    assert(t.deep_view() =~= desktop_tracks());
                }
                plan.push(Some(t));
                proof {
                    assert(plan.deep_view() =~= prev.push(Some(desktop_tracks())));
                    assert(seen.deep_view() =~= prev_seen.push(device_of(*inp)));
                }
            }
        } else {
            plan.push(None);
            proof {
                assert(plan.deep_view() =~= prev.push(None));
            }
        }
        i = i + 1;
    }
    proof {
        assert(inputs@.take(inputs.len() as int) =~= inputs@);
    }
    plan
}

/// Whether a source's tracks differ from the wanted ones.
pub fn tracks_need_change(desired: &Vec<bool>, current: &Vec<bool>) -> (r: bool)
    requires
        desired.len() == current.len(),
    ensures
        r == exists|i: int| 0 <= i < desired.len() && desired@[i] != current@[i],
{
    let mut i: usize = 0;
    while i < desired.len()
        invariant
            i <= desired.len() == current.len(),
            forall|k: int| 0 <= k < i ==> desired@[k] == current@[k],
        decreases desired.len() - i,
    {
        if desired[i] != current[i] {
            return true;
        }
        i = i + 1;
    }
    false
}

/// The application-audio captures that isolate game and voice chat: the
/// running game on track 2 (index 1) when there is one, the voice-chat
/// app on track 3 (index 2) unless its name is blank.
pub open spec fn spec_split_targets(game: Option<Seq<char>>, vc_exe: Seq<char>) -> Seq<
    (Seq<char>, Seq<char>, usize),
> {
    let g = match game {
        Some(e) => seq![("GameAudio"@, e, 1usize)],
        None => Seq::empty(),
    };
    if spec_trim(vc_exe).len() > 0 {
        g + seq![("VCAudio"@, vc_exe, 2usize)]
    } else {
        g
    }
}

pub fn split_audio_targets(game: &Option<String>, vc_exe: &str) -> (r: Vec<(String, String, usize)>)
    ensures
        r.deep_view() == spec_split_targets(game.deep_view(), vc_exe@),
{
    let mut v: Vec<(String, String, usize)> = Vec::new();
    match game {
        Some(g) => {
            v.push((copy_str("GameAudio"), g.clone(), 1));
        },
        None => {},
    }
    let ghost first = v.deep_view();
    proof {
        assert(first =~= match game.deep_view() {
            Some(e) => seq![("GameAudio"@, e, 1usize)],
            None => Seq::<(Seq<char>, Seq<char>, usize)>::empty(),
        });
    }
    let t = trim(vc_exe);
    if t.as_str().unicode_len() > 0 {
        v.push((copy_str("VCAudio"), copy_str(vc_exe), 2));
        proof {
            assert(v.deep_view() =~= first + seq![("VCAudio"@, vc_exe@, 2usize)]);
        }
    }
    v
}

/// An application-audio capture matched by executable.
pub fn process_audio_settings(exe: &str) -> (r: Vec<(String, ObsValue)>)
    ensures
        r.deep_view() == seq![
            ("window"@, ObsValueView::Str("::"@ + exe@)),
            ("priority"@, ObsValueView::Int(crate::obs::WINDOW_PRIORITY_EXE)),
        ],
{
    let mut v: Vec<(String, ObsValue)> = Vec::new();
    v.push(setting("window", ObsValue::Str(concat("::", exe))));
    v.push(setting("priority", ObsValue::Int(crate::obs::WINDOW_PRIORITY_EXE)));
    proof {
        assert(v.deep_view() =~= seq![
            ("window"@, ObsValueView::Str("::"@ + exe@)),
            ("priority"@, ObsValueView::Int(crate::obs::WINDOW_PRIORITY_EXE)),
        ]);
    }
    v
}

/// Exactly one of the six tracks.
pub fn solo_track(index: usize) -> (r: Vec<bool>)
    requires
        index < 6,
    ensures
        r@.len() == 6,
        forall|i: int| 0 <= i < 6 ==> r@[i] == (i == index),
{
    let mut v: Vec<bool> = Vec::new();
    let mut i: usize = 0;
    while i < 6
        invariant
            i <= 6,
            v@.len() == i,
            forall|k: int| 0 <= k < i ==> v@[k] == (k == index),
        decreases 6 - i,
    {
        v.push(i == index);
        i = i + 1;
    }
    v
}

// ---------------------------------------------------------------- first run

/// The clips folder a first run proposes: the user's Videos/Clips (with
/// forward slashes), or the current folder when `USERPROFILE` is unset.
pub fn videos_clips_dir(userprofile: &Option<String>, current: &str) -> (r: String)
    ensures
        r@ == match userprofile.deep_view() {
            Some(p) => forward_slashes(p) + "/Videos/Clips"@,
            None => current@,
        },
{
    match userprofile {
        Some(p) => {
            let f = to_forward_slashes(p.as_str());
            concat(f.as_str(), "/Videos/Clips")
        },
        None => copy_str(current),
    }
}

/// Fill in machine-specific settings on first run: the detected OBS path
/// when the configured one is missing, the Videos/Clips folder when the
/// clips folder is missing and that folder could be created, and OBS's
/// websocket credentials (auto-connecting) when no password is saved.
/// Returns whether anything changed (so the settings are saved).
pub fn localize_settings(
    settings: &mut Settings,
    obs_exists: bool,
    detected_obs: Option<String>,
    clips_exists: bool,
    videos_dir: String,
    videos_created: bool,
    websocket: Option<(String, u16)>,
) -> (changed: bool)
    ensures
        final(settings).obs_path@ == (if !obs_exists && detected_obs is Some {
            detected_obs->0@
        } else {
            old(settings).obs_path@
        }),
        final(settings).clips_dir@ == (if !clips_exists && videos_created {
            videos_dir@
        } else {
            old(settings).clips_dir@
        }),
        (old(settings).password is None && websocket is Some) ==> final(settings).password.deep_view()
            == Some((websocket->0).0@) && final(settings).port == (websocket->0).1
            && final(settings).auto_connect,
        !(old(settings).password is None && websocket is Some) ==> final(settings).password.deep_view()
            == old(settings).password.deep_view() && final(settings).port == old(settings).port
            && final(settings).auto_connect == old(settings).auto_connect,
        final(settings).game_exes.deep_view() == old(settings).game_exes.deep_view(),
        final(settings).game_blacklist.deep_view() == old(settings).game_blacklist.deep_view(),
        changed == ((!obs_exists && detected_obs is Some) || (!clips_exists && videos_created) || (
        old(settings).password is None && websocket is Some)),
{
    let mut changed = false;
    if !obs_exists {
        match detected_obs {
            Some(p) => {
                settings.obs_path = p;
                changed = true;
            },
            None => {},
        }
    }
    if !clips_exists && videos_created {
        settings.clips_dir = videos_dir;
        changed = true;
    }
    if settings.password.is_none() {
        match websocket {
            Some((pw, port)) => {
                settings.password = Some(pw);
                settings.port = port;
                settings.auto_connect = true;
                changed = true;
            },
            None => {},
        }
    }
    changed
}

/// What the setup bar shows.
#[derive(Clone, Copy, Debug)]
pub struct SetupStatus {
    pub obs_installed: bool,
    pub ffmpeg_installed: bool,
}

/// An entry of the "add a game from what's running" picker.
#[derive(Clone, Debug)]
pub struct RunningApp {
    pub exe: String,
    pub title: String,
}

/// The picker's entries, from the running windowed apps, in their order.
pub fn list_running_apps(apps: Vec<crate::fullscreen::RunningApp>) -> (r: Vec<RunningApp>)
    ensures
        r@.len() == apps@.len(),
        forall|i: int|
            0 <= i < apps@.len() ==> (#[trigger] r@[i]).exe@ == apps@[i].exe@ && r@[i].title@
                == apps@[i].title@,
{
    let mut out: Vec<RunningApp> = Vec::new();
    let mut i: usize = 0;
    while i < apps.len()
        invariant
            i <= apps.len(),
            out@.len() == i,
            forall|k: int|
                0 <= k < i ==> (#[trigger] out@[k]).exe@ == apps@[k].exe@ && out@[k].title@
                    == apps@[k].title@,
        decreases apps.len() - i,
    {
        out.push(RunningApp { exe: apps[i].exe.clone(), title: apps[i].title.clone() });
        i = i + 1;
    }
    out
}

// ---------------------------------------------------------------- laws

proof fn lemma_joined_front(ls: Seq<Seq<char>>)
    requires
        ls.len() > 0,
    ensures
        joined(ls) == ls[0] + seq!['\n'] + joined(ls.drop_first()),
    decreases ls.len(),
{
    if ls.len() > 1 {
        lemma_joined_front(ls.drop_last());
        assert(ls.drop_last().drop_first() =~= ls.drop_first().drop_last());
        assert(ls.drop_first().last() == ls.last());
    } else {
        assert(ls.drop_last() =~= Seq::<Seq<char>>::empty());
        assert(ls.drop_first() =~= Seq::<Seq<char>>::empty());
    }
}

/// The lines of rewritten lines followed by more text.
proof fn lemma_lines_joined(ls: Seq<Seq<char>>, x: Seq<char>)
    requires
        forall|i: int| 0 <= i < ls.len() ==> crate::text::no_newline(#[trigger] ls[i]),
    ensures
        spec_lines(joined(ls) + x) == ls.map_values(|l: Seq<char>| crate::text::strip_cr(l))
            + spec_lines(x),
    decreases ls.len(),
{
    if ls.len() == 0 {
        assert(joined(ls) + x =~= x);
        assert(ls.map_values(|l: Seq<char>| crate::text::strip_cr(l)) =~= Seq::<Seq<char>>::empty());
    } else {
        lemma_joined_front(ls);
        let tail = ls.drop_first();
        lemma_lines_joined(tail, x);
        assert(joined(ls) + x =~= ls[0] + seq!['\n'] + (joined(tail) + x));
        crate::text::lemma_lines_of_line(ls[0], joined(tail) + x);
        assert(ls.map_values(|l: Seq<char>| crate::text::strip_cr(l)) =~= seq![
            crate::text::strip_cr(ls[0]),
        ] + tail.map_values(|l: Seq<char>| crate::text::strip_cr(l)));
    }
}

proof fn lemma_flag_line(x: Seq<char>)
    ensures
        spec_lines("FirstRun=true\n"@ + x) == seq!["FirstRun=true"@] + spec_lines(x),
        first_run_line("FirstRun=true"@),
{
    reveal_strlit("FirstRun=true\n");
    reveal_strlit("FirstRun=true");
    let l = "FirstRun=true"@;
    assert("FirstRun=true\n"@ + x =~= l + seq!['\n'] + x);
    crate::text::lemma_lines_of_line(l, x);
    assert(crate::text::strip_cr(l) == l);
    assert(!crate::text::is_whitespace(l[0]));
    assert(crate::text::spec_trim_start(l) == l);
    assert(!crate::text::is_whitespace(l.last()));
    assert(crate::text::spec_trim_end(l) == l);
}

/// Suppressing the wizard is idempotent: once `global.ini` has been
/// rewritten, it holds a `FirstRun=true` line and is left alone.
pub proof fn lemma_autoconfig_idempotent(ini: Seq<char>)
    requires
        spec_autoconfig_ini(ini) is Some,
    ensures
        spec_autoconfig_ini(spec_autoconfig_ini(ini)->0) is None,
{
    let ls = spec_lines(ini);
    crate::text::lemma_lines_no_newline(ini);
    let out = spec_autoconfig_ini(ini)->0;
    let g = first_line_from(ls, 0, |l: Seq<char>| is_general_header(l));
    lemma_first_line_from(ls, 0, |l: Seq<char>| is_general_header(l));
    if g < ls.len() {
        let e = first_line_from(ls, g + 1, |l: Seq<char>| is_section_header(l));
        lemma_first_line_from(ls, g + 1, |l: Seq<char>| is_section_header(l));
        let a = ls.take(e);
        let b = ls.skip(e);
        assert forall|i: int| 0 <= i < a.len() implies crate::text::no_newline(#[trigger] a[i]) by {
            assert(a[i] == ls[i]);
        }
        lemma_flag_line(joined(b));
        lemma_lines_joined(a, "FirstRun=true\n"@ + joined(b));
        assert(out == joined(a) + ("FirstRun=true\n"@ + joined(b)));
        let lo = spec_lines(out);
        assert(lo[a.len() as int] == "FirstRun=true"@);
    } else {
        lemma_flag_line(Seq::empty());
        reveal_strlit("[General]\nFirstRun=true\n");
        reveal_strlit("FirstRun=true\n");
        reveal_strlit("[General]");
        let h = "[General]"@;
        assert(crate::text::no_newline(h));
        assert("[General]\nFirstRun=true\n"@ =~= h + seq!['\n'] + "FirstRun=true\n"@);
        crate::text::lemma_lines_of_line(h, "FirstRun=true\n"@);
        assert("FirstRun=true\n"@ + Seq::<char>::empty() =~= "FirstRun=true\n"@);
        lemma_lines_joined(ls, "[General]\nFirstRun=true\n"@);
        let lo = spec_lines(out);
        assert(lo[ls.len() as int + 1] == "FirstRun=true"@);
    }
}

proof fn lemma_first_from_vendor(available: Seq<Seq<char>>, vendor: Seq<char>, codecs: Seq<Seq<char>>)
    ensures
        first_from_vendor(available, vendor, codecs) is Some ==> available.contains(
            first_from_vendor(available, vendor, codecs)->0,
        ) && spec_contains(first_from_vendor(available, vendor, codecs)->0, vendor) && is_codec(
            first_from_vendor(available, vendor, codecs)->0,
            codecs,
        ),
    decreases available.len(),
{
    if available.len() > 0 && !(spec_contains(available[0], vendor) && is_codec(available[0], codecs)) {
        lemma_first_from_vendor(available.drop_first(), vendor, codecs);
        if first_from_vendor(available, vendor, codecs) is Some {
            let id = first_from_vendor(available, vendor, codecs)->0;
            let k = choose|k: int| 0 <= k < available.drop_first().len() && available.drop_first()[k] == id;
            assert(available[k + 1] == id);
        }
    } else if available.len() > 0 {
        assert(available[0] == first_from_vendor(available, vendor, codecs)->0);
    }
}

/// The encoder picked is one this machine's OBS registered, for a codec of
/// the preference and from a hardware vendor, except the CPU x264
/// fallback for H.264; the H.264 preference always gets an encoder.
pub proof fn lemma_pick_encoder_sound(pref: Seq<char>, available: Seq<Seq<char>>)
    ensures
        spec_pick_encoder(pref, available) matches Some(id) ==> (available.contains(id) && (
        spec_contains(id, "nvenc"@) || spec_contains(id, "amf"@) || spec_contains(id, "qsv"@)))
            || id == "obs_x264"@,
        pref == "h264"@ ==> spec_pick_encoder(pref, available) is Some,
{
    reveal_strlit("h264");
    reveal_strlit("av1");
    reveal_strlit("hevc");
    assert("h264"@.len() != "av1"@.len());
    assert("h264"@[1] != "hevc"@[1]);
    lemma_first_from_vendor(available, "nvenc"@, av1_codecs());
    lemma_first_from_vendor(available, "amf"@, av1_codecs());
    lemma_first_from_vendor(available, "qsv"@, av1_codecs());
    lemma_first_from_vendor(available, "nvenc"@, hevc_codecs());
    lemma_first_from_vendor(available, "amf"@, hevc_codecs());
    lemma_first_from_vendor(available, "qsv"@, hevc_codecs());
    lemma_first_from_vendor(available, "nvenc"@, h264_codecs());
    lemma_first_from_vendor(available, "amf"@, h264_codecs());
    lemma_first_from_vendor(available, "qsv"@, h264_codecs());
}

/// With an NVIDIA encoder for the codec present, the discrete GPU wins
/// over an integrated one.
pub proof fn lemma_nvenc_preferred(available: Seq<Seq<char>>, codecs: Seq<Seq<char>>)
    requires
        first_from_vendor(available, "nvenc"@, codecs) is Some,
    ensures
        spec_find_encoder(available, codecs) == first_from_vendor(available, "nvenc"@, codecs),
{
}

} // verus!

//! Event-driven auto-clipping.
//!
//! CS2 pushes kill events over Game State Integration (the game POSTs JSON
//! to a localhost port); League is polled through its local live-client
//! API while it runs; other games can name a log file and a pattern. A
//! kill arms a short countdown and further kills extend it, so a multikill
//! ends up in one clip. Recent kills are kept so a saved clip can carry
//! markers where each kill sits on its timeline.

use vstd::prelude::*;

use crate::text::{
    chars_of, first_line_from, lemma_first_line_from, lemma_first_line_is, lines, parse_usize,
    spec_ascii_lower_seq, spec_lines, spec_parse_usize, spec_split, spec_starts_with, spec_trim,
    split_char, starts_with, to_ascii_lowercase_chars, trim_chars,
};

verus! {

// ---------------------------------------------------------------- kill log

/// Kills older than this cannot be in any clip (longer than the longest
/// replay buffer), so they are dropped.
pub const KILL_RETENTION_MS: u64 = 960_000;

/// Milliseconds from `t` to `now`; zero when `t` is later (as
/// `Instant::duration_since` saturates).
pub open spec fn age_ms(now: u64, t: u64) -> int {
    if t <= now {
        now - t
    } else {
        0
    }
}

/// The kills still within the retention window, in order.
pub open spec fn retained_kills(kills: Seq<u64>, now: u64) -> Seq<u64>
    decreases kills.len(),
{
    if kills.len() == 0 {
        Seq::empty()
    } else {
        let rest = retained_kills(kills.drop_last(), now);
        if age_ms(now, kills.last()) < KILL_RETENTION_MS {
            rest.push(kills.last())
        } else {
            rest
        }
    }
}

proof fn lemma_retained_recent(kills: Seq<u64>, now: u64)
    ensures
        forall|i: int|
            0 <= i < retained_kills(kills, now).len() ==> age_ms(now, #[trigger] retained_kills(
                kills,
                now,
            )[i]) < KILL_RETENTION_MS,
    decreases kills.len(),
{
    if kills.len() > 0 {
        lemma_retained_recent(kills.drop_last(), now);
        let rest = retained_kills(kills.drop_last(), now);
        assert forall|i: int|
            0 <= i < retained_kills(kills, now).len() implies age_ms(
            now,
            #[trigger] retained_kills(kills, now)[i],
        ) < KILL_RETENTION_MS by {
            if i < rest.len() {
                assert(retained_kills(kills, now)[i] == rest[i]);
            }
        }
    }
}

/// Record a kill at `now_ms`: drop the kills that aged out, then append
/// this one.
pub fn record_kill(kills: &mut Vec<u64>, now_ms: u64)
    ensures
        final(kills)@ == retained_kills(old(kills)@, now_ms).push(now_ms),
        forall|i: int|
            0 <= i < final(kills)@.len() ==> age_ms(now_ms, #[trigger] final(kills)@[i])
                < KILL_RETENTION_MS,
{
    let mut kept: Vec<u64> = Vec::new();
    let mut i: usize = 0;
    while i < kills.len()
        invariant
            i <= kills.len(),
            kept@ == retained_kills(kills@.take(i as int), now_ms),
        decreases kills.len() - i,
    {
        let t = kills[i];
        proof {
            assert(kills@.take(i as int + 1).drop_last() =~= kills@.take(i as int));
            assert(kills@.take(i as int + 1).last() == t);
        }
        let age: u64 = if t <= now_ms {
            now_ms - t
        } else {
            0
        };
        if age < KILL_RETENTION_MS {
            kept.push(t);
        }
        i = i + 1;
    }
    proof {
        assert(kills@.take(kills.len() as int) =~= kills@);
        lemma_retained_recent(kills@, now_ms);
    }
    kept.push(now_ms);
    *kills = kept;
}

/// Where each kill sits in a clip of `duration` ms that ends now: a kill
/// `a` ms ago is at `duration - a`; kills before the clip started are
/// left out.
pub open spec fn spec_markers(kills: Seq<u64>, now: u64, duration: u64) -> Seq<u64>
    decreases kills.len(),
{
    if kills.len() == 0 {
        Seq::empty()
    } else {
        let rest = spec_markers(kills.drop_last(), now, duration);
        let a = age_ms(now, kills.last());
        if a <= duration {
            rest.push((duration - a) as u64)
        } else {
            rest
        }
    }
}

/// The kill markers for a clip that just hit disk: every recorded kill
/// inside the clip's window, in ms from the clip's start. The replay
/// buffer always ends "now", so this works for hotkey saves too.
pub fn write_kill_markers(kills: &Vec<u64>, now_ms: u64, duration_ms: u64) -> (r: Vec<u64>)
    ensures
        r@ == spec_markers(kills@, now_ms, duration_ms),
{
    let mut out: Vec<u64> = Vec::new();
    let mut i: usize = 0;
    while i < kills.len()
        invariant
            i <= kills.len(),
            out@ == spec_markers(kills@.take(i as int), now_ms, duration_ms),
        decreases kills.len() - i,
    {
        let t = kills[i];
        proof {
            assert(kills@.take(i as int + 1).drop_last() =~= kills@.take(i as int));
            assert(kills@.take(i as int + 1).last() == t);
        }
        let age: u64 = if t <= now_ms {
            now_ms - t
        } else {
            0
        };
        if age <= duration_ms {
            out.push(duration_ms - age);
        }
        i = i + 1;
    }
    proof {
        assert(kills@.take(kills.len() as int) =~= kills@);
    }
    out
}

// ---------------------------------------------------------------- pending clip

/// The countdown never fires sooner than this after the last kill.
pub const MIN_CLIP_DELAY_MS: u64 = 2000;

pub open spec fn clip_delay(delay_ms: u64) -> int {
    if delay_ms < MIN_CLIP_DELAY_MS {
        MIN_CLIP_DELAY_MS as int
    } else {
        delay_ms as int
    }
}

/// A kill: record it, and (re)start the countdown to `now + delay` (at
/// least 2 s). Returns whether this armed a new countdown rather than
/// extending a running one.
pub fn schedule_clip(kills: &mut Vec<u64>, pending: &mut Option<u64>, now_ms: u64, delay_ms: u64) -> (armed: bool)
    requires
        now_ms + clip_delay(delay_ms) <= u64::MAX,
    ensures
        final(kills)@ == retained_kills(old(kills)@, now_ms).push(now_ms),
        *final(pending) == Some((now_ms + clip_delay(delay_ms)) as u64),
        armed == (*old(pending) is None),
{
    record_kill(kills, now_ms);
    let already = pending.is_some();
    let d = if delay_ms < MIN_CLIP_DELAY_MS {
        MIN_CLIP_DELAY_MS
    } else {
        delay_ms
    };
    *pending = Some(now_ms + d);
    !already
}

pub open spec fn spec_take_due(pending: Option<u64>, now: u64) -> (Option<u64>, bool) {
    match pending {
        Some(d) => if now >= d {
            (None, true)
        } else {
            (pending, false)
        },
        None => (None, false),
    }
}

/// Whether the pending clip is due at `now`; a due clip is taken, so it
/// fires once.
pub fn take_due(pending: &mut Option<u64>, now_ms: u64) -> (due: bool)
    ensures
        (*final(pending), due) == spec_take_due(*old(pending), now_ms),
{
    match *pending {
        Some(d) => {
            if now_ms >= d {
                *pending = None;
                true
            } else {
                false
            }
        },
        None => false,
    }
}

/// A due clip fires once: right after it was taken, nothing is due,
/// whatever the time.
pub proof fn lemma_due_fires_once(pending: Option<u64>, now: u64, later: u64)
    requires
        spec_take_due(pending, now).1,
    ensures
        !spec_take_due(spec_take_due(pending, now).0, later).1,
{
}

/// Kills keep extending one countdown: a kill while a clip is pending
/// never arms a second one, and the clip is due only `delay` after the
/// latest kill.
pub proof fn lemma_multikill_extends(pending: Option<u64>, now: u64, delay: u64, t: u64)
    requires
        pending is Some,
        now + clip_delay(delay) <= u64::MAX,
        t < now + clip_delay(delay),
    ensures
        !spec_take_due(Some((now + clip_delay(delay)) as u64), t).1,
{
}

// ---------------------------------------------------------------- GSI requests

/// The end of the HTTP header, `\r\n\r\n`, starts at `p`.
pub open spec fn blank_line_at(b: Seq<u8>, p: int) -> bool {
    0 <= p && p + 4 <= b.len() && b[p] == 13u8 && b[p + 1] == 10u8 && b[p + 2] == 13u8 && b[p + 3]
        == 10u8
}

/// Where the body of an HTTP request starts: just past the first blank
/// line, if the header is complete.
pub fn find_body(buf: &[u8]) -> (r: Option<usize>)
    ensures
        match r {
            Some(i) => i >= 4 && blank_line_at(buf@, i - 4) && forall|q: int|
                0 <= q < i - 4 ==> !blank_line_at(buf@, q),
            None => forall|q: int| !blank_line_at(buf@, q),
        },
{
    let n = buf.len();
    if n < 4 {
        return None;
    }
    let mut p: usize = 0;
    while p < n - 3
        invariant
            n == buf@.len(),
            4 <= n,
            p <= n - 3,
            forall|q: int| 0 <= q < p ==> !blank_line_at(buf@, q),
        decreases n - p,
    {
        if buf[p] == 13 && buf[p + 1] == 10 && buf[p + 2] == 13 && buf[p + 3] == 10 {
            return Some(p + 4);
        }
        p = p + 1;
    }
    None
}

/// What `std::str::from_utf8` makes of `bytes`: their text when they are
/// valid UTF-8.
pub open spec fn spec_utf8(bytes: Seq<u8>) -> Option<Seq<char>> {
    if vstd::utf8::valid_utf8(bytes) {
        Some(vstd::utf8::decode_utf8(bytes))
    } else {
        None
    }
}

/// `std::str::from_utf8`: the text the bytes encode, `None` when they are
/// not valid UTF-8 (per vstd's definition of UTF-8).
#[verifier::external_body]
fn utf8_text(bytes: &[u8]) -> (r: Option<String>)
    ensures
        r.deep_view() == spec_utf8(bytes@),
{
    std::str::from_utf8(bytes).ok().map(|s| s.to_string())
}

pub open spec fn is_content_length_line(l: Seq<char>) -> bool {
    spec_starts_with(spec_ascii_lower_seq(l), "content-length:"@)
}

/// The `Content-Length` header's value: the first line that starts with
/// it (any ASCII case), the text after its first colon, trimmed and parsed.
pub open spec fn spec_content_length(buf: Seq<u8>) -> Option<usize> {
    match spec_utf8(buf) {
        Some(head) => {
            let ls = spec_lines(head);
            let i = first_line_from(ls, 0, |l: Seq<char>| is_content_length_line(l));
            if i < ls.len() {
                let parts = spec_split(ls[i], ':');
                if parts.len() > 1 {
                    spec_parse_usize(spec_trim(parts[1]))
                } else {
                    None
                }
            } else {
                None
            }
        },
        None => None,
    }
}

pub fn content_length(buf: &[u8]) -> (r: Option<usize>)
    ensures
        r == spec_content_length(buf@),
{
    let head = match utf8_text(buf) {
        Some(h) => h,
        None => return None,
    };
    let cs = chars_of(head.as_str());
    let ls = lines(&cs);
    let ghost lv = ls@.map_values(|v: Vec<char>| v@);
    let ghost pred = |l: Seq<char>| is_content_length_line(l);
    let key = chars_of("content-length:");
    let mut i: usize = 0;
    while i < ls.len()
        invariant
            i <= ls.len(),
            lv == ls@.map_values(|v: Vec<char>| v@),
            lv == spec_lines(head@),
            spec_utf8(buf@) == Some(head@),
            key@ == "content-length:"@,
            pred == (|l: Seq<char>| is_content_length_line(l)),
            forall|j: int| 0 <= j < i ==> !pred(#[trigger] lv[j]),
        decreases ls.len() - i,
    {
        let line = &ls[i];
        proof {
            assert(lv[i as int] == line@);
        }
        let lower = to_ascii_lowercase_chars(line);
        if starts_with(&lower, &key) {
            proof {
                assert(pred(lv[i as int]));
                lemma_first_line_is(lv, 0, pred, i as int);
            }
            let parts = split_char(line, ':');
            proof {
                assert(parts@.map_values(|v: Vec<char>| v@) == spec_split(lv[i as int], ':'));
                assert(parts@.map_values(|v: Vec<char>| v@).len() == parts@.len());
            }
            if parts.len() > 1 {
                let v = trim_chars(&parts[1]);
                proof {
                    assert(parts@.map_values(|v: Vec<char>| v@)[1] == parts@[1]@);
                }
                return parse_usize(&v);
            } else {
                return None;
            }
        }
        i = i + 1;
    }
    proof {
        lemma_first_line_from(lv, 0, pred);
    }
    None
}

/// What to do after a chunk of a GSI request arrived.
#[derive(Clone, Copy, Debug, PartialEq, Eq, Structural)]
pub enum ReadStep {
    /// The header and the whole body (per Content-Length) are in.
    Complete,
    /// Keep reading.
    More,
    /// Over 1 MB: not a GSI payload.
    Abort,
}

/// Requests larger than this are not GSI payloads.
pub const MAX_GSI_REQUEST: usize = 1_000_000;

/// Where the body starts: just past the first blank line, when there is one.
pub open spec fn spec_body_start(buf: Seq<u8>) -> Option<int> {
    if exists|q: int| blank_line_at(buf, q) {
        Some(
            (choose|q: int| blank_line_at(buf, q) && forall|o: int| 0 <= o < q ==> !blank_line_at(buf, o))
                + 4,
        )
    } else {
        None
    }
}

proof fn lemma_body_start(buf: Seq<u8>, r: Option<usize>)
    requires
        match r {
            Some(i) => i >= 4 && blank_line_at(buf, i - 4) && forall|q: int|
                0 <= q < i - 4 ==> !blank_line_at(buf, q),
            None => forall|q: int| !blank_line_at(buf, q),
        },
    ensures
        spec_body_start(buf) == match r {
            Some(i) => Some(i as int),
            None => None::<int>,
        },
{
    match r {
        Some(i) => {
            let c = choose|q: int| blank_line_at(buf, q) && forall|o: int| 0 <= o < q ==> !blank_line_at(buf, o);
            assert(blank_line_at(buf, i - 4));
            if c < i - 4 {
                assert(!blank_line_at(buf, c));
            } else if c > i - 4 {
                assert(!blank_line_at(buf, i - 4));
            }
        },
        None => {},
    }
}

pub open spec fn spec_read_step(buf: Seq<u8>) -> ReadStep {
    let body = spec_body_start(buf);
    let need = match spec_content_length(buf) {
        Some(n) => n as int,
        None => 0,
    };
    if body is Some && buf.len() - body->0 >= need {
        ReadStep::Complete
    } else if buf.len() > MAX_GSI_REQUEST {
        ReadStep::Abort
    } else {
        ReadStep::More
    }
}

pub fn gsi_read_step(buf: &[u8]) -> (r: ReadStep)
    ensures
        r == spec_read_step(buf@),
{
    let body = find_body(buf);
    proof {
        lemma_body_start(buf@, body);
    }
    match body {
        Some(start) => {
            let need = match content_length(buf) {
                Some(n) => n,
                None => 0,
            };
            if buf.len() - start >= need {
                return ReadStep::Complete;
            }
        },
        None => {},
    }
    if buf.len() > MAX_GSI_REQUEST {
        ReadStep::Abort
    } else {
        ReadStep::More
    }
}

// ---------------------------------------------------------------- CS2

/// What serde_json reads from a GSI body: the provider's `steamid` and the
/// player's `steamid` (each when it is a string) and the player's
/// `match_stats.kills` (when it is an integer that fits `i64`); `None`
/// when the body is not JSON.
pub uninterp spec fn spec_gsi_fields(body: Seq<u8>) -> Option<
    (Option<Seq<char>>, Option<Seq<char>>, Option<i64>),
>;

/// `serde_json::from_slice::<Value>` on the body from `start`, then the
/// three fields the kill counter needs, named by `spec_gsi_fields`.
#[verifier::external_body]
fn gsi_fields(buf: &[u8], start: usize) -> (r: Option<(Option<String>, Option<String>, Option<i64>)>)
    requires
        start <= buf@.len(),
    ensures
        r.deep_view() == spec_gsi_fields(buf@.skip(start as int)),
{
    let json = serde_json::from_slice::<serde_json::Value>(&buf[start..]).ok()?;
    let provider = json["provider"]["steamid"].as_str().map(|s| s.to_string());
    let player = json["player"]["steamid"].as_str().map(|s| s.to_string());
    Some((provider, player, json["player"]["match_stats"]["kills"].as_i64()))
}

/// The kill counter after a GSI payload, and whether it shows a new kill.
/// Only our own player counts (not someone we spectate): the provider's
/// steamid must be a string equal to the player's. `last` is -1 while the
/// count is unknown (a new match), so the first payload never clips.
pub open spec fn spec_cs2_step(
    last: i64,
    fields: Option<(Option<Seq<char>>, Option<Seq<char>>, Option<i64>)>,
) -> (i64, bool) {
    match fields {
        Some((provider, player, kills)) => if provider is Some && player == provider {
            match kills {
                Some(k) => (k, last >= 0 && k > last),
                None => (last, false),
            }
        } else {
            (last, false)
        },
        None => (last, false),
    }
}

pub fn handle_cs2_payload(last_kills: i64, fields: Option<(Option<String>, Option<String>, Option<i64>)>) -> (r: (i64, bool))
    ensures
        r == spec_cs2_step(last_kills, fields.deep_view()),
{
    match fields {
        Some((provider, player, kills)) => {
            let own = match (&provider, &player) {
                (Some(a), Some(b)) => crate::text::str_eq(a.as_str(), b.as_str()),
                _ => false,
            };
            if !own {
                return (last_kills, false);
            }
            match kills {
                Some(k) => (k, last_kills >= 0 && k > last_kills),
                None => (last_kills, false),
            }
        },
        None => (last_kills, false),
    }
}

/// A complete GSI request: the kill counter afterwards, and whether to
/// clip. Requests without a header end or a JSON body change nothing.
pub fn handle_gsi_request(buf: &[u8], last_kills: i64) -> (r: (i64, bool))
    ensures
        r == match spec_body_start(buf@) {
            Some(start) => spec_cs2_step(last_kills, spec_gsi_fields(buf@.skip(start))),
            None => (last_kills, false),
        },
{
    let body = find_body(buf);
    proof {
        lemma_body_start(buf@, body);
    }
    match body {
        Some(start) => {
            let fields = gsi_fields(buf, start);
            handle_cs2_payload(last_kills, fields)
        },
        None => (last_kills, false),
    }
}

/// The port ClipForge's GSI listener binds.
pub const GSI_PORT: u16 = 3888;

/// The GSI config dropped into CS2's cfg folder, pointing the game at our
/// listener.
pub fn gsi_config_text() -> (r: String)
    ensures
        r@ == "\"ClipForge GSI\"\n{\n \"uri\" \"http://127.0.0.1:"@ + crate::text::spec_decimal(
            GSI_PORT as nat,
        ) + "\"\n \"timeout\" \"1.0\"\n \"buffer\" \"0.2\"\n \"throttle\" \"0.5\"\n \"heartbeat\" \"30.0\"\n \"data\"\n {\n  \"provider\" \"1\"\n  \"player_state\" \"1\"\n  \"map\" \"1\"\n }\n}\n"@,
{
    let port = crate::text::decimal(GSI_PORT as u64);
    let a = crate::text::concat("\"ClipForge GSI\"\n{\n \"uri\" \"http://127.0.0.1:", port.as_str());
    crate::text::concat(
        a.as_str(),
        "\"\n \"timeout\" \"1.0\"\n \"buffer\" \"0.2\"\n \"throttle\" \"0.5\"\n \"heartbeat\" \"30.0\"\n \"data\"\n {\n  \"provider\" \"1\"\n  \"player_state\" \"1\"\n  \"map\" \"1\"\n }\n}\n",
    )
}

/// Steam's default install folders, searched first for CS2.
pub fn steam_roots() -> (r: Vec<String>)
    ensures
        r.deep_view() == seq!["C:/Program Files (x86)/Steam"@, "C:/Program Files/Steam"@],
{
    let mut v: Vec<String> = Vec::new();
    v.push(crate::text::copy_str("C:/Program Files (x86)/Steam"));
    v.push(crate::text::copy_str("C:/Program Files/Steam"));
    proof {
        assert(v.deep_view() =~= seq!["C:/Program Files (x86)/Steam"@, "C:/Program Files/Steam"@]);
    }
    v
}

/// The library folder a `libraryfolders.vdf` line names: for a trimmed
/// line that starts with `"path"`, its fourth `"`-separated piece with
/// escaped backslash pairs turned into `/`.
pub open spec fn vdf_line_path(l: Seq<char>) -> Option<Seq<char>> {
    let t = spec_trim(l);
    if spec_starts_with(t, "\"path\""@) && spec_split(t, '"').len() > 3 {
        Some(crate::text::spec_replace(spec_split(t, '"')[3], seq!['\\', '\\'], seq!['/']))
    } else {
        None
    }
}

pub open spec fn spec_vdf_paths(ls: Seq<Seq<char>>) -> Seq<Seq<char>>
    decreases ls.len(),
{
    if ls.len() == 0 {
        Seq::empty()
    } else {
        let rest = spec_vdf_paths(ls.drop_last());
        match vdf_line_path(ls.last()) {
            Some(p) => rest.push(p),
            None => rest,
        }
    }
}

/// The file under a Steam root that lists its other library folders.
pub fn library_folders_vdf(root: &str) -> (r: String)
    ensures
        r@ == crate::paths::spec_join(root@, "steamapps/libraryfolders.vdf"@),
{
    crate::paths::join(root, "steamapps/libraryfolders.vdf")
}

/// CS2's cfg folder under a Steam library root.
pub fn cs2_cfg_dir(root: &str) -> (r: String)
    ensures
        r@ == crate::paths::spec_join(
            root@,
            "steamapps/common/Counter-Strike Global Offensive/game/csgo/cfg"@,
        ),
{
    crate::paths::join(root, "steamapps/common/Counter-Strike Global Offensive/game/csgo/cfg")
}

/// The GSI config file ClipForge drops into CS2's cfg folder.
pub fn gsi_config_file(cfg_dir: &str) -> (r: String)
    ensures
        r@ == crate::paths::spec_join(cfg_dir@, "gamestate_integration_clipforge.cfg"@),
{
    crate::paths::join(cfg_dir, "gamestate_integration_clipforge.cfg")
}

/// The extra Steam library folders listed in a `libraryfolders.vdf`.
pub fn vdf_library_paths(raw: &str) -> (r: Vec<String>)
    ensures
        r.deep_view() == spec_vdf_paths(spec_lines(raw@)),
{
    let cs = chars_of(raw);
    let ls = lines(&cs);
    let ghost lv = ls@.map_values(|v: Vec<char>| v@);
    let key = chars_of("\"path\"");
    let from = chars_of("\\\\");
    let to = chars_of("/");
    proof {
        assert(from@ =~= seq!['\\', '\\']) by {
            reveal_strlit("\\\\");
        }
        assert(to@ =~= seq!['/']) by {
            reveal_strlit("/");
        }
    }
    let mut out: Vec<String> = Vec::new();
    let mut i: usize = 0;
    while i < ls.len()
        invariant
            i <= ls.len(),
            lv == ls@.map_values(|v: Vec<char>| v@),
            lv == spec_lines(raw@),
            key@ == "\"path\""@,
            from@ == seq!['\\', '\\'],
            to@ == seq!['/'],
            out.deep_view() == spec_vdf_paths(lv.take(i as int)),
        decreases ls.len() - i,
    {
        let line = &ls[i];
        proof {
            assert(lv[i as int] == line@);
            assert(lv.take(i as int + 1).drop_last() =~= lv.take(i as int));
            assert(lv.take(i as int + 1).last() == line@);
        }
        let t = trim_chars(line);
        if starts_with(&t, &key) {
            let parts = split_char(&t, '"');
            proof {
                assert(parts@.map_values(|v: Vec<char>| v@) == spec_split(t@, '"'));
                assert(parts@.map_values(|v: Vec<char>| v@).len() == parts@.len());
            }
            if parts.len() > 3 {
                proof {
                    assert(parts@.map_values(|v: Vec<char>| v@)[3] == parts@[3]@);
                }
                let p = crate::text::replace_chars(&parts[3], &from, &to);
                let ghost prev = out.deep_view();
                out.push(crate::text::string_of(&p));
                proof {
                    assert(out.deep_view() =~= prev.push(p@));
                }
            }
        }
        i = i + 1;
    }
    proof {
        assert(lv.take(ls.len() as int) =~= lv);
    }
    out
}

// ---------------------------------------------------------------- League

/// One event of League's live-client event list: its id (-1 when it has
/// none) and its `EventName` and `KillerName` when they are strings.
#[derive(Clone, Debug)]
pub struct LolEvent {
    pub id: i64,
    pub name: Option<String>,
    pub killer: Option<String>,
}

/// Events name players without the Riot tag: "Name#TAG" becomes "Name".
pub fn lol_player_name(me: &str) -> (r: String)
    ensures
        r@ == spec_split(me@, '#')[0],
{
    let cs = chars_of(me);
    let parts = split_char(&cs, '#');
    proof {
        assert(parts@.map_values(|v: Vec<char>| v@) == spec_split(me@, '#'));
        assert(parts@.map_values(|v: Vec<char>| v@).len() == parts@.len());
        crate::text::lemma_split_nonempty(me@, '#');
        assert(parts@.map_values(|v: Vec<char>| v@)[0] == parts@[0]@);
    }
    crate::text::string_of(&parts[0])
}

pub open spec fn is_own_kill(e: LolEvent, me: Seq<char>) -> bool {
    e.name.deep_view() == Some("ChampionKill"@) && e.killer.deep_view() == Some(me)
}

/// The newest event id seen and whether a new event is a champion kill by
/// `me`. Events up to `last` are old; while `last` is -1 (first poll of a
/// match) the backlog only advances the id.
pub open spec fn spec_lol_step(last: i64, me: Seq<char>, events: Seq<LolEvent>) -> (i64, bool)
    decreases events.len(),
{
    if events.len() == 0 {
        (last, false)
    } else {
        let (newest, kill) = spec_lol_step(last, me, events.drop_last());
        let e = events.last();
        if e.id <= last {
            (newest, kill)
        } else {
            (
                if e.id > newest {
                    e.id
                } else {
                    newest
                },
                kill || (last >= 0 && is_own_kill(e, me)),
            )
        }
    }
}

pub fn lol_events_step(last: i64, me: &str, events: &Vec<LolEvent>) -> (r: (i64, bool))
    ensures
        r == spec_lol_step(last, me@, events@),
{
    let mut newest = last;
    let mut kill = false;
    let mut i: usize = 0;
    while i < events.len()
        invariant
            i <= events.len(),
            (newest, kill) == spec_lol_step(last, me@, events@.take(i as int)),
        decreases events.len() - i,
    {
        let e = &events[i];
        proof {
            assert(events@.take(i as int + 1).drop_last() =~= events@.take(i as int));
            assert(events@.take(i as int + 1).last() == *e);
        }
        if e.id > last {
            if e.id > newest {
                newest = e.id;
            }
            if last >= 0 {
                let champ = match &e.name {
                    Some(n) => crate::text::str_eq(n.as_str(), "ChampionKill"),
                    None => false,
                };
                let mine = match &e.killer {
                    Some(k) => crate::text::str_eq(k.as_str(), me),
                    None => false,
                };
                if champ && mine {
                    kill = true;
                }
            }
        }
        i = i + 1;
    }
    proof {
        assert(events@.take(events.len() as int) =~= events@);
    }
    (newest, kill)
}

// ---------------------------------------------------------------- log triggers

/// A user-defined trigger: while `game_exe` is the active game, tail
/// `log_path` and clip whenever a new line matches the regex `pattern`.
/// Lives in `<app config>/log_triggers.json`.
#[derive(Clone, Debug)]
pub struct LogTrigger {
    pub game_exe: String,
    /// May contain %ENV% variables, e.g. "%LOCALAPPDATA%/MyGame/game.log".
    pub log_path: String,
    pub pattern: String,
}

/// The file seeded when there is no trigger file yet, so users see the
/// format; its entry names `example.exe`, which is never loaded.
pub fn example_triggers_file() -> (r: String)
    ensures
        r@ == "[\n  {\n    \"_comment\": \"Example \u{2014} find your game's kill line, add an entry, restart the app.\",\n    \"game_exe\": \"example.exe\",\n    \"log_path\": \"%LOCALAPPDATA%/Example/Saved/Logs/game.log\",\n    \"pattern\": \"KillFeed: you eliminated\"\n  }\n]"@,
{
    crate::text::copy_str(
        "[\n  {\n    \"_comment\": \"Example \u{2014} find your game's kill line, add an entry, restart the app.\",\n    \"game_exe\": \"example.exe\",\n    \"log_path\": \"%LOCALAPPDATA%/Example/Saved/Logs/game.log\",\n    \"pattern\": \"KillFeed: you eliminated\"\n  }\n]",
    )
}

pub open spec fn trigger_view(t: LogTrigger) -> (Seq<char>, Seq<char>, Seq<char>) {
    (t.game_exe@, t.log_path@, t.pattern@)
}

pub open spec fn spec_usable(ts: Seq<LogTrigger>) -> Seq<(Seq<char>, Seq<char>, Seq<char>)>
    decreases ts.len(),
{
    if ts.len() == 0 {
        Seq::empty()
    } else {
        let rest = spec_usable(ts.drop_last());
        if ts.last().game_exe@ == "example.exe"@ {
            rest
        } else {
            rest.push(trigger_view(ts.last()))
        }
    }
}

/// The triggers that count: every entry but the seeded example.
pub fn usable_triggers(entries: &Vec<LogTrigger>) -> (r: Vec<LogTrigger>)
    ensures
        r@.map_values(|t: LogTrigger| trigger_view(t)) == spec_usable(entries@),
{
    let mut out: Vec<LogTrigger> = Vec::new();
    let mut i: usize = 0;
    while i < entries.len()
        invariant
            i <= entries.len(),
            out@.map_values(|t: LogTrigger| trigger_view(t)) == spec_usable(entries@.take(i as int)),
        decreases entries.len() - i,
    {
        let t = &entries[i];
        proof {
            assert(entries@.take(i as int + 1).drop_last() =~= entries@.take(i as int));
            assert(entries@.take(i as int + 1).last() == *t);
        }
        if !crate::text::str_eq(t.game_exe.as_str(), "example.exe") {
            let c = LogTrigger {
                game_exe: t.game_exe.clone(),
                log_path: t.log_path.clone(),
                pattern: t.pattern.clone(),
            };
            let ghost prev = out@;
            out.push(c);
            proof {
                assert(out@ == prev.push(c));
                assert(out@.map_values(|t: LogTrigger| trigger_view(t)) =~= prev.map_values(
                    |t: LogTrigger| trigger_view(t),
                ).push(trigger_view(*t)));
            }
        }
        i = i + 1;
    }
    proof {
        assert(entries@.take(entries.len() as int) =~= entries@);
    }
    out
}

/// The trigger for the running game: the first whose exe, lowercased, is
/// the game's name.
pub fn trigger_for_game(triggers: &Vec<LogTrigger>, game: &str) -> (r: Option<usize>)
    ensures
        match r {
            Some(i) => i < triggers.len() && crate::text::spec_to_lowercase(triggers@[i as int].game_exe@)
                == game@ && forall|j: int|
                0 <= j < i ==> crate::text::spec_to_lowercase(#[trigger] triggers@[j].game_exe@)
                    != game@,
            None => forall|j: int|
                0 <= j < triggers.len() ==> crate::text::spec_to_lowercase(
                    #[trigger] triggers@[j].game_exe@,
                ) != game@,
        },
{
    let mut i: usize = 0;
    while i < triggers.len()
        invariant
            i <= triggers.len(),
            forall|j: int|
                0 <= j < i ==> crate::text::spec_to_lowercase(#[trigger] triggers@[j].game_exe@)
                    != game@,
        decreases triggers.len() - i,
    {
        let l = triggers[i].game_exe.to_lowercase();
        if crate::text::str_eq(l.as_str(), game) {
            return Some(i);
        }
        i = i + 1;
    }
    None
}

/// The environment variables a trigger's log path may use.
pub fn expanded_env_names() -> (r: Vec<String>)
    ensures
        r.deep_view() == seq!["LOCALAPPDATA"@, "APPDATA"@, "USERPROFILE"@, "PROGRAMDATA"@],
{
    let mut v: Vec<String> = Vec::new();
    v.push(crate::text::copy_str("LOCALAPPDATA"));
    v.push(crate::text::copy_str("APPDATA"));
    v.push(crate::text::copy_str("USERPROFILE"));
    v.push(crate::text::copy_str("PROGRAMDATA"));
    proof {
        assert(v.deep_view() =~= seq!["LOCALAPPDATA"@, "APPDATA"@, "USERPROFILE"@, "PROGRAMDATA"@]);
    }
    v
}

/// `path` with `%NAME%` and then `$NAME` replaced by each variable's value,
/// in the order given.
pub open spec fn spec_expand_vars(path: Seq<char>, vars: Seq<(Seq<char>, Seq<char>)>) -> Seq<char>
    decreases vars.len(),
{
    if vars.len() == 0 {
        path
    } else {
        let out = spec_expand_vars(path, vars.drop_last());
        let (name, val) = vars.last();
        crate::text::spec_replace(
            crate::text::spec_replace(out, seq!['%'] + name + seq!['%'], val),
            seq!['$'] + name,
            val,
        )
    }
}

/// A trigger's log path with its environment variables expanded (`vars`
/// holds the name and value of each one that is set) and backslashes
/// turned into forward slashes.
pub fn expand_env(path: &str, vars: &Vec<(String, String)>) -> (r: String)
    ensures
        r@ == crate::text::spec_replace(
            spec_expand_vars(path@, vars.deep_view()),
            seq!['\\'],
            seq!['/'],
        ),
{
    let mut out = chars_of(path);
    let mut i: usize = 0;
    while i < vars.len()
        invariant
            i <= vars.len(),
            out@ == spec_expand_vars(path@, vars.deep_view().take(i as int)),
        decreases vars.len() - i,
    {
        let name = chars_of(vars[i].0.as_str());
        let val = chars_of(vars[i].1.as_str());
        let mut pct: Vec<char> = Vec::new();
        pct.push('%');
        crate::text::extend_chars(&mut pct, &name);
        pct.push('%');
        let mut dollar: Vec<char> = Vec::new();
        dollar.push('$');
        crate::text::extend_chars(&mut dollar, &name);
        let a = crate::text::replace_chars(&out, &pct, &val);
        out = crate::text::replace_chars(&a, &dollar, &val);
        proof {
            let dv = vars.deep_view();
            assert(dv[i as int] == (vars@[i as int].0@, vars@[i as int].1@));
            assert(dv.take(i as int + 1).drop_last() =~= dv.take(i as int));
            assert(dv.take(i as int + 1).last() == dv[i as int]);
            assert(pct@ =~= seq!['%'] + name@ + seq!['%']);
            assert(dollar@ =~= seq!['$'] + name@);
        }
        i = i + 1;
    }
    proof {
        assert(vars.deep_view().take(vars.len() as int) =~= vars.deep_view());
    }
    let from = chars_of("\\");
    let to = chars_of("/");
    proof {
        assert(from@ =~= seq!['\\']) by {
            reveal_strlit("\\");
        }
        assert(to@ =~= seq!['/']) by {
            reveal_strlit("/");
        }
    }
    let r = crate::text::replace_chars(&out, &from, &to);
    crate::text::string_of(&r)
}

/// Where the tail of the active trigger's log stands.
#[derive(Clone, Debug)]
pub struct TailPos {
    pub path: String,
    pub offset: u64,
}

/// Whether `pattern` compiles as a `regex::Regex`.
pub uninterp spec fn spec_regex_valid(pattern: Seq<char>) -> bool;

/// `regex::Regex::new(pattern).is_ok()`, named by `spec_regex_valid`.
#[verifier::external_body]
fn regex_valid(pattern: &str) -> (r: bool)
    ensures
        r == spec_regex_valid(pattern@),
{
    regex::Regex::new(pattern).is_ok()
}

/// Whether the regex `pattern` finds a match in `text`; `false` when the
/// pattern does not compile.
pub uninterp spec fn spec_regex_is_match(pattern: Seq<char>, text: Seq<char>) -> bool;

/// `regex::Regex::new(pattern)` then `is_match(text)`, named by
/// `spec_regex_is_match`.
#[verifier::external_body]
fn regex_is_match(pattern: &str, text: &str) -> (r: bool)
    ensures
        r == spec_regex_is_match(pattern@, text@),
{
    match regex::Regex::new(pattern) {
        Ok(re) => re.is_match(text),
        Err(_) => false,
    }
}

/// One poll of the active trigger's log, whose file is now `size` bytes
/// long. A new tail (another file, or none yet) starts at the end of the
/// file, history is not new kills, and only when the pattern compiles. A
/// file that shrank was rotated: read it from the start. Returns the tail
/// afterwards and the offset to read the new bytes from, if any.
pub open spec fn spec_tail_step(
    tail: Option<TailPos>,
    path: Seq<char>,
    size: u64,
    pattern_ok: bool,
) -> (Option<(Seq<char>, u64)>, Option<u64>) {
    match tail {
        Some(t) => if t.path@ == path {
            let off = if size < t.offset {
                0u64
            } else {
                t.offset
            };
            if size == off {
                (Some((path, off)), None)
            } else {
                (Some((path, size)), Some(off))
            }
        } else if pattern_ok {
            (Some((path, size)), None)
        } else {
            (Some((t.path@, t.offset)), None)
        },
        None => if pattern_ok {
            (Some((path, size)), None)
        } else {
            (None, None)
        },
    }
}

pub open spec fn tail_view(t: Option<TailPos>) -> Option<(Seq<char>, u64)> {
    match t {
        Some(p) => Some((p.path@, p.offset)),
        None => None,
    }
}

pub fn log_tail_step(tail: Option<TailPos>, path: &str, size: u64, pattern: &str) -> (r: (
    Option<TailPos>,
    Option<u64>,
))
    ensures
        (tail_view(r.0), r.1) == spec_tail_step(tail, path@, size, spec_regex_valid(pattern@)),
{
    match tail {
        Some(t) => {
            if crate::text::str_eq(t.path.as_str(), path) {
                let off = if size < t.offset {
                    0
                } else {
                    t.offset
                };
                if size == off {
                    (Some(TailPos { path: t.path, offset: off }), None)
                } else {
                    (Some(TailPos { path: t.path, offset: size }), Some(off))
                }
            } else if regex_valid(pattern) {
                (Some(TailPos { path: crate::text::copy_str(path), offset: size }), None)
            } else {
                (Some(t), None)
            }
        },
        None => {
            if regex_valid(pattern) {
                (Some(TailPos { path: crate::text::copy_str(path), offset: size }), None)
            } else {
                (None, None)
            }
        },
    }
}

/// Whether any line of the newly read log text matches the trigger.
pub fn new_lines_match(pattern: &str, text: &str) -> (r: bool)
    ensures
        r == exists|i: int|
            0 <= i < spec_lines(text@).len() && spec_regex_is_match(
                pattern@,
                #[trigger] spec_lines(text@)[i],
            ),
{
    let cs = chars_of(text);
    let ls = lines(&cs);
    let ghost lv = ls@.map_values(|v: Vec<char>| v@);
    let mut i: usize = 0;
    while i < ls.len()
        invariant
            i <= ls.len(),
            lv == ls@.map_values(|v: Vec<char>| v@),
            lv == spec_lines(text@),
            forall|j: int| 0 <= j < i ==> !spec_regex_is_match(pattern@, #[trigger] lv[j]),
        decreases ls.len() - i,
    {
        let line = crate::text::string_of(&ls[i]);
        proof {
            assert(lv[i as int] == line@);
        }
        if regex_is_match(pattern, line.as_str()) {
            return true;
        }
        i = i + 1;
    }
    false
}

// ---------------------------------------------------------------- the 2 s loop

/// What the auto-clip loop does for the current game on one pass.
#[derive(Clone, Copy, Debug, PartialEq, Eq, Structural)]
pub struct AutoClipPlan {
    /// CS2 runs and its GSI config is not in place yet.
    pub install_gsi: bool,
    /// League runs: poll its live-client API.
    pub poll_lol: bool,
    /// League does not run: forget its event position.
    pub reset_lol: bool,
    /// Some game runs: poll its log trigger, if any.
    pub poll_log: bool,
}

pub fn autoclip_plan(game: &str, gsi_config_done: bool) -> (r: AutoClipPlan)
    ensures
        r.install_gsi == (crate::text::spec_contains(game@, "cs2"@) && !gsi_config_done),
        r.poll_lol == crate::text::spec_contains(game@, "league of legends"@),
        r.reset_lol == !r.poll_lol,
        r.poll_log == (game@.len() > 0),
{
    let lol = crate::text::contains(game, "league of legends");
    AutoClipPlan {
        install_gsi: crate::text::contains(game, "cs2") && !gsi_config_done,
        poll_lol: lol,
        reset_lol: !lol,
        poll_log: game.unicode_len() > 0,
    }
}

// ---------------------------------------------------------------- laws

/// Every kill marker lies inside its clip: between its start and its end.
pub proof fn lemma_markers_within_clip(kills: Seq<u64>, now: u64, duration: u64)
    ensures
        forall|i: int|
            0 <= i < spec_markers(kills, now, duration).len() ==> #[trigger] spec_markers(
                kills,
                now,
                duration,
            )[i] <= duration,
    decreases kills.len(),
{
    if kills.len() > 0 {
        lemma_markers_within_clip(kills.drop_last(), now, duration);
        let rest = spec_markers(kills.drop_last(), now, duration);
        let all = spec_markers(kills, now, duration);
        assert forall|i: int| 0 <= i < all.len() implies #[trigger] all[i] <= duration by {
            if i < rest.len() {
                assert(all[i] == rest[i]);
            }
        }
    }
}

/// A kill just recorded is in any clip that ends now, at its very end.
pub proof fn lemma_fresh_kill_marks_clip_end(kills: Seq<u64>, now: u64, duration: u64)
    ensures
        spec_markers(kills.push(now), now, duration).last() == duration,
{
    assert(kills.push(now).drop_last() =~= kills);
}

/// The first GSI payload of a match (count unknown) never clips, and a
/// payload from someone we spectate changes nothing.
pub proof fn lemma_cs2_first_payload_and_spectating(
    fields: Option<(Option<Seq<char>>, Option<Seq<char>>, Option<i64>)>,
    last: i64,
)
    ensures
        !spec_cs2_step(-1i64, fields).1,
        (fields matches Some((provider, player, kills)) && (provider is None || player != provider))
            ==> spec_cs2_step(last, fields) == (last, false),
{
}

/// League's first poll of a match only catches up on the backlog: it
/// never clips.
pub proof fn lemma_lol_backlog_never_clips(me: Seq<char>, events: Seq<LolEvent>)
    ensures
        !spec_lol_step(-1i64, me, events).1,
    decreases events.len(),
{
    if events.len() > 0 {
        lemma_lol_backlog_never_clips(me, events.drop_last());
    }
}

/// The newest event id never goes backwards.
pub proof fn lemma_lol_newest_monotone(last: i64, me: Seq<char>, events: Seq<LolEvent>)
    ensures
        spec_lol_step(last, me, events).0 >= last,
    decreases events.len(),
{
    if events.len() > 0 {
        lemma_lol_newest_monotone(last, me, events.drop_last());
    }
}

} // verus!

//! Backups of favorited clips to a cloud-synced folder (Google Drive,
//! OneDrive, Dropbox...), never while a game runs.
//!
//! Clips live on a local drive; only the keepers (starred clips) are copied
//! to the backup folder once the game has closed, so the sync client
//! uploads them while nobody is playing. A receipt next to each copy ties
//! it to its source, so a status poll never rereads whole clips.

use vstd::prelude::*;

use crate::paths::{file_name, join, spec_file_name, spec_join};
use crate::text::{
    chars_of, concat, contains_chars, copy_str, eq_ignore_ascii_case, replace_chars, spec_ascii_lower,
    spec_ascii_lower_seq, spec_contains,
    spec_eq_ignore_ascii_case, spec_replace, spec_to_lowercase, spec_trim, trim,
};

verus! {

/// What the settings page shows about backups.
#[derive(Clone, Debug)]
pub struct BackupStatus {
    pub enabled: bool,
    pub folder_ok: bool,
    pub backed_up: u32,
    pub pending: u32,
    pub running: bool,
    /// Unix ms of the last finished run.
    pub last_run_ms: Option<u64>,
    pub error: Option<String>,
}

/// Idle-time checks touch the synced drive; once a minute is plenty.
pub const CHECK_EVERY_MS: u64 = 60_000;

/// The configured backup folder: the setting, trimmed; `None` when blank.
pub open spec fn spec_backup_dir(setting: Seq<char>) -> Option<Seq<char>> {
    let t = spec_trim(setting);
    if t.len() == 0 {
        None
    } else {
        Some(t)
    }
}

pub fn backup_dir(setting: &str) -> (r: Option<String>)
    ensures
        r.deep_view() == spec_backup_dir(setting@),
{
    let t = trim(setting);
    if t.as_str().unicode_len() == 0 {
        None
    } else {
        Some(t)
    }
}

/// The receipt that records a finished copy: the backup's path with
/// `.clipforge.json` appended.
pub fn receipt_path(dst: &str) -> (r: String)
    ensures
        r@ == dst@ + ".clipforge.json"@,
{
    concat(dst, ".clipforge.json")
}

/// Copies are written under this name first and renamed when complete, so
/// the sync client never uploads a half-written clip.
pub fn partial_path(dst: &str) -> (r: String)
    ensures
        r@ == dst@ + ".partial"@,
{
    concat(dst, ".partial")
}

/// Where a favorite's copy goes: the backup folder joined with the clip's
/// file name (`None` for a path without one).
pub fn backup_destination(dir: &str, src: &str) -> (r: Option<String>)
    ensures
        r.deep_view() == match spec_file_name(src@) {
            Some(n) => Some(spec_join(dir@, n)),
            None => None,
        },
{
    match file_name(src) {
        Some(n) => Some(join(dir, n.as_str())),
        None => None,
    }
}

/// A favorite that still exists, its destination, and whether its receipt
/// matches the current source and copy.
#[derive(Clone, Debug)]
pub struct FavoriteCopy {
    pub src: String,
    pub dst: String,
    pub verified: bool,
}

pub open spec fn spec_todo(copies: Seq<FavoriteCopy>) -> Seq<(Seq<char>, Seq<char>)>
    decreases copies.len(),
{
    if copies.len() == 0 {
        Seq::empty()
    } else {
        let rest = spec_todo(copies.drop_last());
        let c = copies.last();
        if c.verified {
            rest
        } else {
            rest.push((c.src@, c.dst@))
        }
    }
}

pub open spec fn spec_done(copies: Seq<FavoriteCopy>) -> nat
    decreases copies.len(),
{
    if copies.len() == 0 {
        0
    } else {
        spec_done(copies.drop_last()) + if copies.last().verified {
            1nat
        } else {
            0nat
        }
    }
}

proof fn lemma_done_bounded(copies: Seq<FavoriteCopy>)
    ensures
        spec_done(copies) <= copies.len(),
    decreases copies.len(),
{
    if copies.len() > 0 {
        lemma_done_bounded(copies.drop_last());
    }
}

/// The favorites still to copy, in order, and how many are already backed
/// up.
pub fn split_pending(copies: &Vec<FavoriteCopy>) -> (r: (Vec<(String, String)>, u32))
    requires
        copies.len() <= u32::MAX,
    ensures
        r.0.deep_view() == spec_todo(copies@),
        r.1 == spec_done(copies@),
{
    let mut todo: Vec<(String, String)> = Vec::new();
    let mut done: u32 = 0;
    let mut i: usize = 0;
    while i < copies.len()
        invariant
            i <= copies.len() <= u32::MAX,
            todo.deep_view() == spec_todo(copies@.take(i as int)),
            done == spec_done(copies@.take(i as int)),
        decreases copies.len() - i,
    {
        let c = &copies[i];
        proof {
            assert(copies@.take(i as int + 1).drop_last() =~= copies@.take(i as int));
            assert(copies@.take(i as int + 1).last() == *c);
            lemma_done_bounded(copies@.take(i as int));
        }
        if c.verified {
            done = done + 1;
        } else {
            let ghost prev = todo.deep_view();
            todo.push((c.src.clone(), c.dst.clone()));
            proof {
                assert(todo.deep_view() =~= prev.push((c.src@, c.dst@)));
            }
        }
        i = i + 1;
    }
    proof {
        assert(copies@.take(copies.len() as int) =~= copies@);
    }
    (todo, done)
}

/// The status for the settings page. `pending` is what reading the
/// favorites gave: the number of clips still to copy and the number
/// already backed up, or the error; it is only consulted when a folder is
/// configured and exists.
pub fn backup_status_of(
    running: bool,
    last_run_ms: Option<u64>,
    last_error: Option<String>,
    dir_configured: bool,
    folder_ok: bool,
    pending: Result<(usize, u32), String>,
) -> (r: BackupStatus)
    ensures
        r.running == running,
        r.last_run_ms == last_run_ms,
        r.enabled == dir_configured,
        r.folder_ok == (dir_configured && folder_ok),
        (dir_configured && folder_ok && pending is Ok) ==> r.pending == pending->Ok_0.0 as u32
            && r.backed_up == pending->Ok_0.1 && r.error.deep_view() == last_error.deep_view(),
        (dir_configured && folder_ok && pending is Err) ==> r.pending == 0 && r.backed_up == 0
            && r.error.deep_view() == Some("Couldn't read favorites: "@ + pending->Err_0@),
        !(dir_configured && folder_ok) ==> r.pending == 0 && r.backed_up == 0
            && r.error.deep_view() == last_error.deep_view(),
{
    let mut s = BackupStatus {
        enabled: false,
        folder_ok: false,
        backed_up: 0,
        pending: 0,
        running,
        last_run_ms,
        error: last_error,
    };
    if !dir_configured {
        return s;
    }
    s.enabled = true;
    s.folder_ok = folder_ok;
    if folder_ok {
        match pending {
            Ok((todo, done)) => {
                s.pending = todo as u32;
                s.backed_up = done;
            },
            Err(e) => {
                s.error = Some(concat("Couldn't read favorites: ", e.as_str()));
            },
        }
    }
    s
}

/// Whether a background backup pass starts now, and whether this call
/// stamps the once-a-minute check. Nothing runs while a game does; a
/// forced pass (a clip was starred, or "Back up now") skips the throttle.
/// `ms_since_last_check` is `None` when no check happened yet.
pub open spec fn spec_backup_start(
    game_running: bool,
    force: bool,
    ms_since_last_check: Option<u64>,
    dir_configured: bool,
    dir_exists: bool,
    already_running: bool,
) -> (bool, bool) {
    if game_running {
        (false, false)
    } else if !force && ms_since_last_check is Some && ms_since_last_check->0 < CHECK_EVERY_MS {
        (false, false)
    } else {
        (dir_configured && dir_exists && !already_running, !force)
    }
}

pub fn backup_start(
    game_running: bool,
    force: bool,
    ms_since_last_check: Option<u64>,
    dir_configured: bool,
    dir_exists: bool,
    already_running: bool,
) -> (r: (bool, bool))
    ensures
        r == spec_backup_start(
            game_running,
            force,
            ms_since_last_check,
            dir_configured,
            dir_exists,
            already_running,
        ),
{
    if game_running {
        return (false, false);
    }
    if !force {
        match ms_since_last_check {
            Some(ms) => {
                if ms < CHECK_EVERY_MS {
                    return (false, false);
                }
            },
            None => {},
        }
    }
    (dir_configured && dir_exists && !already_running, !force)
}

/// "Back up now": refused while a game runs, without a folder, or when
/// the folder is gone.
pub fn backup_now_check(game_running: bool, dir: &Option<String>, dir_exists: bool) -> (r: Result<
    (),
    String,
>)
    ensures
        game_running ==> (r matches Err(e) && e@ == "Backups wait until your game closes."@),
        !game_running && dir is None ==> (r matches Err(e) && e@ == "Pick a backup folder first."@),
        !game_running && dir is Some && !dir_exists ==> (r matches Err(e) && e@
            == "Backup folder not found: "@ + dir->0@),
        !game_running && dir is Some && dir_exists ==> r is Ok,
{
    if game_running {
        return Err(copy_str("Backups wait until your game closes."));
    }
    match dir {
        None => Err(copy_str("Pick a backup folder first.")),
        Some(d) => {
            if !dir_exists {
                Err(concat("Backup folder not found: ", d.as_str()))
            } else {
                Ok(())
            }
        },
    }
}

/// What copying one favorite does, given what is already at the
/// destination.
#[derive(Clone, Debug, PartialEq, Eq, Structural)]
pub enum CopyPlan {
    /// Nothing there yet: copy to the `.partial` name, then rename.
    CopyViaPartial,
    /// An identical copy is there (made before receipts existed): keep it
    /// and write its receipt.
    AdoptExisting,
    /// Some other file has the name: never replace it.
    Refuse,
}

pub fn copy_plan(dst_exists: bool, same_contents: bool) -> (r: CopyPlan)
    ensures
        r == (if !dst_exists {
            CopyPlan::CopyViaPartial
        } else if same_contents {
            CopyPlan::AdoptExisting
        } else {
            CopyPlan::Refuse
        }),
{
    if !dst_exists {
        CopyPlan::CopyViaPartial
    } else if same_contents {
        CopyPlan::AdoptExisting
    } else {
        CopyPlan::Refuse
    }
}

/// The error a refused copy reports.
pub fn existing_backup_error() -> (r: String)
    ensures
        r@
            == "A backup with this name already exists. Rename the source clip or choose another backup folder."@,
{
    copy_str(
        "A backup with this name already exists. Rename the source clip or choose another backup folder.",
    )
}

/// The error shown when copying `src` failed with `err`.
pub fn copy_error_message(src: &str, err: &str) -> (r: String)
    ensures
        r@ == "Couldn't back up "@ + match spec_file_name(src@) {
            Some(n) => n,
            None => Seq::empty(),
        } + ": "@ + err@,
{
    let name = match file_name(src) {
        Some(n) => n,
        None => String::new(),
    };
    let a = concat("Couldn't back up ", name.as_str());
    let b = concat(a.as_str(), ": ");
    concat(b.as_str(), err)
}

// ---------------------------------------------------------------- a running pass

/// A backup pass under way: how many favorites it copied, the error that
/// ended it (if any), and whether it ended (an error, or a game started).
#[derive(Clone, Debug)]
pub struct BackupPass {
    pub copied: u32,
    pub error: Option<String>,
    pub finished: bool,
}

impl BackupPass {
    /// A pass that is about to copy `todo`; when reading the favorites
    /// failed (`read_error`), it starts finished with that error.
    pub fn start(read_error: Option<String>) -> (r: Self)
        ensures
            r.copied == 0,
            r.finished == (read_error is Some),
            r.error == read_error,
    {
        let finished = read_error.is_some();
        BackupPass { copied: 0, error: read_error, finished }
    }

    /// Whether the pass copies its next favorite now. A finished pass
    /// copies nothing more; a game starting ends the pass (backups resume
    /// after the game, without an error).
    pub fn should_copy(&mut self, game_running: bool) -> (r: bool)
        ensures
            r == (!old(self).finished && !game_running),
            final(self).finished == (old(self).finished || game_running),
            final(self).copied == old(self).copied,
            final(self).error == old(self).error,
    {
        if self.finished {
            return false;
        }
        if game_running {
            self.finished = true;
            return false;
        }
        true
    }

    /// Record how copying `src` went: a copy counts; an error ends the
    /// pass with its message.
    pub fn after_copy(&mut self, src: &str, result: Result<(), String>)
        ensures
            final(self).copied == (if result is Ok && old(self).copied < u32::MAX {
                (old(self).copied + 1) as u32
            } else {
                old(self).copied
            }),
            final(self).finished == (old(self).finished || result is Err),
            match result {
                Ok(_) => final(self).error == old(self).error,
                Err(e) => final(self).error.deep_view() == Some(
                    "Couldn't back up "@ + match spec_file_name(src@) {
                        Some(n) => n,
                        None => Seq::empty(),
                    } + ": "@ + e@,
                ),
            },
    {
        match result {
            Ok(()) => {
                self.copied = self.copied.saturating_add(1);
            },
            Err(e) => {
                self.error = Some(copy_error_message(src, e.as_str()));
                self.finished = true;
            },
        }
    }
}

/// Which favorites a pass copies, one check and one copy per favorite
/// (`should_copy`, then `after_copy` when it answered yes): `games[k]` is
/// whether a game ran at the `k`-th check, `oks[k]` whether that copy
/// succeeded; `finished` is the pass's state before the first check.
pub open spec fn spec_pass_attempts(finished: bool, games: Seq<bool>, oks: Seq<bool>) -> Seq<bool>
    decreases games.len(),
{
    if games.len() == 0 {
        Seq::empty()
    } else {
        let attempt = !finished && !games[0];
        let next = finished || games[0] || (attempt && !oks[0]);
        seq![attempt] + spec_pass_attempts(next, games.drop_first(), oks.drop_first())
    }
}

/// Once a game starts, a running pass copies no further favorite, whatever
/// the game does afterwards; and after a failed copy it copies nothing
/// more either.
pub proof fn lemma_pass_stops_for_games(finished: bool, games: Seq<bool>, oks: Seq<bool>)
    requires
        oks.len() == games.len(),
    ensures
        spec_pass_attempts(finished, games, oks).len() == games.len(),
        forall|k: int, j: int|
            0 <= k <= j < games.len() && #[trigger] games[k] ==> !#[trigger] spec_pass_attempts(
                finished,
                games,
                oks,
            )[j],
        forall|k: int, j: int|
            #![trigger spec_pass_attempts(finished, games, oks)[k], spec_pass_attempts(finished, games, oks)[j]]
            0 <= k < j < games.len() && spec_pass_attempts(finished, games, oks)[k] && !oks[k]
                ==> !spec_pass_attempts(finished, games, oks)[j],
        finished ==> forall|j: int|
            0 <= j < games.len() ==> !#[trigger] spec_pass_attempts(finished, games, oks)[j],
    decreases games.len(),
{
    if games.len() > 0 {
        let attempt = !finished && !games[0];
        let next = finished || games[0] || (attempt && !oks[0]);
        let gs = games.drop_first();
        let os = oks.drop_first();
        lemma_pass_stops_for_games(next, gs, os);
        let all = spec_pass_attempts(finished, games, oks);
        let rest = spec_pass_attempts(next, gs, os);
        assert(all == seq![attempt] + rest);
        assert forall|k: int, j: int|
            0 <= k <= j < games.len() && #[trigger] games[k] implies !#[trigger] all[j] by {
            if k > 0 {
                assert(gs[k - 1] == games[k]);
                assert(all[j] == rest[j - 1]);
            } else if j > 0 {
                assert(all[j] == rest[j - 1]);
            }
        }
        assert forall|k: int, j: int|
            #![trigger all[k], all[j]]
            0 <= k < j < games.len() && all[k] && !oks[k] implies !all[j] by {
            assert(all[j] == rest[j - 1]);
            if k > 0 {
                assert(all[k] == rest[k - 1]);
                assert(os[k - 1] == oks[k]);
            }
        }
        if finished {
            assert forall|j: int| 0 <= j < games.len() implies !#[trigger] all[j] by {
                if j > 0 {
                    assert(all[j] == rest[j - 1]);
                }
            }
        }
    }
}

// ---------------------------------------------------------------- synced folders

/// The sync client whose folder a normalized (lowercase, forward-slash)
/// path lies in, by the folder names each client uses.
pub open spec fn synced_by_path(p: Seq<char>) -> Option<Seq<char>> {
    if spec_contains(p, "/my drive/"@) || spec_contains(p, "/google drive/"@) {
        Some("Google Drive"@)
    } else if spec_contains(p, "/onedrive"@) {
        Some("OneDrive"@)
    } else if spec_contains(p, "/dropbox/"@) {
        Some("Dropbox"@)
    } else if spec_contains(p, "/iclouddrive/"@) {
        Some("iCloud Drive"@)
    } else {
        None
    }
}

/// Whether `path` lies in a cloud-sync client's folder, by its lowercased,
/// forward-slash form, or else by its volume's label (Google Drive for
/// desktop labels the drive letter it mounts "Google Drive").
pub open spec fn spec_cloud_synced_provider(path: Seq<char>, label: Option<Seq<char>>) -> Option<
    Seq<char>,
> {
    let p = spec_replace(spec_to_lowercase(path), seq!['\\'], seq!['/']);
    match synced_by_path(p) {
        Some(n) => Some(n),
        None => if label is Some && spec_eq_ignore_ascii_case(label->0, "Google Drive"@) {
            Some("Google Drive"@)
        } else {
            None
        },
    }
}

/// The characters of an optional label.
pub open spec fn label_view(l: Option<&str>) -> Option<Seq<char>> {
    match l {
        Some(s) => Some(s@),
        None => None,
    }
}

/// Heuristic: the cloud-sync client whose folder holds `path`, used to warn
/// when the clips folder itself is synced (uploads mid-match).
/// `volume_label` is the label of the volume the path is on, if any.
pub fn cloud_synced_provider(path: &str, volume_label: Option<&str>) -> (r: Option<&'static str>)
    ensures
        match r {
            Some(n) => spec_cloud_synced_provider(path@, label_view(volume_label))
                == Some(n@),
            None => spec_cloud_synced_provider(path@, label_view(volume_label)) is None,
        },
{
    let lower = path.to_lowercase();
    let cs = chars_of(lower.as_str());
    let from = chars_of("\\");
    let to = chars_of("/");
    proof {
        assert(from@ =~= seq!['\\']) by {
            reveal_strlit("\\");
        }
        assert(to@ =~= seq!['/']) by {
            reveal_strlit("/");
        }
    }
    let p = replace_chars(&cs, &from, &to);
    if contains_chars(&p, &chars_of("/my drive/")) || contains_chars(&p, &chars_of("/google drive/")) {
        return Some("Google Drive");
    }
    if contains_chars(&p, &chars_of("/onedrive")) {
        return Some("OneDrive");
    }
    if contains_chars(&p, &chars_of("/dropbox/")) {
        return Some("Dropbox");
    }
    if contains_chars(&p, &chars_of("/iclouddrive/")) {
        return Some("iCloud Drive");
    }
    match volume_label {
        Some(l) => {
            if eq_ignore_ascii_case(l, "Google Drive") {
                Some("Google Drive")
            } else {
                None
            }
        },
        None => None,
    }
}

/// `char::to_ascii_uppercase`: `a`..=`z` become `A`..=`Z`, the rest stay.
pub open spec fn spec_ascii_upper(c: char) -> char {
    if 'a' <= c <= 'z' {
        ((c as u32) - 32) as char
    } else {
        c
    }
}

/// `str::to_ascii_uppercase`, character by character.
pub open spec fn spec_ascii_upper_seq(s: Seq<char>) -> Seq<char> {
    s.map_values(|c: char| spec_ascii_upper(c))
}

/// A backslash made a forward slash.
pub open spec fn spec_slash(c: char) -> char {
    if c == '\\' {
        '/'
    } else {
        c
    }
}

/// Replacing one character by another is a character-by-character map.
proof fn lemma_replace_backslashes(s: Seq<char>)
    ensures
        spec_replace(s, seq!['\\'], seq!['/']) == s.map_values(|c: char| spec_slash(c)),
    decreases s.len(),
{
    if s.len() > 0 {
        lemma_replace_backslashes(s.skip(1));
        assert(s.take(1) == seq!['\\'] <==> s[0] == '\\') by {
            if s[0] == '\\' {
                assert(s.take(1) =~= seq!['\\']);
            }
            if s.take(1) == seq!['\\'] {
                assert(s.take(1)[0] == s[0]);
            }
        }
        assert(s.map_values(|c: char| spec_slash(c)) =~= seq![spec_slash(s[0])] + s.skip(
            1,
        ).map_values(|c: char| spec_slash(c)));
    } else {
        assert(s.map_values(|c: char| spec_slash(c)) =~= s);
    }
}

/// The normalized form `cloud_synced_provider` looks for folder names in,
/// where std's lowercase mapping is the ASCII one.
proof fn lemma_normal_form(path: Seq<char>)
    requires
        spec_to_lowercase(path) == spec_ascii_lower_seq(path),
    ensures
        spec_replace(spec_to_lowercase(path), seq!['\\'], seq!['/']) == path.map_values(
            |c: char| spec_slash(spec_ascii_lower(c)),
        ),
{
    lemma_replace_backslashes(spec_ascii_lower_seq(path));
    assert(spec_ascii_lower_seq(path).map_values(|c: char| spec_slash(c)) =~= path.map_values(
        |c: char| spec_slash(spec_ascii_lower(c)),
    ));
}

/// Whether a path lies in a cloud-synced folder does not depend on its
/// letter case or on how its separators are written: upper-casing its
/// ASCII letters, or writing its backslashes as forward slashes, gives the
/// same answer, whatever the volume label. This holds where std's
/// lowercase mapping is the ASCII one on those paths (as for ASCII paths);
/// std's documentation does not state that, so it stands here as a
/// condition.
pub proof fn lemma_synced_ignores_case_and_slashes(path: Seq<char>, label: Option<Seq<char>>)
    requires
        spec_to_lowercase(path) == spec_ascii_lower_seq(path),
        spec_to_lowercase(spec_ascii_upper_seq(path)) == spec_ascii_lower_seq(
            spec_ascii_upper_seq(path),
        ),
        spec_to_lowercase(spec_replace(path, seq!['\\'], seq!['/'])) == spec_ascii_lower_seq(
            spec_replace(path, seq!['\\'], seq!['/']),
        ),
    ensures
        spec_cloud_synced_provider(spec_ascii_upper_seq(path), label)
            == spec_cloud_synced_provider(path, label),
        spec_cloud_synced_provider(spec_replace(path, seq!['\\'], seq!['/']), label)
            == spec_cloud_synced_provider(path, label),
{
    let up = spec_ascii_upper_seq(path);
    let sl = spec_replace(path, seq!['\\'], seq!['/']);
    lemma_normal_form(path);
    lemma_normal_form(up);
    lemma_normal_form(sl);
    lemma_replace_backslashes(path);
    let f = |c: char| spec_slash(spec_ascii_lower(c));
    assert forall|i: int| 0 <= i < path.len() implies #[trigger] f(up[i]) == f(path[i]) by {
        let c = path[i];
        if 'a' <= c <= 'z' {
            assert(up[i] == ((c as u32) - 32) as char);
        }
    }
    assert(up.map_values(f) =~= path.map_values(f));
    assert forall|i: int| 0 <= i < path.len() implies #[trigger] f(sl[i]) == f(path[i]) by {
        assert(sl[i] == spec_slash(path[i]));
    }
    assert(sl.map_values(f) =~= path.map_values(f));
}

// ---------------------------------------------------------------- laws

/// Backups never start while a game runs (uploads would compete with
/// online play), forced or not.
pub proof fn lemma_no_backup_while_gaming(
    force: bool,
    ms_since_last_check: Option<u64>,
    dir_configured: bool,
    dir_exists: bool,
    already_running: bool,
)
    ensures
        !spec_backup_start(true, force, ms_since_last_check, dir_configured, dir_exists, already_running).0,
{
}

/// Only one pass runs at a time, and none without an existing folder.
pub proof fn lemma_backup_needs_folder_and_idle(
    game_running: bool,
    force: bool,
    ms_since_last_check: Option<u64>,
    dir_configured: bool,
    dir_exists: bool,
    already_running: bool,
)
    requires
        spec_backup_start(game_running, force, ms_since_last_check, dir_configured, dir_exists, already_running).0,
    ensures
        !game_running && dir_configured && dir_exists && !already_running,
        !force ==> ms_since_last_check is None || ms_since_last_check->0 >= CHECK_EVERY_MS,
{
}

/// Every favorite still on disk is either backed up or pending, never
/// both.
pub proof fn lemma_favorites_accounted(copies: Seq<FavoriteCopy>)
    ensures
        spec_todo(copies).len() + spec_done(copies) == copies.len(),
    decreases copies.len(),
{
    if copies.len() > 0 {
        lemma_favorites_accounted(copies.drop_last());
    }
}

} // verus!

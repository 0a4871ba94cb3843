//! The clip library: settings and their defaults, the watched-game and
//! blacklist lists, favorites, the library listing and the storage cap,
//! and the names of the files derived from a clip.

use vstd::prelude::*;

use crate::paths::{
    extension, file_name, file_stem, join, parent, spec_extension, spec_file_name, spec_file_stem,
    spec_join, spec_parent, spec_with_file_name, with_file_name,
};
use crate::sorting::{stable_sort, with_key, SortKey};
use crate::text::{
    chars_of, concat, contains_string, copy_str, eq_ignore_ascii_case, replace_chars,
    spec_eq_ignore_ascii_case, spec_replace, spec_to_lowercase, str_eq, string_of,
};

verus! {

/// Where clips go before the first-run setup finds a better folder.
pub const DEFAULT_CLIPS_DIR: &'static str = "D:/RECORDINGS/Clips";

/// The app's settings, as far as the library's decisions read them.
/// (Clip lengths, bitrates and the storage cap in GB are fractional and
/// live with the app, which converts them where the library needs them.)
#[derive(Clone, Debug)]
pub struct Settings {
    pub host: String,
    pub port: u16,
    pub password: Option<String>,
    pub clips_dir: String,
    pub auto_connect: bool,
    pub game_exes: Vec<String>,
    /// Exes the fullscreen auto-learn must never re-add to `game_exes`
    /// (removed games, and non-games that were wrongly auto-detected).
    pub game_blacklist: Vec<String>,
    /// Voice-chat app whose audio gets its own recording track.
    pub vc_exe: String,
    pub auto_launch_obs: bool,
    pub auto_manage_buffer: bool,
    pub obs_path: String,
    pub hotkey_save: String,
    pub hotkey_short: String,
    pub auto_clip: bool,
    /// Recording FPS (30/60/120).
    pub video_fps: u32,
    /// Output height; 0 = native canvas resolution.
    pub video_height: u32,
    /// "auto" | "av1" | "hevc" | "h264".
    pub encoder_pref: String,
    /// Folder favorites are backed up to; empty = backups off.
    pub backup_dir: String,
}

pub open spec fn default_game_exes_spec() -> Seq<Seq<char>> {
    seq![
        "rainbowsix.exe"@,
        "rainbowsix_dx11.exe"@,
        "rainbowsix_be.exe"@,
        "cs2.exe"@,
        "valorant-win64-shipping.exe"@,
        "fortniteclient-win64-shipping.exe"@,
        "league of legends.exe"@,
        "r5apex.exe"@,
        "r5apex_dx12.exe"@,
        "overwatch.exe"@,
        "marathon.exe"@,
        "uagame.exe"@,
        "cod.exe"@,
        "helldivers2.exe"@,
        "gta5.exe"@,
        "rocketleague.exe"@,
        "deadlock.exe"@,
    ]
}

/// The games watched out of the box.
pub fn default_game_exes() -> (r: Vec<String>)
    ensures
        r.deep_view() == default_game_exes_spec(),
{
    let mut v: Vec<String> = Vec::new();
    v.push(copy_str("rainbowsix.exe"));
    v.push(copy_str("rainbowsix_dx11.exe"));
    v.push(copy_str("rainbowsix_be.exe"));
    v.push(copy_str("cs2.exe"));
    v.push(copy_str("valorant-win64-shipping.exe"));
    v.push(copy_str("fortniteclient-win64-shipping.exe"));
    v.push(copy_str("league of legends.exe"));
    v.push(copy_str("r5apex.exe"));
    v.push(copy_str("r5apex_dx12.exe"));
    v.push(copy_str("overwatch.exe"));
    v.push(copy_str("marathon.exe"));
    v.push(copy_str("uagame.exe"));
    v.push(copy_str("cod.exe"));
    v.push(copy_str("helldivers2.exe"));
    v.push(copy_str("gta5.exe"));
    v.push(copy_str("rocketleague.exe"));
    v.push(copy_str("deadlock.exe"));
    proof {
        assert(v.deep_view() =~= default_game_exes_spec());
    }
    v
}

pub fn default_true() -> (r: bool)
    ensures
        r,
{
    true
}

pub fn default_obs_path() -> (r: String)
    ensures
        r@ == "C:/Program Files/obs-studio/bin/64bit/obs64.exe"@,
{
    copy_str("C:/Program Files/obs-studio/bin/64bit/obs64.exe")
}

pub fn default_fps() -> (r: u32)
    ensures
        r == 60,
{
    60
}

pub fn default_encoder() -> (r: String)
    ensures
        r@ == "auto"@,
{
    copy_str("auto")
}

pub fn default_vc_exe() -> (r: String)
    ensures
        r@ == "discord.exe"@,
{
    copy_str("discord.exe")
}

pub fn default_hotkey_save() -> (r: String)
    ensures
        r@ == "alt+f10"@,
{
    copy_str("alt+f10")
}

pub fn default_hotkey_short() -> (r: String)
    ensures
        r@ == "shift+alt+f10"@,
{
    copy_str("shift+alt+f10")
}

impl Settings {
    /// The settings a brand-new install starts from.
    pub open spec fn is_default(self) -> bool {
        &&& self.host@ == "localhost"@
        &&& self.port == 4455
        &&& self.password is None
        &&& self.clips_dir@ == DEFAULT_CLIPS_DIR@
        &&& !self.auto_connect
        &&& self.game_exes.deep_view() == default_game_exes_spec()
        &&& self.game_blacklist@.len() == 0
        &&& self.vc_exe@ == "discord.exe"@
        &&& self.auto_launch_obs
        &&& self.auto_manage_buffer
        &&& self.obs_path@ == "C:/Program Files/obs-studio/bin/64bit/obs64.exe"@
        &&& self.hotkey_save@ == "alt+f10"@
        &&& self.hotkey_short@ == "shift+alt+f10"@
        &&& !self.auto_clip
        &&& self.video_fps == 60
        &&& self.video_height == 0
        &&& self.encoder_pref@ == "auto"@
        &&& self.backup_dir@.len() == 0
    }

    /// Whether the user blacklisted `exe` (compared ignoring ASCII case):
    /// such an exe is never treated as a running game.
    pub open spec fn spec_capture_blocked(self, exe: Seq<char>) -> bool {
        exists|i: int|
            0 <= i < self.game_blacklist@.len() && spec_eq_ignore_ascii_case(
                #[trigger] self.game_blacklist@[i]@,
                exe,
            )
    }

    pub fn capture_blocked(&self, exe: &str) -> (r: bool)
        ensures
            r == self.spec_capture_blocked(exe@),
    {
        let mut i: usize = 0;
        while i < self.game_blacklist.len()
            invariant
                i <= self.game_blacklist@.len(),
                forall|k: int|
                    0 <= k < i ==> !spec_eq_ignore_ascii_case(
                        #[trigger] self.game_blacklist@[k]@,
                        exe@,
                    ),
            decreases self.game_blacklist.len() - i,
        {
            if eq_ignore_ascii_case(self.game_blacklist[i].as_str(), exe) {
                return true;
            }
            i = i + 1;
        }
        false
    }
}

impl Default for Settings {
    fn default() -> (r: Self)
        ensures
            r.is_default(),
    {
        Settings {
            host: copy_str("localhost"),
            port: 4455,
            password: None,
            clips_dir: copy_str(DEFAULT_CLIPS_DIR),
            auto_connect: false,
            game_exes: default_game_exes(),
            game_blacklist: Vec::new(),
            vc_exe: default_vc_exe(),
            auto_launch_obs: true,
            auto_manage_buffer: true,
            obs_path: default_obs_path(),
            hotkey_save: default_hotkey_save(),
            hotkey_short: default_hotkey_short(),
            auto_clip: false,
            video_fps: default_fps(),
            video_height: 0,
            encoder_pref: default_encoder(),
            backup_dir: String::new(),
        }
    }
}

// ---------------------------------------------------------------- library listing

/// One clip in the library.
#[derive(Clone, Debug)]
pub struct ClipInfo {
    pub path: String,
    pub name: String,
    pub modified_ms: u64,
    pub size_bytes: u64,
}

pub struct ClipView {
    pub path: Seq<char>,
    pub name: Seq<char>,
    pub modified_ms: u64,
    pub size_bytes: u64,
}

impl View for ClipInfo {
    type V = ClipView;

    open spec fn view(&self) -> ClipView {
        ClipView {
            path: self.path@,
            name: self.name@,
            modified_ms: self.modified_ms,
            size_bytes: self.size_bytes,
        }
    }
}

/// The library lists newest first.
impl SortKey for ClipInfo {
    type K = u64;

    open spec fn key(self) -> u64 {
        self.modified_ms
    }

    open spec fn key_lt(a: u64, b: u64) -> bool {
        a > b
    }

    proof fn lemma_lt_irreflexive(a: u64) {
    }

    proof fn lemma_lt_transitive(a: u64, b: u64, c: u64) {
    }

    fn sorts_before(&self, other: &Self) -> (r: bool) {
        self.modified_ms > other.modified_ms
    }
}

/// A directory entry as read from disk: its path and, when its metadata
/// could be read, (modification time in Unix ms, size in bytes).
#[derive(Clone, Debug)]
pub struct DirEntry {
    pub path: String,
    pub metadata: Option<(u64, u64)>,
}

pub open spec fn is_video_extension(ext: Seq<char>) -> bool {
    ext == "mp4"@ || ext == "mkv"@
}

/// The clip a directory entry stands for: an `.mp4` or `.mkv` file (any
/// case) with readable metadata and a file name; its path with forward
/// slashes.
pub open spec fn spec_clip_of(e: DirEntry) -> Option<ClipView> {
    match (spec_extension(e.path@), e.metadata, spec_file_name(e.path@)) {
        (Some(ext), Some((modified, size)), Some(name)) => if is_video_extension(
            spec_to_lowercase(ext),
        ) {
            Some(
                ClipView {
                    path: spec_replace(e.path@, seq!['\\'], seq!['/']),
                    name,
                    modified_ms: modified,
                    size_bytes: size,
                },
            )
        } else {
            None
        },
        _ => None,
    }
}

/// The clips among `entries`, in directory order.
pub open spec fn spec_clips_of(entries: Seq<DirEntry>) -> Seq<ClipView>
    decreases entries.len(),
{
    if entries.len() == 0 {
        Seq::empty()
    } else {
        let rest = spec_clips_of(entries.drop_last());
        match spec_clip_of(entries.last()) {
            Some(c) => rest.push(c),
            None => rest,
        }
    }
}

/// The clips of `s` modified at `t`, in order.
pub open spec fn views_at(s: Seq<ClipView>, t: u64) -> Seq<ClipView>
    decreases s.len(),
{
    if s.len() == 0 {
        Seq::empty()
    } else if s.last().modified_ms == t {
        views_at(s.drop_last(), t).push(s.last())
    } else {
        views_at(s.drop_last(), t)
    }
}

pub open spec fn clip_views(s: Seq<ClipInfo>) -> Seq<ClipView> {
    s.map_values(|c: ClipInfo| c@)
}

proof fn lemma_views_at(s: Seq<ClipInfo>, t: u64)
    ensures
        clip_views(with_key(s, t)) == views_at(clip_views(s), t),
    decreases s.len(),
{
    if s.len() > 0 {
        lemma_views_at(s.drop_last(), t);
        assert(clip_views(s).drop_last() =~= clip_views(s.drop_last()));
        assert(clip_views(with_key(s.drop_last(), t).push(s.last())) =~= clip_views(
            with_key(s.drop_last(), t),
        ).push(s.last()@));
    } else {
        assert(clip_views(with_key(s, t)) =~= Seq::<ClipView>::empty());
    }
}

/// `r` is the library listing of `found`: newest first, and clips with the
/// same modification time in the order they were found.
pub open spec fn is_listing_of(r: Seq<ClipView>, found: Seq<ClipView>) -> bool {
    &&& forall|i: int, j: int|
        0 <= i < j < r.len() ==> #[trigger] r[i].modified_ms >= #[trigger] r[j].modified_ms
    &&& forall|t: u64| #[trigger] views_at(r, t) == views_at(found, t)
}

/// A listed clip carries its file's name (the last component of the path
/// it was found at), its path with forward slashes, and the file's
/// modification time and size.
pub proof fn lemma_clip_of_names(e: DirEntry)
    ensures
        spec_clip_of(e) matches Some(c) ==> {
            &&& spec_file_name(e.path@) == Some(c.name)
            &&& c.path == spec_replace(e.path@, seq!['\\'], seq!['/'])
            &&& e.metadata == Some((c.modified_ms, c.size_bytes))
        },
{
}

proof fn lemma_views_at_contains(s: Seq<ClipView>, t: u64, x: ClipView)
    ensures
        views_at(s, t).contains(x) <==> (s.contains(x) && x.modified_ms == t),
    decreases s.len(),
{
    if s.len() > 0 {
        let init = s.drop_last();
        lemma_views_at_contains(init, t, x);
        let v = views_at(s, t);
        let vi = views_at(init, t);
        if s.last().modified_ms == t {
            assert(v == vi.push(s.last()));
        } else {
            assert(v == vi);
        }
        if s.contains(x) && x.modified_ms == t {
            let k = choose|k: int| 0 <= k < s.len() && s[k] == x;
            if k < init.len() {
                assert(init[k] == x);
                assert(init.contains(x));
                let j = choose|j: int| 0 <= j < vi.len() && vi[j] == x;
                assert(v[j] == x);
            } else {
                assert(v[v.len() - 1] == x);
            }
        }
        if v.contains(x) {
            let k = choose|k: int| 0 <= k < v.len() && v[k] == x;
            if k < vi.len() {
                assert(vi[k] == x);
                assert(vi.contains(x));
                let j = choose|j: int| 0 <= j < init.len() && init[j] == x;
                assert(s[j] == x);
            } else {
                assert(s[s.len() - 1] == x);
            }
        }
    }
}

proof fn lemma_clips_of_from(entries: Seq<DirEntry>, x: ClipView)
    requires
        spec_clips_of(entries).contains(x),
    ensures
        exists|i: int| 0 <= i < entries.len() && spec_clip_of(#[trigger] entries[i]) == Some(x),
    decreases entries.len(),
{
    let init = entries.drop_last();
    let rest = spec_clips_of(init);
    if rest.contains(x) {
        lemma_clips_of_from(init, x);
        let i = choose|i: int| 0 <= i < init.len() && spec_clip_of(#[trigger] init[i]) == Some(x);
        assert(entries[i] == init[i]);
    } else {
        let k = choose|k: int| 0 <= k < spec_clips_of(entries).len() && spec_clips_of(entries)[k]
            == x;
        assert(spec_clip_of(entries[entries.len() - 1]) == Some(x));
    }
}

/// Every clip of a library listing comes from one of the entries read:
/// its name is that entry's file name, its path that entry's path with
/// forward slashes.
pub proof fn lemma_listed_clips_come_from_entries(entries: Seq<DirEntry>, listed: Seq<ClipView>)
    requires
        is_listing_of(listed, spec_clips_of(entries)),
    ensures
        forall|k: int|
            0 <= k < listed.len() ==> exists|i: int|
                0 <= i < entries.len() && spec_file_name(entries[i].path@) == Some(
                    #[trigger] listed[k].name,
                ) && listed[k].path == spec_replace(entries[i].path@, seq!['\\'], seq!['/']),
{
    assert forall|k: int| 0 <= k < listed.len() implies exists|i: int|
        0 <= i < entries.len() && spec_file_name(entries[i].path@) == Some(
            #[trigger] listed[k].name,
        ) && listed[k].path == spec_replace(entries[i].path@, seq!['\\'], seq!['/']) by {
        let x = listed[k];
        let t = x.modified_ms;
        lemma_views_at_contains(listed, t, x);
        assert(views_at(listed, t) == views_at(spec_clips_of(entries), t));
        lemma_views_at_contains(spec_clips_of(entries), t, x);
        lemma_clips_of_from(entries, x);
        let i = choose|i: int| 0 <= i < entries.len() && spec_clip_of(#[trigger] entries[i]) == Some(x);
        lemma_clip_of_names(entries[i]);
    }
}

fn clip_of(e: &DirEntry) -> (r: Option<ClipInfo>)
    ensures
        match r {
            Some(c) => spec_clip_of(*e) == Some(c@),
            None => spec_clip_of(*e) is None,
        },
{
    let ext = match extension(e.path.as_str()) {
        Some(x) => x,
        None => return None,
    };
    let (modified, size) = match e.metadata {
        Some(m) => m,
        None => return None,
    };
    let name = match file_name(e.path.as_str()) {
        Some(n) => n,
        None => return None,
    };
    let ext = ext.to_lowercase();
    if !str_eq(ext.as_str(), "mp4") && !str_eq(ext.as_str(), "mkv") {
        return None;
    }
    let cs = chars_of(e.path.as_str());
    let mut back: Vec<char> = Vec::new();
    back.push('\\');
    let mut fwd: Vec<char> = Vec::new();
    fwd.push('/');
    let path = replace_chars(&cs, &back, &fwd);
    proof {
        assert(back@ =~= seq!['\\']);
        assert(fwd@ =~= seq!['/']);
    }
    Some(ClipInfo { path: string_of(&path), name, modified_ms: modified, size_bytes: size })
}

/// The library: the `.mp4`/`.mkv` files among a folder's entries, newest
/// first (ties keep directory order).
pub fn list_clips(entries: &Vec<DirEntry>) -> (r: Vec<ClipInfo>)
    ensures
        is_listing_of(clip_views(r@), spec_clips_of(entries@)),
{
    let mut found: Vec<ClipInfo> = Vec::new();
    let mut i: usize = 0;
    while i < entries.len()
        invariant
            i <= entries.len(),
            clip_views(found@) == spec_clips_of(entries@.take(i as int)),
        decreases entries.len() - i,
    {
        let c = clip_of(&entries[i]);
        proof {
            assert(entries@.take(i as int + 1).drop_last() =~= entries@.take(i as int));
            assert(entries@.take(i as int + 1).last() == entries@[i as int]);
        }
        match c {
            Some(c) => {
                let ghost prev = found@;
                found.push(c);
                proof {
                    assert(clip_views(found@) =~= clip_views(prev).push(found@.last()@));
                }
            },
            None => {},
        }
        i = i + 1;
    }
    proof {
        assert(entries@.take(entries.len() as int) =~= entries@);
    }
    let ghost f = found@;
    let r = stable_sort(found);
    proof {
        assert forall|t: u64| #[trigger] views_at(clip_views(r@), t) == views_at(clip_views(f), t) by {
            lemma_views_at(r@, t);
            lemma_views_at(f, t);
            assert(with_key(r@, t) == with_key(f, t));
        }
        assert forall|i: int, j: int| 0 <= i < j < clip_views(r@).len() implies #[trigger] clip_views(
            r@,
        )[i].modified_ms >= #[trigger] clip_views(r@)[j].modified_ms by {
            assert(!ClipInfo::key_lt(r@[j].key(), r@[i].key()));
        }
    }
    r
}

// ---------------------------------------------------------------- storage cap

/// Total size of the clips.
pub open spec fn spec_total(s: Seq<ClipInfo>) -> nat
    decreases s.len(),
{
    if s.len() == 0 {
        0
    } else {
        spec_total(s.drop_last()) + s.last().size_bytes as nat
    }
}

proof fn lemma_total_prefix(s: Seq<ClipInfo>, i: int, j: int)
    requires
        0 <= i <= j <= s.len(),
    ensures
        spec_total(s.take(i)) <= spec_total(s.take(j)),
    decreases j - i,
{
    if i < j {
        lemma_total_prefix(s, i, j - 1);
        assert(s.take(j).drop_last() =~= s.take(j - 1));
    }
}

proof fn lemma_total_last(s: Seq<ClipInfo>, i: int)
    requires
        0 <= i < s.len(),
    ensures
        spec_total(s.take(i + 1)) == spec_total(s.take(i)) + s[i].size_bytes,
{
    assert(s.take(i + 1).drop_last() =~= s.take(i));
}

/// The sum of the clip sizes (it must fit in 64 bits).
pub fn total_size(clips: &Vec<ClipInfo>) -> (r: u64)
    requires
        spec_total(clips@) <= u64::MAX,
    ensures
        r == spec_total(clips@),
{
    let mut acc: u64 = 0;
    let mut i: usize = 0;
    while i < clips.len()
        invariant
            i <= clips@.len(),
            spec_total(clips@) <= u64::MAX,
            acc == spec_total(clips@.take(i as int)),
        decreases clips.len() - i,
    {
        proof {
            lemma_total_last(clips@, i as int);
            lemma_total_prefix(clips@, i + 1, clips@.len() as int);
            assert(clips@.take(clips@.len() as int) =~= clips@);
        }
        acc = acc + clips[i].size_bytes;
        i = i + 1;
    }
    proof {
        assert(clips@.take(i as int) =~= clips@);
    }
    acc
}

/// Number of clips that are not favorites.
pub open spec fn non_favorites(clips: Seq<ClipInfo>, favorites: Seq<Seq<char>>) -> nat
    decreases clips.len(),
{
    if clips.len() == 0 {
        0
    } else {
        non_favorites(clips.drop_last(), favorites) + if favorites.contains(clips.last().path@) {
            0nat
        } else {
            1nat
        }
    }
}

/// The next clip the storage cap recycles: while the folder is over the
/// cap, the oldest non-favorite clip before index `before` (the listing is
/// newest first, so the oldest is the one with the highest index).
pub fn next_cap_victim(
    clips: &Vec<ClipInfo>,
    favorites: &Vec<String>,
    cap_bytes: u64,
    total: u64,
    before: usize,
) -> (r: Option<usize>)
    requires
        before <= clips@.len(),
    ensures
        total <= cap_bytes ==> r is None,
        total > cap_bytes ==> match r {
            Some(i) => i < before && !favorites.deep_view().contains(clips@[i as int].path@) && (
            forall|j: int|
                i < j < before ==> favorites.deep_view().contains(#[trigger] clips@[j].path@)),
            None => forall|j: int|
                0 <= j < before ==> favorites.deep_view().contains(#[trigger] clips@[j].path@),
        },
{
    if total <= cap_bytes {
        return None;
    }
    let mut j: usize = before;
    while j > 0
        invariant
            j <= before <= clips@.len(),
            total > cap_bytes,
            forall|k: int|
                j <= k < before ==> favorites.deep_view().contains(#[trigger] clips@[k].path@),
        decreases j,
    {
        if !contains_string(favorites, clips[j - 1].path.as_str()) {
            return Some(j - 1);
        }
        j = j - 1;
    }
    None
}

/// The recycle bin as the storage cap uses it. `handed` is ghost
/// bookkeeping (nothing of it exists at run time): in order, each path
/// handed to `trash::delete` and whether the call reported success.
pub struct RecycleBin {
    pub handed: Ghost<Seq<(Seq<char>, bool)>>,
}

impl RecycleBin {
    /// A bin that nothing has been handed to yet.
    pub fn new() -> (r: Self)
        ensures
            r.handed@ == Seq::<(Seq<char>, bool)>::empty(),
    {
        RecycleBin { handed: Ghost(Seq::empty()) }
    }
}

/// `trash::delete`: move a file to the system recycle bin. Whether the bin
/// takes it is up to the file system, so nothing is promised of the
/// result; the bin's ghost log records that `path` was handed over and
/// whether the call answered `Ok`.
#[verifier::external_body]
fn move_to_trash(bin: &mut RecycleBin, path: &str) -> (r: Result<(), String>)
    ensures
        final(bin).handed@ == old(bin).handed@.push((path@, r is Ok)),
{
    trash::delete(path).map_err(|e| e.to_string())
}

proof fn lemma_non_favorites_len(clips: Seq<ClipInfo>, favorites: Seq<Seq<char>>)
    ensures
        non_favorites(clips, favorites) <= clips.len(),
    decreases clips.len(),
{
    if clips.len() > 0 {
        lemma_non_favorites_len(clips.drop_last(), favorites);
    }
}

proof fn lemma_non_favorites_bound(clips: Seq<ClipInfo>, favorites: Seq<Seq<char>>, i: int, j: int)
    requires
        0 <= i <= j <= clips.len(),
    ensures
        non_favorites(clips.take(i), favorites) <= non_favorites(clips.take(j), favorites),
    decreases j - i,
{
    if i < j {
        lemma_non_favorites_bound(clips, favorites, i, j - 1);
        assert(clips.take(j).drop_last() =~= clips.take(j - 1));
    }
}

/// Whether `log` is what the storage cap hands the recycle bin when it
/// walks the clips before index `before` (newest first) while they total
/// `total` bytes: from the oldest clip (the highest index) towards the
/// newest, favorites are skipped and every other clip's path is handed
/// over while the total exceeds `cap`; a clip the bin took (`true`) leaves
/// the total, one it refused stays. The walk ends once the total fits or
/// no clip is left.
pub open spec fn is_cap_walk(
    clips: Seq<ClipInfo>,
    favorites: Seq<Seq<char>>,
    cap: u64,
    total: int,
    before: int,
    log: Seq<(Seq<char>, bool)>,
) -> bool
    decreases before,
{
    if before <= 0 || total <= cap {
        log.len() == 0
    } else {
        let i = before - 1;
        if favorites.contains(clips[i].path@) {
            is_cap_walk(clips, favorites, cap, total, i, log)
        } else {
            &&& log.len() > 0
            &&& log[0].0 == clips[i].path@
            &&& is_cap_walk(
                clips,
                favorites,
                cap,
                if log[0].1 {
                    total - clips[i].size_bytes
                } else {
                    total
                },
                i,
                log.drop_first(),
            )
        }
    }
}

/// The indices of the clips the walk hands over, in the order it does.
pub open spec fn cap_walk_indices(
    clips: Seq<ClipInfo>,
    favorites: Seq<Seq<char>>,
    cap: u64,
    total: int,
    before: int,
    log: Seq<(Seq<char>, bool)>,
) -> Seq<int>
    decreases before,
{
    if before <= 0 || total <= cap || log.len() == 0 {
        Seq::empty()
    } else {
        let i = before - 1;
        if favorites.contains(clips[i].path@) {
            cap_walk_indices(clips, favorites, cap, total, i, log)
        } else {
            seq![i] + cap_walk_indices(
                clips,
                favorites,
                cap,
                if log[0].1 {
                    total - clips[i].size_bytes
                } else {
                    total
                },
                i,
                log.drop_first(),
            )
        }
    }
}

/// How many clips of a bin log the bin took.
pub open spec fn taken_count(log: Seq<(Seq<char>, bool)>) -> nat
    decreases log.len(),
{
    if log.len() == 0 {
        0
    } else {
        taken_count(log.drop_last()) + if log.last().1 {
            1nat
        } else {
            0nat
        }
    }
}

/// The index just above the `k`-th handed clip's: the walk's start for the
/// first one, the previous handed clip for the others.
pub open spec fn walk_upper(idx: Seq<int>, k: int, before: int) -> int {
    if k == 0 {
        before
    } else {
        idx[k - 1]
    }
}

/// Favorites above the next clip to hand over change nothing of the walk.
proof fn lemma_cap_walk_skip(
    clips: Seq<ClipInfo>,
    favorites: Seq<Seq<char>>,
    cap: u64,
    total: int,
    before: int,
    i: int,
    log: Seq<(Seq<char>, bool)>,
)
    requires
        0 <= i <= before <= clips.len(),
        forall|j: int| i <= j < before ==> favorites.contains(#[trigger] clips[j].path@),
    ensures
        is_cap_walk(clips, favorites, cap, total, before, log) == is_cap_walk(
            clips,
            favorites,
            cap,
            total,
            i,
            log,
        ),
    decreases before - i,
{
    if i < before && total > cap {
        lemma_cap_walk_skip(clips, favorites, cap, total, before - 1, i, log);
    }
}

/// The storage cap never hands a favorite to the recycle bin, and it goes
/// oldest first: the `k`-th path it hands over is that of the clip at
/// index `cap_walk_indices(..)[k]`, a non-favorite; those indices strictly
/// decrease (older clips first); and every clip it passed over between two
/// handed clips (or above the first) is a favorite. So a clip is only
/// recycled once every older non-favorite was handed to the bin.
pub proof fn lemma_cap_walk_order(
    clips: Seq<ClipInfo>,
    favorites: Seq<Seq<char>>,
    cap: u64,
    total: int,
    before: int,
    log: Seq<(Seq<char>, bool)>,
)
    requires
        0 <= before <= clips.len(),
        is_cap_walk(clips, favorites, cap, total, before, log),
    ensures
        ({
            let idx = cap_walk_indices(clips, favorites, cap, total, before, log);
            &&& idx.len() == log.len()
            &&& forall|k: int|
                0 <= k < idx.len() ==> 0 <= #[trigger] idx[k] < before && clips[idx[k]].path@
                    == log[k].0 && !favorites.contains(log[k].0)
            &&& forall|k: int, l: int| 0 <= k < l < idx.len() ==> #[trigger] idx[l] < #[trigger] idx[k]
            &&& forall|k: int, j: int|
                0 <= k < idx.len() && #[trigger] idx[k] < j < walk_upper(idx, k, before)
                    ==> favorites.contains(#[trigger] clips[j].path@)
        }),
    decreases before,
{
    if before <= 0 || total <= cap {
    } else {
        let i = before - 1;
        if favorites.contains(clips[i].path@) {
            lemma_cap_walk_order(clips, favorites, cap, total, i, log);
            let idx = cap_walk_indices(clips, favorites, cap, total, before, log);
            assert forall|k: int, j: int|
                0 <= k < idx.len() && #[trigger] idx[k] < j < walk_upper(idx, k, before)
                    implies favorites.contains(#[trigger] clips[j].path@) by {
                if k == 0 && j == i {
                } else {
                    assert(idx[k] < j < walk_upper(idx, k, i));
                }
            }
        } else {
            let t2 = if log[0].1 {
                total - clips[i].size_bytes
            } else {
                total
            };
            let rest = log.drop_first();
            lemma_cap_walk_order(clips, favorites, cap, t2, i, rest);
            let sub = cap_walk_indices(clips, favorites, cap, t2, i, rest);
            let idx = cap_walk_indices(clips, favorites, cap, total, before, log);
            assert(idx == seq![i] + sub);
            assert forall|k: int|
                0 <= k < idx.len() implies 0 <= #[trigger] idx[k] < before && clips[idx[k]].path@
                == log[k].0 && !favorites.contains(log[k].0) by {
                if k > 0 {
                    assert(idx[k] == sub[k - 1]);
                    assert(log[k] == rest[k - 1]);
                }
            }
            assert forall|k: int, l: int| 0 <= k < l < idx.len() implies #[trigger] idx[l]
                < #[trigger] idx[k] by {
                assert(idx[l] == sub[l - 1]);
                if k > 0 {
                    assert(idx[k] == sub[k - 1]);
                }
            }
            assert forall|k: int, j: int|
                0 <= k < idx.len() && #[trigger] idx[k] < j < walk_upper(idx, k, before)
                    implies favorites.contains(#[trigger] clips[j].path@) by {
                if k > 0 {
                    assert(idx[k] == sub[k - 1]);
                    if k == 1 {
                        assert(walk_upper(idx, k, before) == i);
                        assert(walk_upper(sub, 0, i) == i);
                    } else {
                        assert(walk_upper(idx, k, before) == sub[k - 2]);
                        assert(walk_upper(sub, k - 1, i) == sub[k - 2]);
                    }
                    assert(sub[k - 1] < j < walk_upper(sub, k - 1, i));
                }
            }
        }
    }
}

/// What the walk keeps after the bin answered for the clip it handed over:
/// a clip the bin took leaves the total and counts as recycled.
pub fn cap_after_answer(total: u64, recycled: u32, size: u64, taken: bool) -> (r: (u64, u32))
    requires
        taken ==> size <= total && recycled < u32::MAX,
    ensures
        r == (if taken {
            ((total - size) as u64, (recycled + 1) as u32)
        } else {
            (total, recycled)
        }),
{
    if taken {
        (total - size, recycled + 1)
    } else {
        (total, recycled)
    }
}

/// Recycle the oldest non-favorite clips until the library (`clips`,
/// newest first) fits in `cap_bytes`. The clips handed to the bin, and the
/// bin's answers, are appended to `bin`'s log; they are exactly the walk
/// `is_cap_walk` describes (favorites never, oldest first, stopping once
/// the library fits). Returns how many clips the bin took; nothing is
/// touched while the library fits.
pub fn enforce_storage_cap(
    clips: &Vec<ClipInfo>,
    favorites: &Vec<String>,
    cap_bytes: u64,
    bin: &mut RecycleBin,
) -> (r: u32)
    requires
        spec_total(clips@) <= u64::MAX,
        clips@.len() <= u32::MAX,
    ensures
        final(bin).handed@.len() >= old(bin).handed@.len(),
        final(bin).handed@.take(old(bin).handed@.len() as int) == old(bin).handed@,
        is_cap_walk(
            clips@,
            favorites.deep_view(),
            cap_bytes,
            spec_total(clips@) as int,
            clips@.len() as int,
            final(bin).handed@.skip(old(bin).handed@.len() as int),
        ),
        r == taken_count(final(bin).handed@.skip(old(bin).handed@.len() as int)),
        spec_total(clips@) <= cap_bytes ==> r == 0 && final(bin).handed@ == old(bin).handed@,
{
    let ghost n = clips@.len() as int;
    let ghost fv = favorites.deep_view();
    let ghost t0 = spec_total(clips@) as int;
    let ghost h0 = bin.handed@;
    let ghost mut done: Seq<(Seq<char>, bool)> = Seq::empty();
    let mut total = total_size(clips);
    let mut removed: u32 = 0;
    let mut before: usize = clips.len();
    proof {
        assert(clips@.take(clips@.len() as int) =~= clips@);
        assert forall|rest: Seq<(Seq<char>, bool)>| #[trigger]
            is_cap_walk(clips@, fv, cap_bytes, t0, n, done + rest) == is_cap_walk(
                clips@,
                fv,
                cap_bytes,
                total as int,
                before as int,
                rest,
            ) by {
            assert(done + rest =~= rest);
        }
        assert(bin.handed@ =~= h0 + done);
    }
    loop
        invariant
            before <= clips@.len(),
            clips@.len() <= u32::MAX,
            n == clips@.len(),
            fv == favorites.deep_view(),
            t0 == spec_total(clips@),
            spec_total(clips@.take(before as int)) <= total,
            removed as nat + non_favorites(clips@.take(before as int), favorites.deep_view())
                <= non_favorites(clips@, favorites.deep_view()),
            spec_total(clips@) <= cap_bytes ==> removed == 0 && total == spec_total(clips@)
                && done.len() == 0,
            total <= spec_total(clips@),
            bin.handed@ == h0 + done,
            removed == taken_count(done),
            forall|rest: Seq<(Seq<char>, bool)>| #[trigger]
                is_cap_walk(clips@, fv, cap_bytes, t0, n, done + rest) == is_cap_walk(
                    clips@,
                    fv,
                    cap_bytes,
                    total as int,
                    before as int,
                    rest,
                ),
        ensures
            bin.handed@ == h0 + done,
            removed == taken_count(done),
            is_cap_walk(clips@, fv, cap_bytes, t0, n, done),
            spec_total(clips@) <= cap_bytes ==> removed == 0 && done.len() == 0,
        decreases before,
    {
        match next_cap_victim(clips, favorites, cap_bytes, total, before) {
            None => {
                proof {
                    if total > cap_bytes {
                        lemma_cap_walk_skip(
                            clips@,
                            fv,
                            cap_bytes,
                            total as int,
                            before as int,
                            0,
                            Seq::empty(),
                        );
                    }
                    assert(done + Seq::<(Seq<char>, bool)>::empty() =~= done);
                    assert(is_cap_walk(
                        clips@,
                        fv,
                        cap_bytes,
                        t0,
                        n,
                        done + Seq::<(Seq<char>, bool)>::empty(),
                    ));
                }
                break;
            },
            Some(i) => {
                proof {
                    lemma_total_last(clips@, i as int);
                    lemma_total_prefix(clips@, i + 1, before as int);
                    lemma_non_favorites_bound(clips@, favorites.deep_view(), i + 1, before as int);
                    assert(clips@.take(i + 1).drop_last() =~= clips@.take(i as int));
                    assert(clips@.take(i + 1).last() == clips@[i as int]);
                    lemma_total_prefix(clips@, i as int, i + 1);
                    lemma_non_favorites_len(clips@, favorites.deep_view());
                }
                let ghost old_done = done;
                let ghost old_total = total as int;
                let ghost old_before = before as int;
                let ok = move_to_trash(bin, clips[i].path.as_str()).is_ok();
                let next = cap_after_answer(total, removed, clips[i].size_bytes, ok);
                total = next.0;
                removed = next.1;
                before = i;
                proof {
                    let e = (clips@[i as int].path@, ok);
                    done = old_done.push(e);
                    assert(bin.handed@ =~= h0 + done);
                    assert(done.drop_last() =~= old_done);
                    assert forall|rest: Seq<(Seq<char>, bool)>| #[trigger]
                        is_cap_walk(clips@, fv, cap_bytes, t0, n, done + rest) == is_cap_walk(
                            clips@,
                            fv,
                            cap_bytes,
                            total as int,
                            before as int,
                            rest,
                        ) by {
                        let r2 = seq![e] + rest;
                        assert(done + rest =~= old_done + r2);
                        assert(is_cap_walk(clips@, fv, cap_bytes, t0, n, old_done + r2)
                            == is_cap_walk(clips@, fv, cap_bytes, old_total, old_before, r2));
                        lemma_cap_walk_skip(
                            clips@,
                            fv,
                            cap_bytes,
                            old_total,
                            old_before,
                            i + 1,
                            r2,
                        );
                        assert(r2.drop_first() =~= rest);
                        assert(r2[0] == e);
                    }
                }
            },
        }
    }
    proof {
        assert(bin.handed@.take(h0.len() as int) =~= h0);
        assert(bin.handed@.skip(h0.len() as int) =~= done);
    }
    removed
}

// ---------------------------------------------------------------- favorites

/// Index of the first entry equal to `p`.
pub open spec fn first_position(v: Seq<Seq<char>>, p: Seq<char>) -> Option<int> {
    if v.contains(p) {
        Some(choose|i: int| 0 <= i < v.len() && v[i] == p && forall|j: int| 0 <= j < i ==> v[j] != p)
    } else {
        None
    }
}

/// Starring a clip that is starred unstars it (its first entry goes);
/// otherwise it is added at the end.
pub open spec fn spec_toggle_favorite(favs: Seq<Seq<char>>, path: Seq<char>) -> Seq<Seq<char>> {
    match first_position(favs, path) {
        Some(i) => favs.remove(i),
        None => favs.push(path),
    }
}

pub fn toggle_favorite(current: Vec<String>, path: String) -> (r: Vec<String>)
    ensures
        r.deep_view() == spec_toggle_favorite(current.deep_view(), path@),
{
    let ghost orig = current.deep_view();
    let mut favs = current;
    let mut i: usize = 0;
    while i < favs.len()
        invariant
            i <= favs.len(),
            favs.deep_view() == orig,
            orig == current.deep_view(),
            forall|k: int| 0 <= k < i ==> favs.deep_view()[k] != path@,
        decreases favs.len() - i,
    {
        if str_eq(favs[i].as_str(), path.as_str()) {
            proof {
                let v = favs.deep_view();
                assert(v[i as int] == path@);
                assert(v.contains(path@));
                let c = choose|c: int| 0 <= c < v.len() && v[c] == path@ && forall|j: int| 0 <= j < c ==> v[j] != path@;
                assert(0 <= c < v.len() && v[c] == path@ && forall|j: int| 0 <= j < c ==> v[j] != path@);
                if c < i {
                    assert(v[c] != path@);
                } else if c > i {
                    assert(v[i as int] != path@);
                }
                assert(first_position(v, path@) == Some(i as int));
            }
            let ghost before = favs.deep_view();
            favs.remove(i);
            proof {
                assert(favs.deep_view() =~= before.remove(i as int));
                assert(before == orig);
                assert(favs.deep_view() == spec_toggle_favorite(orig, path@));
            }
            return favs;
        }
        i = i + 1;
    }
    let ghost before = favs.deep_view();
    let ghost pv = path@;
    favs.push(path);
    proof {
        assert(!before.contains(pv));
        assert(favs.deep_view() =~= before.push(pv));
    }
    favs
}

/// Toggling a path that is not starred stars it; toggling it again
/// restores the list exactly.
pub proof fn lemma_toggle_twice_restores(favs: Seq<Seq<char>>, path: Seq<char>)
    requires
        !favs.contains(path),
    ensures
        spec_toggle_favorite(favs, path).contains(path),
        spec_toggle_favorite(spec_toggle_favorite(favs, path), path) == favs,
{
    let once = favs.push(path);
    assert(once[favs.len() as int] == path);
    assert(once.contains(path));
    let c = choose|i: int| 0 <= i < once.len() && once[i] == path && forall|j: int| 0 <= j < i ==> once[j] != path;
    assert(0 <= c < once.len() && once[c] == path && forall|j: int| 0 <= j < c ==> once[j] != path);
    if c < favs.len() {
        assert(favs[c] == path);
    }
    assert(once.remove(c) =~= favs);
}

/// A list with at most one entry per path keeps that property, and a
/// toggle flips whether the path is starred.
pub proof fn lemma_toggle_flips(favs: Seq<Seq<char>>, path: Seq<char>)
    requires
        forall|i: int, j: int| 0 <= i < j < favs.len() ==> favs[i] != favs[j],
    ensures
        spec_toggle_favorite(favs, path).contains(path) == !favs.contains(path),
        forall|i: int, j: int|
            0 <= i < j < spec_toggle_favorite(favs, path).len() ==> spec_toggle_favorite(
                favs,
                path,
            )[i] != spec_toggle_favorite(favs, path)[j],
{
    let r = spec_toggle_favorite(favs, path);
    if favs.contains(path) {
        let c = choose|i: int| 0 <= i < favs.len() && favs[i] == path && forall|j: int| 0 <= j < i ==> favs[j] != path;
        assert(0 <= c < favs.len() && favs[c] == path);
        assert(r == favs.remove(c));
        if r.contains(path) {
            let k = choose|k: int| 0 <= k < r.len() && r[k] == path;
            if k < c {
                assert(favs[k] == path);
            } else {
                assert(favs[k + 1] == path);
            }
        }
        assert forall|i: int, j: int| 0 <= i < j < r.len() implies r[i] != r[j] by {
            let ii = if i < c { i } else { i + 1 };
            let jj = if j < c { j } else { j + 1 };
            assert(r[i] == favs[ii] && r[j] == favs[jj]);
        }
    } else {
        assert(r == favs.push(path));
        assert(r[favs.len() as int] == path);
        assert forall|i: int, j: int| 0 <= i < j < r.len() implies r[i] != r[j] by {
            if j == favs.len() {
                assert(r[i] == favs[i]);
            }
        }
    }
}

// ---------------------------------------------------------------- watched games

/// The entries of `v` that do not lowercase to `key`.
pub open spec fn spec_without_lower(v: Seq<Seq<char>>, key: Seq<char>) -> Seq<Seq<char>>
    decreases v.len(),
{
    if v.len() == 0 {
        Seq::empty()
    } else {
        let rest = spec_without_lower(v.drop_last(), key);
        if spec_to_lowercase(v.last()) != key {
            rest.push(v.last())
        } else {
            rest
        }
    }
}

pub open spec fn any_lowers_to(v: Seq<Seq<char>>, key: Seq<char>) -> bool {
    exists|i: int| 0 <= i < v.len() && spec_to_lowercase(#[trigger] v[i]) == key
}

fn any_lowercases_to(v: &Vec<String>, key: &String) -> (r: bool)
    ensures
        r == any_lowers_to(v.deep_view(), key@),
{
    let mut j: usize = 0;
    while j < v.len()
        invariant
            j <= v.len(),
            forall|k: int| 0 <= k < j ==> spec_to_lowercase(#[trigger] v.deep_view()[k]) != key@,
        decreases v.len() - j,
    {
        let l = v[j].to_lowercase();
        if str_eq(l.as_str(), key.as_str()) {
            proof {
                assert(spec_to_lowercase(v.deep_view()[j as int]) == key@);
            }
            return true;
        }
        j = j + 1;
    }
    false
}

/// Stop watching a game: every watched exe that lowercases like `exe` is
/// dropped, and `exe` joins the blacklist unless an entry lowercasing the
/// same way is already there, so the fullscreen auto-learn will not re-add
/// it.
pub fn remove_watched_game(settings: &mut Settings, exe: String)
    ensures
        final(settings).game_exes.deep_view() == spec_without_lower(
            old(settings).game_exes.deep_view(),
            spec_to_lowercase(exe@),
        ),
        final(settings).game_blacklist.deep_view() == (if any_lowers_to(
            old(settings).game_blacklist.deep_view(),
            spec_to_lowercase(exe@),
        ) {
            old(settings).game_blacklist.deep_view()
        } else {
            old(settings).game_blacklist.deep_view().push(exe@)
        }),
        *final(settings) == (Settings {
            game_exes: final(settings).game_exes,
            game_blacklist: final(settings).game_blacklist,
            ..*old(settings)
        }),
{
    let key = exe.to_lowercase();
    let mut kept: Vec<String> = Vec::new();
    let mut i: usize = 0;
    while i < settings.game_exes.len()
        invariant
            i <= settings.game_exes.len(),
            key@ == spec_to_lowercase(exe@),
            kept.deep_view() == spec_without_lower(
                settings.game_exes.deep_view().take(i as int),
                key@,
            ),
        decreases settings.game_exes.len() - i,
    {
        let g = settings.game_exes[i].clone();
        proof {
            let v = settings.game_exes.deep_view();
            assert(v.take(i as int + 1).drop_last() =~= v.take(i as int));
            assert(v.take(i as int + 1).last() == g@);
        }
        let gl = g.to_lowercase();
        if !str_eq(gl.as_str(), key.as_str()) {
            let ghost prev = kept.deep_view();
            kept.push(g);
            proof {
                assert(kept.deep_view() =~= prev.push(settings.game_exes.deep_view()[i as int]));
            }
        }
        i = i + 1;
    }
    proof {
        assert(settings.game_exes.deep_view().take(settings.game_exes.len() as int)
            =~= settings.game_exes.deep_view());
    }
    let found = any_lowercases_to(&settings.game_blacklist, &key);
    settings.game_exes = kept;
    if !found {
        let ghost prev = settings.game_blacklist.deep_view();
        let ghost ev = exe@;
        settings.game_blacklist.push(exe);
        proof {
            assert(settings.game_blacklist.deep_view() =~= prev.push(ev));
        }
    }
}

// ---------------------------------------------------------------- derived files

/// The `.thumbs` folder next to a clip holds everything derived from it.
pub open spec fn thumbs_dir_of(clip: Seq<char>) -> Option<Seq<char>> {
    match spec_parent(clip) {
        Some(d) => Some(spec_join(d, ".thumbs"@)),
        None => None,
    }
}

/// The kill-marker sidecar of a clip: `<clip's folder>/.thumbs/<stem>.markers.json`.
pub open spec fn spec_markers_path(clip: Seq<char>) -> Option<Seq<char>> {
    match (spec_file_stem(clip), thumbs_dir_of(clip)) {
        (Some(stem), Some(t)) => Some(spec_join(t, stem + ".markers.json"@)),
        _ => None,
    }
}

pub fn markers_path(clip: &str) -> (r: Option<String>)
    ensures
        r.deep_view() == spec_markers_path(clip@),
{
    let stem = match file_stem(clip) {
        Some(s) => s,
        None => return None,
    };
    let dir = match parent(clip) {
        Some(d) => d,
        None => return None,
    };
    let thumbs = join(dir.as_str(), ".thumbs");
    let name = concat(stem.as_str(), ".markers.json");
    Some(join(thumbs.as_str(), name.as_str()))
}

/// The file names a clip leaves in `.thumbs`: thumbnail, waveform strip,
/// kill markers, and one waveform per audio track (up to six).
pub open spec fn derived_names(stem: Seq<char>) -> Seq<Seq<char>> {
    seq![
        stem + ".jpg"@,
        stem + ".wave.png"@,
        stem + ".markers.json"@,
        stem + ".wave0.png"@,
        stem + ".wave1.png"@,
        stem + ".wave2.png"@,
        stem + ".wave3.png"@,
        stem + ".wave4.png"@,
        stem + ".wave5.png"@,
    ]
}

/// The derived files swept when a clip is deleted, or none when the path
/// has no folder or stem.
pub fn derived_files(clip: &str) -> (r: Vec<String>)
    ensures
        r.deep_view() == match (spec_file_stem(clip@), thumbs_dir_of(clip@)) {
            (Some(stem), Some(t)) => derived_names(stem).map_values(|n: Seq<char>| spec_join(t, n)),
            _ => Seq::empty(),
        },
{
    let mut out: Vec<String> = Vec::new();
    let stem = match file_stem(clip) {
        Some(s) => s,
        None => {
            proof {
                assert(out.deep_view() =~= Seq::<Seq<char>>::empty());
            }
            return out;
        },
    };
    let dir = match parent(clip) {
        Some(d) => d,
        None => {
            proof {
                assert(out.deep_view() =~= Seq::<Seq<char>>::empty());
            }
            return out;
        },
    };
    let thumbs = join(dir.as_str(), ".thumbs");
    let names = [
        ".jpg",
        ".wave.png",
        ".markers.json",
        ".wave0.png",
        ".wave1.png",
        ".wave2.png",
        ".wave3.png",
        ".wave4.png",
        ".wave5.png",
    ];
    let ghost want = derived_names(stem@).map_values(|n: Seq<char>| spec_join(thumbs@, n));
    let mut i: usize = 0;
    while i < 9
        invariant
            i <= 9,
            names@ == seq![
                ".jpg",
                ".wave.png",
                ".markers.json",
                ".wave0.png",
                ".wave1.png",
                ".wave2.png",
                ".wave3.png",
                ".wave4.png",
                ".wave5.png",
            ],
            want == derived_names(stem@).map_values(|n: Seq<char>| spec_join(thumbs@, n)),
            out.deep_view() == want.take(i as int),
        decreases 9 - i,
    {
        let n = concat(stem.as_str(), names[i]);
        let f = join(thumbs.as_str(), n.as_str());
        let ghost prev = out.deep_view();
        out.push(f);
        proof {
            assert(derived_names(stem@)[i as int] == stem@ + names@[i as int]@);
            assert(want.take(i as int + 1) =~= want.take(i as int).push(want[i as int]));
            assert(out.deep_view() =~= prev.push(f@));
        }
        i = i + 1;
    }
    proof {
        assert(want.take(9) =~= want);
    }
    out
}

/// Characters a Windows file name cannot hold.
pub open spec fn is_forbidden_name_char(c: char) -> bool {
    c == '<' || c == '>' || c == ':' || c == '"' || c == '/' || c == '\\' || c == '|' || c == '?'
        || c == '*'
}

pub open spec fn without_forbidden(s: Seq<char>) -> Seq<char>
    decreases s.len(),
{
    if s.len() == 0 {
        s
    } else if is_forbidden_name_char(s.last()) {
        without_forbidden(s.drop_last())
    } else {
        without_forbidden(s.drop_last()).push(s.last())
    }
}

/// Where renaming a clip to `new_name` moves it: the name without the
/// characters Windows forbids, trimmed, with the clip's extension (`mp4`
/// when it has none), in the clip's folder. A name that is empty after
/// cleaning is refused.
pub open spec fn spec_rename_target(path: Seq<char>, new_name: Seq<char>) -> Result<
    Seq<char>,
    Seq<char>,
> {
    let clean = crate::text::spec_trim(without_forbidden(new_name));
    if clean.len() == 0 {
        Err("empty name"@)
    } else {
        let ext = match spec_extension(path) {
            Some(e) => e,
            None => "mp4"@,
        };
        Ok(spec_with_file_name(path, clean + "."@ + ext))
    }
}

pub fn rename_target(path: &str, new_name: &str) -> (r: Result<String, String>)
    ensures
        match r {
            Ok(t) => spec_rename_target(path@, new_name@) == Ok::<Seq<char>, Seq<char>>(t@),
            Err(e) => spec_rename_target(path@, new_name@) == Err::<Seq<char>, Seq<char>>(e@),
        },
{
    let cs = chars_of(new_name);
    let mut kept: Vec<char> = Vec::new();
    let mut i: usize = 0;
    while i < cs.len()
        invariant
            i <= cs.len(),
            kept@ == without_forbidden(cs@.take(i as int)),
        decreases cs.len() - i,
    {
        let c = cs[i];
        proof {
            assert(cs@.take(i as int + 1).drop_last() =~= cs@.take(i as int));
            assert(cs@.take(i as int + 1).last() == c);
        }
        if !(c == '<' || c == '>' || c == ':' || c == '"' || c == '/' || c == '\\' || c == '|'
            || c == '?' || c == '*') {
            kept.push(c);
        }
        i = i + 1;
    }
    proof {
        assert(cs@.take(cs.len() as int) =~= cs@);
    }
    let clean = crate::text::trim_chars(&kept);
    if clean.len() == 0 {
        return Err(copy_str("empty name"));
    }
    let ext = match extension(path) {
        Some(e) => e,
        None => copy_str("mp4"),
    };
    let mut name = clean;
    crate::text::push_str(&mut name, ".");
    let e = chars_of(ext.as_str());
    crate::text::extend_chars(&mut name, &e);
    let n = string_of(&name);
    Ok(with_file_name(path, n.as_str()))
}

proof fn lemma_without_forbidden_keeps(s: Seq<char>)
    requires
        forall|i: int|
            0 <= i < s.len() ==> {
                let c = #[trigger] s[i];
                c != '<' && c != '>' && c != ':' && c != '"' && c != '/' && c != '\\' && c != '|'
                    && c != '?' && c != '*'
            },
    ensures
        without_forbidden(s) == s,
    decreases s.len(),
{
    if s.len() > 0 {
        let init = s.drop_last();
        assert forall|i: int| 0 <= i < init.len() implies {
            let c = #[trigger] init[i];
            c != '<' && c != '>' && c != ':' && c != '"' && c != '/' && c != '\\' && c != '|'
                && c != '?' && c != '*'
        } by {
            assert(init[i] == s[i]);
        }
        lemma_without_forbidden_keeps(init);
        assert(s[s.len() - 1] == s.last());
        assert(init.push(s.last()) =~= s);
    }
}

/// A name the user types is kept as typed (spaces and all) when it holds
/// none of the characters Windows forbids in file names (`<>:"/\|?*`),
/// is not blank and has no surrounding whitespace: the clip moves to that
/// name, with its extension (`mp4` when it has none), in its folder.
pub proof fn lemma_rename_keeps_clean_names(path: Seq<char>, name: Seq<char>)
    requires
        forall|i: int|
            0 <= i < name.len() ==> {
                let c = #[trigger] name[i];
                c != '<' && c != '>' && c != ':' && c != '"' && c != '/' && c != '\\' && c != '|'
                    && c != '?' && c != '*'
            },
        crate::text::spec_trim(name) == name,
        name.len() > 0,
    ensures
        spec_rename_target(path, name) == Ok::<Seq<char>, Seq<char>>(
            spec_with_file_name(
                path,
                name + "."@ + match spec_extension(path) {
                    Some(e) => e,
                    None => "mp4"@,
                },
            ),
        ),
{
    lemma_without_forbidden_keeps(name);
}

/// The error when the rename target is taken.
pub fn name_taken_error() -> (r: String)
    ensures
        r@ == "a clip with that name already exists"@,
{
    copy_str("a clip with that name already exists")
}

/// A file written next to a clip: the clip's stem followed by `suffix`,
/// in the clip's folder (`None` for a path without a stem).
pub fn sibling_output(input: &str, suffix: &str) -> (r: Option<String>)
    ensures
        r.deep_view() == match spec_file_stem(input@) {
            Some(stem) => Some(spec_with_file_name(input@, stem + suffix@)),
            None => None,
        },
{
    match file_stem(input) {
        Some(stem) => {
            let n = concat(stem.as_str(), suffix);
            Some(with_file_name(input, n.as_str()))
        },
        None => None,
    }
}

/// The thumbnail of a library clip: `<thumbs>/<stem of its name>.jpg`
/// (an empty stem when the name has none).
pub fn thumbnail_path(thumbs_dir: &str, clip_name: &str) -> (r: String)
    ensures
        r@ == spec_join(
            thumbs_dir@,
            match spec_file_stem(clip_name@) {
                Some(s) => s,
                None => Seq::empty(),
            } + ".jpg"@,
        ),
{
    let stem = match file_stem(clip_name) {
        Some(s) => s,
        None => String::new(),
    };
    let n = concat(stem.as_str(), ".jpg");
    join(thumbs_dir, n.as_str())
}

/// The number of audio streams ffprobe listed (one non-blank line each);
/// one when ffprobe could not run.
pub open spec fn count_nonblank(ls: Seq<Seq<char>>) -> nat
    decreases ls.len(),
{
    if ls.len() == 0 {
        0
    } else {
        count_nonblank(ls.drop_last()) + if crate::text::spec_trim(ls.last()).len() > 0 {
            1nat
        } else {
            0nat
        }
    }
}

proof fn lemma_count_nonblank_bounded(ls: Seq<Seq<char>>)
    ensures
        count_nonblank(ls) <= ls.len(),
    decreases ls.len(),
{
    if ls.len() > 0 {
        lemma_count_nonblank_bounded(ls.drop_last());
    }
}

pub fn audio_stream_count(probe_output: Option<&str>) -> (r: u32)
    ensures
        match probe_output {
            Some(out) => r == count_nonblank(crate::text::spec_lines(out@)) as u32,
            None => r == 1,
        },
{
    let out = match probe_output {
        Some(o) => o,
        None => return 1,
    };
    let cs = chars_of(out);
    let ls = crate::text::lines(&cs);
    let ghost lv = ls@.map_values(|v: Vec<char>| v@);
    let mut n: usize = 0;
    let mut i: usize = 0;
    while i < ls.len()
        invariant
            i <= ls.len(),
            lv == ls@.map_values(|v: Vec<char>| v@),
            n == count_nonblank(lv.take(i as int)),
        decreases ls.len() - i,
    {
        proof {
            assert(lv.take(i as int + 1).drop_last() =~= lv.take(i as int));
            assert(lv.take(i as int + 1).last() == ls@[i as int]@);
            lemma_count_nonblank_bounded(lv.take(i as int));
        }
        let t = crate::text::trim_chars(&ls[i]);
        if t.len() > 0 {
            n = n + 1;
        }
        i = i + 1;
    }
    proof {
        assert(lv.take(ls.len() as int) =~= lv);
    }
    n as u32
}

/// Where winget installs packages, under `%LOCALAPPDATA%`.
pub fn dirs_next(local_appdata: &str) -> (r: String)
    ensures
        r@ == spec_join(local_appdata@, "Microsoft\\WinGet\\Packages"@),
{
    join(local_appdata, "Microsoft\\WinGet\\Packages")
}

/// winget's ffmpeg package folders start with its id.
pub fn is_ffmpeg_package(dir_name: &str) -> (r: bool)
    ensures
        r == crate::text::spec_starts_with(dir_name@, "Gyan.FFmpeg"@),
{
    crate::text::starts_with(&chars_of(dir_name), &chars_of("Gyan.FFmpeg"))
}

/// The H.264 encoders tried for exports, best first: NVIDIA, AMD, Intel,
/// then the CPU.
pub fn h264_encoder_candidates() -> (r: Vec<&'static str>)
    ensures
        r@.map_values(|e: &str| e@) == seq!["h264_nvenc"@, "h264_amf"@, "h264_qsv"@, "libx264"@],
{
    let v = vec!["h264_nvenc", "h264_amf", "h264_qsv", "libx264"];
    proof {
        assert(v@.map_values(|e: &str| e@) =~= seq!["h264_nvenc"@, "h264_amf"@, "h264_qsv"@, "libx264"@]);
    }
    v
}

/// Explorer's argument that opens a folder with the clip selected.
pub fn select_in_folder_arg(path: &str) -> (r: String)
    ensures
        r@ == "/select,"@ + crate::setup::back_slashes(path@),
{
    let b = crate::setup::to_back_slashes(path);
    concat("/select,", b.as_str())
}

} // verus!

//! Heuristic game detection: the foreground window covers an entire
//! monitor and its process is not a known non-game. Also the "pick from
//! what's running" list of windowed apps.

use vstd::prelude::*;

use crate::sorting::{is_stable_sort_of, stable_sort, SortKey};
use crate::text::{chars_of, contains_string, spec_to_lowercase, str_eq};

verus! {

/// Processes that go fullscreen but are never games.
pub open spec fn blocklist() -> Seq<Seq<char>> {
    seq![
        "explorer.exe"@,
        "chrome.exe"@,
        "msedge.exe"@,
        "firefox.exe"@,
        "brave.exe"@,
        "opera.exe"@,
        "vlc.exe"@,
        "mpc-hc64.exe"@,
        "obs64.exe"@,
        "clipforge.exe"@,
        "code.exe"@,
        "devenv.exe"@,
        "powerpnt.exe"@,
        "vrmonitor.exe"@,
        "searchhost.exe"@,
        "lockapp.exe"@,
        "steamwebhelper.exe"@,
        "steam.exe"@,
        "epicgameslauncher.exe"@,
        "battle.net.exe"@,
        "riotclientux.exe"@,
        "playnite.fullscreenapp.exe"@,
        "gamingservicesui.exe"@,
        "xboxpcapp.exe"@,
    ]
}

/// Whether `exe` is one of the known non-games.
pub fn is_blocklisted(exe: &str) -> (r: bool)
    ensures
        r == blocklist().contains(exe@),
{
    let list: [&str; 24] = [
        "explorer.exe",
        "chrome.exe",
        "msedge.exe",
        "firefox.exe",
        "brave.exe",
        "opera.exe",
        "vlc.exe",
        "mpc-hc64.exe",
        "obs64.exe",
        "clipforge.exe",
        "code.exe",
        "devenv.exe",
        "powerpnt.exe",
        "vrmonitor.exe",
        "searchhost.exe",
        "lockapp.exe",
        "steamwebhelper.exe",
        "steam.exe",
        "epicgameslauncher.exe",
        "battle.net.exe",
        "riotclientux.exe",
        "playnite.fullscreenapp.exe",
        "gamingservicesui.exe",
        "xboxpcapp.exe",
    ];
    let mut i: usize = 0;
    while i < 24
        invariant
            i <= 24,
            forall|k: int| 0 <= k < 24 ==> #[trigger] list@[k]@ == blocklist()[k],
            forall|k: int| 0 <= k < i ==> blocklist()[k] != exe@,
        decreases 24 - i,
    {
        if str_eq(list[i], exe) {
            proof {
                assert(blocklist()[i as int] == exe@);
            }
            return true;
        }
        i = i + 1;
    }
    false
}

/// A screen rectangle (window or monitor), in pixels.
#[derive(Clone, Copy, Debug, PartialEq, Eq, Structural)]
pub struct Rect {
    pub left: i32,
    pub top: i32,
    pub right: i32,
    pub bottom: i32,
}

/// The window covers the whole monitor (fullscreen or borderless).
pub open spec fn spec_covers(win: Rect, mon: Rect) -> bool {
    win.left <= mon.left && win.top <= mon.top && win.right >= mon.right && win.bottom >= mon.bottom
}

pub fn covers_monitor(win: Rect, mon: Rect) -> (r: bool)
    ensures
        r == spec_covers(win, mon),
{
    !(win.left > mon.left || win.top > mon.top || win.right < mon.right || win.bottom < mon.bottom)
}

/// The foreground app's exe, lowercased, if it looks like a game: its
/// window covers its monitor and it is not a known non-game.
/// `module_name` is the foreground process's exe name, when it could be
/// read.
pub fn fullscreen_game(win: Rect, mon: Rect, module_name: Option<String>) -> (r: Option<String>)
    ensures
        match module_name {
            Some(m) => if spec_covers(win, mon) && !blocklist().contains(spec_to_lowercase(m@)) {
                r.deep_view() == Some(spec_to_lowercase(m@))
            } else {
                r is None
            },
            None => r is None,
        },
{
    if !covers_monitor(win, mon) {
        return None;
    }
    match module_name {
        Some(m) => {
            let name = m.to_lowercase();
            if is_blocklisted(name.as_str()) {
                None
            } else {
                Some(name)
            }
        },
        None => None,
    }
}

// ---------------------------------------------------------------- running apps

/// A running app the user could pick as a game to watch.
#[derive(Clone, Debug)]
pub struct RunningApp {
    pub exe: String,
    pub title: String,
}

/// `a` sorts strictly before `b` in code point order (the order of
/// `String`'s `Ord`, which compares UTF-8 bytes).
pub open spec fn lex_lt(a: Seq<char>, b: Seq<char>) -> bool
    decreases a.len(),
{
    if a.len() == 0 {
        b.len() > 0
    } else if b.len() == 0 {
        false
    } else if (a[0] as u32) < (b[0] as u32) {
        true
    } else if (a[0] as u32) > (b[0] as u32) {
        false
    } else {
        lex_lt(a.drop_first(), b.drop_first())
    }
}

pub proof fn lemma_lex_irreflexive(a: Seq<char>)
    ensures
        !lex_lt(a, a),
    decreases a.len(),
{
    if a.len() > 0 {
        lemma_lex_irreflexive(a.drop_first());
    }
}

pub proof fn lemma_lex_transitive(a: Seq<char>, b: Seq<char>, c: Seq<char>)
    requires
        lex_lt(a, b),
        lex_lt(b, c),
    ensures
        lex_lt(a, c),
    decreases a.len(),
{
    if a.len() > 0 && b.len() > 0 && c.len() > 0 && (a[0] as u32) == (b[0] as u32) && (b[0] as u32)
        == (c[0] as u32) {
        lemma_lex_transitive(a.drop_first(), b.drop_first(), c.drop_first());
    }
}

fn lex_less(a: &Vec<char>, b: &Vec<char>) -> (r: bool)
    ensures
        r == lex_lt(a@, b@),
{
    let mut i: usize = 0;
    proof {
        assert(a@.skip(0) =~= a@);
        assert(b@.skip(0) =~= b@);
    }
    while i < a.len() && i < b.len()
        invariant
            i <= a.len(),
            i <= b.len(),
            lex_lt(a@, b@) == lex_lt(a@.skip(i as int), b@.skip(i as int)),
        decreases a.len() - i,
    {
        let x = a[i] as u32;
        let y = b[i] as u32;
        proof {
            assert(a@.skip(i as int)[0] == a@[i as int]);
            assert(b@.skip(i as int)[0] == b@[i as int]);
            assert(a@.skip(i as int).drop_first() =~= a@.skip(i + 1));
            assert(b@.skip(i as int).drop_first() =~= b@.skip(i + 1));
        }
        if x < y {
            return true;
        }
        if x > y {
            return false;
        }
        i = i + 1;
    }
    proof {
        assert(a@.skip(i as int).len() == a@.len() - i);
        assert(b@.skip(i as int).len() == b@.len() - i);
    }
    i == a.len() && i < b.len()
}

/// The picker lists apps by title, ignoring case.
impl SortKey for RunningApp {
    type K = Seq<char>;

    open spec fn key(self) -> Seq<char> {
        spec_to_lowercase(self.title@)
    }

    open spec fn key_lt(a: Seq<char>, b: Seq<char>) -> bool {
        lex_lt(a, b)
    }

    proof fn lemma_lt_irreflexive(a: Seq<char>) {
        lemma_lex_irreflexive(a);
    }

    proof fn lemma_lt_transitive(a: Seq<char>, b: Seq<char>, c: Seq<char>) {
        lemma_lex_transitive(a, b, c);
    }

    fn sorts_before(&self, other: &Self) -> (r: bool) {
        let a = chars_of(self.title.to_lowercase().as_str());
        let b = chars_of(other.title.to_lowercase().as_str());
        lex_less(&a, &b)
    }
}

/// A visible, titled top-level window: its title and the exe name of the
/// process owning it (`None` when that process could not be looked up).
#[derive(Clone, Debug)]
pub struct WindowInfo {
    pub exe: Option<String>,
    pub title: String,
}

pub struct AppView {
    pub exe: Seq<char>,
    pub title: Seq<char>,
}

impl View for RunningApp {
    type V = AppView;

    open spec fn view(&self) -> AppView {
        AppView { exe: self.exe@, title: self.title@ }
    }
}

pub open spec fn app_views(s: Seq<RunningApp>) -> Seq<AppView> {
    s.map_values(|a: RunningApp| a@)
}

/// The apps the windows stand for, in window order: one per exe (its
/// first window), lowercased exe names, known non-games left out.
pub open spec fn spec_apps_of(windows: Seq<WindowInfo>) -> Seq<AppView>
    decreases windows.len(),
{
    if windows.len() == 0 {
        Seq::empty()
    } else {
        let rest = spec_apps_of(windows.drop_last());
        let w = windows.last();
        match w.exe {
            Some(e) => {
                let exe = spec_to_lowercase(e@);
                if blocklist().contains(exe) || exists|i: int|
                    0 <= i < rest.len() && #[trigger] rest[i].exe == exe {
                    rest
                } else {
                    rest.push(AppView { exe, title: w.title@ })
                }
            },
            None => rest,
        }
    }
}

/// Every running app that owns a visible, titled window, for the "pick
/// from what's running" list: deduped by exe, known non-games left out,
/// sorted by title ignoring case (apps with equal titles keep window
/// order).
pub fn running_windowed_apps(windows: &Vec<WindowInfo>) -> (r: Vec<RunningApp>)
    ensures
        exists|found: Seq<RunningApp>|
            app_views(found) == spec_apps_of(windows@) && #[trigger] is_stable_sort_of(r@, found),
{
    let mut found: Vec<RunningApp> = Vec::new();
    let mut seen: Vec<String> = Vec::new();
    let mut i: usize = 0;
    while i < windows.len()
        invariant
            i <= windows.len(),
            app_views(found@) == spec_apps_of(windows@.take(i as int)),
            seen.deep_view() == found@.map_values(|a: RunningApp| a.exe@),
        decreases windows.len() - i,
    {
        proof {
            assert(windows@.take(i as int + 1).drop_last() =~= windows@.take(i as int));
            assert(windows@.take(i as int + 1).last() == windows@[i as int]);
        }
        match &windows[i].exe {
            Some(e) => {
                let exe = e.to_lowercase();
                let dup = contains_string(&seen, exe.as_str());
                proof {
                    let rest = app_views(found@);
                    if dup {
                        let k = choose|k: int| 0 <= k < seen.deep_view().len() && seen.deep_view()[k] == exe@;
                        assert(rest[k].exe == exe@);
                    } else {
                        assert forall|k: int| 0 <= k < rest.len() implies #[trigger] rest[k].exe != exe@ by {
                            assert(seen.deep_view()[k] == rest[k].exe);
                        }
                    }
                }
                if !is_blocklisted(exe.as_str()) && !dup {
                    let title = windows[i].title.clone();
                    let ghost prev = found@;
                    let ghost prev_seen = seen.deep_view();
                    seen.push(exe.clone());
                    found.push(RunningApp { exe, title });
                    proof {
                        assert(app_views(found@) =~= app_views(prev).push(found@.last()@));
                        assert(seen.deep_view() =~= prev_seen.push(found@.last().exe@));
                        assert(found@.map_values(|a: RunningApp| a.exe@) =~= prev.map_values(
                            |a: RunningApp| a.exe@,
                        ).push(found@.last().exe@));
                    }
                }
            },
            None => {},
        }
        i = i + 1;
    }
    proof {
        assert(windows@.take(windows.len() as int) =~= windows@);
    }
    let ghost f = found@;
    let r = stable_sort(found);
    proof {
        assert(is_stable_sort_of(r@, f));
    }
    r
}

// ---------------------------------------------------------------- window lookup

/// The first running process whose name is `exe`, ignoring case
/// (`processes` holds each process's id and name).
pub fn process_for_exe(processes: &Vec<(u32, String)>, exe: &str) -> (r: Option<u32>)
    ensures
        match r {
            Some(pid) => exists|i: int|
                0 <= i < processes.len() && processes@[i].0 == pid && spec_to_lowercase(
                    processes@[i].1@,
                ) == spec_to_lowercase(exe@) && forall|j: int|
                    0 <= j < i ==> spec_to_lowercase(#[trigger] processes@[j].1@) != spec_to_lowercase(
                        exe@,
                    ),
            None => forall|j: int|
                0 <= j < processes.len() ==> spec_to_lowercase(#[trigger] processes@[j].1@)
                    != spec_to_lowercase(exe@),
        },
{
    let target = exe.to_lowercase();
    let mut i: usize = 0;
    while i < processes.len()
        invariant
            i <= processes.len(),
            target@ == spec_to_lowercase(exe@),
            forall|j: int|
                0 <= j < i ==> spec_to_lowercase(#[trigger] processes@[j].1@) != spec_to_lowercase(
                    exe@,
                ),
        decreases processes.len() - i,
    {
        let name = processes[i].1.to_lowercase();
        if str_eq(name.as_str(), target.as_str()) {
            return Some(processes[i].0);
        }
        i = i + 1;
    }
    None
}

/// A top-level window as enumerated: owner process, visibility, title and
/// class name.
#[derive(Clone, Debug)]
pub struct WindowEntry {
    pub pid: u32,
    pub visible: bool,
    pub title: String,
    pub class: String,
}

pub open spec fn is_main_window(w: WindowEntry, pid: u32) -> bool {
    w.visible && w.pid == pid && w.title@.len() > 0
}

/// The main window of process `pid` for OBS's window selector: its first
/// visible window that has a title (helper windows and tooltips have
/// none), as (title, class).
pub fn main_window_of(windows: &Vec<WindowEntry>, pid: u32) -> (r: Option<(String, String)>)
    ensures
        match r {
            Some((t, c)) => exists|i: int|
                0 <= i < windows.len() && is_main_window(windows@[i], pid) && windows@[i].title@
                    == t@ && windows@[i].class@ == c@ && forall|j: int|
                    0 <= j < i ==> !is_main_window(#[trigger] windows@[j], pid),
            None => forall|j: int| 0 <= j < windows.len() ==> !is_main_window(#[trigger] windows@[j], pid),
        },
{
    let mut i: usize = 0;
    while i < windows.len()
        invariant
            i <= windows.len(),
            forall|j: int| 0 <= j < i ==> !is_main_window(#[trigger] windows@[j], pid),
        decreases windows.len() - i,
    {
        let w = &windows[i];
        if w.visible && w.pid == pid && w.title.as_str().unicode_len() > 0 {
            return Some((w.title.clone(), w.class.clone()));
        }
        i = i + 1;
    }
    None
}

} // verus!

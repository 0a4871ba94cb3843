//! Global hotkeys: how a typed hotkey is normalized, which presses save a
//! replay (a 3 s cooldown drops hotkey spam), and the errors shown when a
//! hotkey cannot be used.

use vstd::prelude::*;

use crate::text::{
    chars_of, concat, spec_split, spec_to_lowercase, spec_trim, split_char, string_of, trim_chars,
};

verus! {

/// Presses within this long after an accepted one are dropped.
pub const COOLDOWN_MS: u64 = 3000;

/// Whether a press at `now` is accepted, given the time of the last
/// accepted press (0 = none), and the time stored afterwards. The
/// cooldown does not slide: dropped presses leave the stored time alone,
/// so a held key cannot postpone the next save. An accepted press stores
/// its time (at least 1, since 0 means "none").
pub open spec fn spec_accept_press(last: u64, now: u64) -> (bool, u64) {
    let since: int = if now >= last {
        now - last
    } else {
        0
    };
    if last != 0 && since < COOLDOWN_MS {
        (false, last)
    } else {
        (
            true,
            if now >= 1 {
                now
            } else {
                1u64
            },
        )
    }
}

/// Decide whether a hotkey press triggers a replay save. OBS rejects a
/// save while the previous flush is still writing, and mashing the key
/// mid-fight would make overlapping clips of the same moment.
pub fn should_accept_press(last_save_ms: &mut u64, now_ms: u64) -> (r: bool)
    ensures
        (r, *final(last_save_ms)) == spec_accept_press(*old(last_save_ms), now_ms),
{
    let last = *last_save_ms;
    if last != 0 && now_ms.saturating_sub(last) < COOLDOWN_MS {
        return false;
    }
    *last_save_ms = if now_ms >= 1 {
        now_ms
    } else {
        1
    };
    true
}

/// Two accepted presses are at least the cooldown apart, whatever was
/// dropped in between (dropped presses do not move the stored time).
pub proof fn lemma_accepted_presses_spaced(last: u64, t1: u64, t2: u64)
    requires
        spec_accept_press(last, t1).0,
        spec_accept_press(spec_accept_press(last, t1).1, t2).0,
    ensures
        t2 >= t1 + COOLDOWN_MS,
{
}

/// A dropped press changes nothing.
pub proof fn lemma_dropped_press_keeps_state(last: u64, t: u64)
    requires
        !spec_accept_press(last, t).0,
    ensures
        spec_accept_press(last, t).1 == last,
{
}

/// What a global-shortcut event does: `Some(short)` when it saves a
/// replay (`short` when the short-clip hotkey fired, so the saved clip is
/// cut to its tail), `None` when it is not a press of one of our hotkeys
/// or falls in the cooldown.
pub fn hotkey_press(
    pressed: bool,
    is_save: bool,
    is_short: bool,
    last_save_ms: &mut u64,
    now_ms: u64,
) -> (r: Option<bool>)
    ensures
        !pressed || (!is_short && !is_save) ==> r is None && *final(last_save_ms) == *old(
            last_save_ms,
        ),
        pressed && (is_short || is_save) ==> ({
            let (ok, next) = spec_accept_press(*old(last_save_ms), now_ms);
            &&& *final(last_save_ms) == next
            &&& r == if ok {
                Some(is_short)
            } else {
                None
            }
        }),
{
    if !pressed {
        return None;
    }
    if !is_short && !is_save {
        return None;
    }
    if !should_accept_press(last_save_ms, now_ms) {
        return None;
    }
    Some(is_short)
}

/// The parts of a typed hotkey, trimmed and lowercased, blanks dropped.
pub open spec fn hotkey_parts(pieces: Seq<Seq<char>>) -> Seq<Seq<char>>
    decreases pieces.len(),
{
    if pieces.len() == 0 {
        Seq::empty()
    } else {
        let rest = hotkey_parts(pieces.drop_last());
        let p = spec_to_lowercase(spec_trim(pieces.last()));
        if p.len() == 0 {
            rest
        } else {
            rest.push(p)
        }
    }
}

proof fn lemma_parts_len(pieces: Seq<Seq<char>>)
    ensures
        hotkey_parts(pieces).len() <= pieces.len(),
    decreases pieces.len(),
{
    if pieces.len() > 0 {
        lemma_parts_len(pieces.drop_last());
    }
}

/// The parts joined with `+`.
pub open spec fn joined_plus(parts: Seq<Seq<char>>) -> Seq<char>
    decreases parts.len(),
{
    if parts.len() == 0 {
        Seq::empty()
    } else if parts.len() == 1 {
        parts[0]
    } else {
        joined_plus(parts.drop_last()) + seq!['+'] + parts.last()
    }
}

/// A hotkey as stored and registered: "Shift + ALT+F10" becomes
/// "shift+alt+f10".
pub open spec fn spec_normalize_hotkey(raw: Seq<char>) -> Seq<char> {
    joined_plus(hotkey_parts(spec_split(raw, '+')))
}

pub fn normalize_hotkey(raw: &str) -> (r: String)
    ensures
        r@ == spec_normalize_hotkey(raw@),
{
    let cs = chars_of(raw);
    let pieces = split_char(&cs, '+');
    let ghost pv = pieces@.map_values(|v: Vec<char>| v@);
    let mut out: Vec<char> = Vec::new();
    let mut count: usize = 0;
    let mut i: usize = 0;
    while i < pieces.len()
        invariant
            i <= pieces.len(),
            pv == pieces@.map_values(|v: Vec<char>| v@),
            count == hotkey_parts(pv.take(i as int)).len(),
            out@ == joined_plus(hotkey_parts(pv.take(i as int))),
        decreases pieces.len() - i,
    {
        proof {
            assert(pv.take(i as int + 1).drop_last() =~= pv.take(i as int));
            assert(pv.take(i as int + 1).last() == pieces@[i as int]@);
            lemma_parts_len(pv.take(i as int));
        }
        let t = trim_chars(&pieces[i]);
        let ts = string_of(&t);
        let low = ts.to_lowercase();
        let lc = chars_of(low.as_str());
        if lc.len() > 0 {
            let ghost parts = hotkey_parts(pv.take(i as int));
            if count > 0 {
                out.push('+');
            }
            crate::text::extend_chars(&mut out, &lc);
            proof {
                let np = parts.push(lc@);
                assert(np.drop_last() =~= parts);
                if parts.len() == 0 {
                    assert(out@ =~= lc@);
                } else {
                    assert(out@ =~= joined_plus(parts) + seq!['+'] + lc@);
                }
            }
            count = count + 1;
        }
        i = i + 1;
    }
    proof {
        assert(pv.take(pieces.len() as int) =~= pv);
    }
    string_of(&out)
}

proof fn lemma_parts_nonempty(pieces: Seq<Seq<char>>)
    ensures
        forall|k: int|
            0 <= k < hotkey_parts(pieces).len() ==> #[trigger] hotkey_parts(pieces)[k].len() > 0,
    decreases pieces.len(),
{
    if pieces.len() > 0 {
        lemma_parts_nonempty(pieces.drop_last());
        let rest = hotkey_parts(pieces.drop_last());
        let all = hotkey_parts(pieces);
        assert forall|k: int| 0 <= k < all.len() implies #[trigger] all[k].len() > 0 by {
            if k < rest.len() {
                assert(all[k] == rest[k]);
            }
        }
    }
}

/// Parts that trimming and lowercasing leave alone, none of them blank,
/// come out of `hotkey_parts` as they went in.
proof fn lemma_parts_fixed(parts: Seq<Seq<char>>)
    requires
        forall|k: int|
            0 <= k < parts.len() ==> (#[trigger] parts[k]).len() > 0 && spec_trim(parts[k])
                == parts[k] && spec_to_lowercase(parts[k]) == parts[k],
    ensures
        hotkey_parts(parts) == parts,
    decreases parts.len(),
{
    if parts.len() > 0 {
        let init = parts.drop_last();
        assert forall|k: int| 0 <= k < init.len() implies (#[trigger] init[k]).len() > 0
            && spec_trim(init[k]) == init[k] && spec_to_lowercase(init[k]) == init[k] by {
            assert(init[k] == parts[k]);
        }
        lemma_parts_fixed(init);
        assert(parts[parts.len() - 1] == parts.last());
        assert(init.push(parts.last()) =~= parts);
    }
}

/// Joining parts front first: the first part, `+`, the rest joined.
proof fn lemma_joined_front(parts: Seq<Seq<char>>)
    requires
        parts.len() >= 2,
    ensures
        joined_plus(parts) == parts[0] + seq!['+'] + joined_plus(parts.drop_first()),
    decreases parts.len(),
{
    let init = parts.drop_last();
    if parts.len() == 2 {
        assert(joined_plus(init) == parts[0]);
        assert(parts.drop_first().len() == 1);
        assert(joined_plus(parts.drop_first()) == parts[1]);
        assert(joined_plus(parts) =~= parts[0] + seq!['+'] + joined_plus(parts.drop_first()));
    } else {
        lemma_joined_front(init);
        let tail = parts.drop_first();
        assert(tail.drop_last() =~= init.drop_first());
        assert(tail.last() == parts.last());
        assert(init[0] == parts[0]);
        assert(joined_plus(parts) =~= parts[0] + seq!['+'] + joined_plus(tail));
    }
}

/// A text with no `+` is one piece; a `+` after such a text ends its piece.
proof fn lemma_split_plus(a: Seq<char>, b: Seq<char>)
    requires
        forall|j: int| 0 <= j < a.len() ==> a[j] != '+',
    ensures
        spec_split(a, '+') == seq![a],
        spec_split(a + seq!['+'] + b, '+') == seq![a] + spec_split(b, '+'),
{
    crate::text::lemma_first_index_is(a, '+', a.len() as int);
    assert(a.take(a.len() as int) =~= a);
    let s = a + seq!['+'] + b;
    assert forall|j: int| 0 <= j < a.len() implies s[j] != '+' by {
        assert(s[j] == a[j]);
    }
    crate::text::lemma_first_index_is(s, '+', a.len() as int);
    assert(s.take(a.len() as int) =~= a);
    assert(s.skip(a.len() as int + 1) =~= b);
}

/// Splitting joined parts at `+` gives the parts back, when none holds a
/// `+`.
proof fn lemma_split_joined(parts: Seq<Seq<char>>)
    requires
        parts.len() >= 1,
        forall|k: int, j: int|
            0 <= k < parts.len() && 0 <= j < parts[k].len() ==> #[trigger] parts[k][j] != '+',
    ensures
        spec_split(joined_plus(parts), '+') == parts,
    decreases parts.len(),
{
    if parts.len() == 1 {
        assert forall|j: int| 0 <= j < parts[0].len() implies parts[0][j] != '+' by {
            assert(parts[0][j] != '+');
        }
        lemma_split_plus(parts[0], Seq::empty());
        assert(seq![parts[0]] =~= parts);
    } else {
        let tail = parts.drop_first();
        assert forall|k: int, j: int| 0 <= k < tail.len() && 0 <= j < tail[k].len() implies
            #[trigger] tail[k][j] != '+' by {
            assert(tail[k] == parts[k + 1]);
            assert(parts[k + 1][j] != '+');
        }
        lemma_split_joined(tail);
        lemma_joined_front(parts);
        assert forall|j: int| 0 <= j < parts[0].len() implies parts[0][j] != '+' by {
            assert(parts[0][j] != '+');
        }
        lemma_split_plus(parts[0], joined_plus(tail));
        assert(seq![parts[0]] + tail =~= parts);
    }
}

/// Normalizing a normalized hotkey changes nothing, provided std's
/// lowercase mapping leaves each part of the result as it is (no part
/// lowercases to something else, gains surrounding whitespace or a `+`)
/// and the hotkey has at least one part. (Those are facts of Unicode's
/// lowercase mapping that std's documentation does not state, so they
/// stand here as conditions.)
pub proof fn lemma_normalize_idempotent(raw: Seq<char>)
    requires
        hotkey_parts(spec_split(raw, '+')).len() > 0,
        forall|k: int|
            0 <= k < hotkey_parts(spec_split(raw, '+')).len() ==> {
                let p = #[trigger] hotkey_parts(spec_split(raw, '+'))[k];
                &&& spec_to_lowercase(p) == p
                &&& spec_trim(p) == p
                &&& forall|j: int| 0 <= j < p.len() ==> p[j] != '+'
            },
    ensures
        spec_normalize_hotkey(spec_normalize_hotkey(raw)) == spec_normalize_hotkey(raw),
{
    let parts = hotkey_parts(spec_split(raw, '+'));
    lemma_parts_nonempty(spec_split(raw, '+'));
    assert forall|k: int, j: int| 0 <= k < parts.len() && 0 <= j < parts[k].len() implies
        #[trigger] parts[k][j] != '+' by {
        let p = parts[k];
        assert(forall|i: int| 0 <= i < p.len() ==> p[i] != '+');
    }
    lemma_split_joined(parts);
    assert forall|k: int| 0 <= k < parts.len() implies (#[trigger] parts[k]).len() > 0
        && spec_trim(parts[k]) == parts[k] && spec_to_lowercase(parts[k]) == parts[k] by {
        let p = parts[k];
    }
    lemma_parts_fixed(parts);
}

/// The error for a hotkey the shortcut parser rejects.
pub fn invalid_hotkey_error(normalized: &str) -> (r: String)
    ensures
        r@ == "'"@ + normalized@ + "' is not a valid hotkey"@,
{
    let a = concat("'", normalized);
    concat(a.as_str(), "' is not a valid hotkey")
}

/// The error when the two hotkeys are the same shortcut.
pub fn same_hotkeys_error() -> (r: String)
    ensures
        r@ == "hotkeys must differ"@,
{
    crate::text::copy_str("hotkeys must differ")
}

/// The error when registering failed (and the old hotkeys were restored).
pub fn register_error(reason: &str) -> (r: String)
    ensures
        r@ == "could not register (in use by another app?): "@ + reason@,
{
    concat("could not register (in use by another app?): ", reason)
}

} // verus!

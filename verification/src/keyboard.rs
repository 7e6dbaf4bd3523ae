//! Keyboard planning: parsing key names, expanding `+`-separated combos into
//! the exact press/click/release event order, and the clipboard-based fast
//! typing protocol with its save-and-restore guarantee.

use vstd::prelude::*;

use crate::error::AppError;
use crate::text::{lower, lower_ascii, str_eq, trim_spaces, trimmed};

verus! {

/// A key the actuator can press.
#[derive(Debug, Clone, Copy, PartialEq, Eq, Structural)]
pub enum KeyCode {
    Return,
    Tab,
    Escape,
    Backspace,
    Delete,
    Space,
    UpArrow,
    DownArrow,
    LeftArrow,
    RightArrow,
    Home,
    End,
    PageUp,
    PageDown,
    F1,
    F2,
    F3,
    F4,
    F5,
    F6,
    F7,
    F8,
    F9,
    F10,
    F11,
    F12,
    Shift,
    Control,
    Alt,
    Meta,
    CapsLock,
    Unicode(char),
}

/// What to do with a key.
#[derive(Debug, Clone, Copy, PartialEq, Eq, Structural)]
pub enum KeyDir {
    Press,
    Release,
    Click,
}

/// One synthetic keyboard event.
#[derive(Debug, Clone, Copy, PartialEq, Eq, Structural)]
pub struct KeyEvent {
    pub key: KeyCode,
    pub dir: KeyDir,
}

/// The key denoted by a (case-insensitive) name: the named keys, or the
/// character itself for a single-character name.
pub open spec fn spec_key(s: Seq<char>) -> Option<KeyCode> {
    let l = lower(s);
    if l == "return"@ || l == "enter"@ { Some(KeyCode::Return) }
    else if l == "tab"@ { Some(KeyCode::Tab) }
    else if l == "escape"@ || l == "esc"@ { Some(KeyCode::Escape) }
    else if l == "backspace"@ { Some(KeyCode::Backspace) }
    else if l == "delete"@ { Some(KeyCode::Delete) }
    else if l == "space"@ { Some(KeyCode::Space) }
    else if l == "up"@ { Some(KeyCode::UpArrow) }
    else if l == "down"@ { Some(KeyCode::DownArrow) }
    else if l == "left"@ { Some(KeyCode::LeftArrow) }
    else if l == "right"@ { Some(KeyCode::RightArrow) }
    else if l == "home"@ { Some(KeyCode::Home) }
    else if l == "end"@ { Some(KeyCode::End) }
    else if l == "pageup"@ || l == "page_up"@ { Some(KeyCode::PageUp) }
    else if l == "pagedown"@ || l == "page_down"@ { Some(KeyCode::PageDown) }
    else if l == "f1"@ { Some(KeyCode::F1) }
    else if l == "f2"@ { Some(KeyCode::F2) }
    else if l == "f3"@ { Some(KeyCode::F3) }
    else if l == "f4"@ { Some(KeyCode::F4) }
    else if l == "f5"@ { Some(KeyCode::F5) }
    else if l == "f6"@ { Some(KeyCode::F6) }
    else if l == "f7"@ { Some(KeyCode::F7) }
    else if l == "f8"@ { Some(KeyCode::F8) }
    else if l == "f9"@ { Some(KeyCode::F9) }
    else if l == "f10"@ { Some(KeyCode::F10) }
    else if l == "f11"@ { Some(KeyCode::F11) }
    else if l == "f12"@ { Some(KeyCode::F12) }
    else if l == "shift"@ { Some(KeyCode::Shift) }
    else if l == "control"@ || l == "ctrl"@ { Some(KeyCode::Control) }
    else if l == "alt"@ { Some(KeyCode::Alt) }
    else if l == "meta"@ || l == "super"@ || l == "win"@ || l == "command"@ {
        Some(KeyCode::Meta)
    }
    else if l == "capslock"@ || l == "caps_lock"@ { Some(KeyCode::CapsLock) }
    else if l.len() == 1 { Some(KeyCode::Unicode(l[0])) }
    else { None }
}

/// Parse a key name; an unrecognized name is an `Input` error naming it.
pub fn parse_key(key_str: &str) -> (r: Result<KeyCode, AppError>)
    ensures
        match r {
            Ok(k) => spec_key(key_str@) == Some(k),
            Err(e) => spec_key(key_str@) is None && e is Input && e->Input_0@
                == "Unknown key: "@ + key_str@,
        },
{
    let low = lower_ascii(key_str);
    let l = low.as_str();
    if str_eq(l, "return") || str_eq(l, "enter") { Ok(KeyCode::Return) }
    else if str_eq(l, "tab") { Ok(KeyCode::Tab) }
    else if str_eq(l, "escape") || str_eq(l, "esc") { Ok(KeyCode::Escape) }
    else if str_eq(l, "backspace") { Ok(KeyCode::Backspace) }
    else if str_eq(l, "delete") { Ok(KeyCode::Delete) }
    else if str_eq(l, "space") { Ok(KeyCode::Space) }
    else if str_eq(l, "up") { Ok(KeyCode::UpArrow) }
    else if str_eq(l, "down") { Ok(KeyCode::DownArrow) }
    else if str_eq(l, "left") { Ok(KeyCode::LeftArrow) }
    else if str_eq(l, "right") { Ok(KeyCode::RightArrow) }
    else if str_eq(l, "home") { Ok(KeyCode::Home) }
    else if str_eq(l, "end") { Ok(KeyCode::End) }
    else if str_eq(l, "pageup") || str_eq(l, "page_up") { Ok(KeyCode::PageUp) }
    else if str_eq(l, "pagedown") || str_eq(l, "page_down") { Ok(KeyCode::PageDown) }
    else if str_eq(l, "f1") { Ok(KeyCode::F1) }
    else if str_eq(l, "f2") { Ok(KeyCode::F2) }
    else if str_eq(l, "f3") { Ok(KeyCode::F3) }
    else if str_eq(l, "f4") { Ok(KeyCode::F4) }
    else if str_eq(l, "f5") { Ok(KeyCode::F5) }
    else if str_eq(l, "f6") { Ok(KeyCode::F6) }
    else if str_eq(l, "f7") { Ok(KeyCode::F7) }
    else if str_eq(l, "f8") { Ok(KeyCode::F8) }
    else if str_eq(l, "f9") { Ok(KeyCode::F9) }
    else if str_eq(l, "f10") { Ok(KeyCode::F10) }
    else if str_eq(l, "f11") { Ok(KeyCode::F11) }
    else if str_eq(l, "f12") { Ok(KeyCode::F12) }
    else if str_eq(l, "shift") { Ok(KeyCode::Shift) }
    else if str_eq(l, "control") || str_eq(l, "ctrl") { Ok(KeyCode::Control) }
    else if str_eq(l, "alt") { Ok(KeyCode::Alt) }
    else if str_eq(l, "meta") || str_eq(l, "super") || str_eq(l, "win") || str_eq(
        l,
        "command",
    ) { Ok(KeyCode::Meta) }
    else if str_eq(l, "capslock") || str_eq(l, "caps_lock") { Ok(KeyCode::CapsLock) }
    else if low.unicode_len() == 1 { Ok(KeyCode::Unicode(l.get_char(0))) }
    else {
        let mut m = String::from_str("Unknown key: ");
        m.append(key_str);
        Err(AppError::Input(m))
    }
}

/// Split on `+`, keeping empty segments (so `"a++b"` has an empty middle).
pub open spec fn split_acc(rem: Seq<char>, cur: Seq<char>) -> Seq<Seq<char>>
    decreases rem.len(),
{
    if rem.len() == 0 {
        seq![cur]
    } else if rem[0] == '+' {
        seq![cur] + split_acc(rem.subrange(1, rem.len() as int), Seq::empty())
    } else {
        split_acc(rem.subrange(1, rem.len() as int), cur.push(rem[0]))
    }
}

/// The `+`-separated segments of a combo.
pub open spec fn split_plus(s: Seq<char>) -> Seq<Seq<char>> {
    split_acc(s, Seq::empty())
}

/// Split a combo on `+` and trim each segment.
pub fn split_combo(s: &str) -> (r: Vec<String>)
    ensures
        r@.map_values(|p: String| p@) == split_plus(s@).map_values(|p: Seq<char>| trimmed(p)),
        r@.len() > 0,
{
    let len = s.unicode_len();
    let mut parts: Vec<String> = Vec::new();
    let ghost mut raw: Seq<Seq<char>> = Seq::empty();
    let mut start: usize = 0;
    let mut i: usize = 0;
    proof {
        assert(s@.subrange(0, len as int) =~= s@);
        assert(s@.subrange(0, 0) =~= Seq::<char>::empty());
        assert(raw + split_acc(s@, Seq::empty()) =~= split_acc(s@, Seq::empty()));
    }
    while i < len
        invariant
            len == s@.len(),
            start <= i <= len,
            parts@.len() == raw.len(),
            forall|k: int| 0 <= k < raw.len() ==> (#[trigger] parts@[k])@ == trimmed(raw[k]),
            split_plus(s@) == raw + split_acc(
                s@.subrange(i as int, len as int),
                s@.subrange(start as int, i as int),
            ),
        decreases len - i,
    {
        let ghost rem = s@.subrange(i as int, len as int);
        let ghost cur = s@.subrange(start as int, i as int);
        proof {
            assert(rem[0] == s@[i as int]);
            assert(rem.subrange(1, rem.len() as int) =~= s@.subrange(i + 1, len as int));
        }
        if s.get_char(i) == '+' {
            parts.push(trim_spaces(s.substring_char(start, i)));
            proof {
                let x = split_acc(s@.subrange(i + 1, len as int), Seq::<char>::empty());
                assert(split_acc(rem, cur) == seq![cur] + x);
                assert(raw + (seq![cur] + x) =~= raw.push(cur) + x);
                raw = raw.push(cur);
                assert(s@.subrange(i + 1, i + 1) =~= Seq::<char>::empty());
            }
            start = i + 1;
        } else {
            proof {
                assert(cur.push(s@[i as int]) =~= s@.subrange(start as int, i + 1));
            }
        }
        i += 1;
    }
    parts.push(trim_spaces(s.substring_char(start, len)));
    proof {
        raw = raw.push(s@.subrange(start as int, len as int));
        assert(s@.subrange(len as int, len as int).len() == 0);
        assert(split_plus(s@) =~= raw.drop_last() + seq![s@.subrange(start as int, len as int)]);
        assert(split_plus(s@) =~= raw);
        assert(parts@.map_values(|p: String| p@) =~= raw.map_values(
            |p: Seq<char>| trimmed(p),
        ));
    }
    parts
}

/// The position of the first segment that is not a key name, or -1.
pub open spec fn first_unknown(parts: Seq<Seq<char>>) -> int
    decreases parts.len(),
{
    if parts.len() == 0 {
        -1
    } else if spec_key(parts[0]) is None {
        0
    } else {
        let r = first_unknown(parts.subrange(1, parts.len() as int));
        if r < 0 {
            -1
        } else {
            r + 1
        }
    }
}

/// Press events for the modifiers, in order.
pub open spec fn press_events(mods: Seq<KeyCode>) -> Seq<KeyEvent> {
    Seq::new(mods.len(), |i: int| KeyEvent { key: mods[i], dir: KeyDir::Press })
}

/// Release events for the modifiers, in reverse order.
pub open spec fn release_events_rev(mods: Seq<KeyCode>) -> Seq<KeyEvent> {
    Seq::new(mods.len(), |i: int| KeyEvent { key: mods[mods.len() - 1 - i], dir: KeyDir::Release })
}

/// The outcome of planning a combo.
#[verifier::ext_equal]
pub ghost enum ComboPlan {
    Events(Seq<KeyEvent>),
    Unknown(Seq<char>),
}

/// The event sequence a combo denotes: a single segment is clicked; for
/// several, the modifiers are pressed in order, the final key clicked, and
/// the modifiers released in reverse order. An unknown segment names the
/// offending (trimmed) segment, the final key being checked first.
pub open spec fn spec_combo_plan(combo: Seq<char>) -> ComboPlan {
    let parts = split_plus(combo).map_values(|p: Seq<char>| trimmed(p));
    if parts.len() == 1 {
        match spec_key(parts[0]) {
            Some(k) => ComboPlan::Events(seq![KeyEvent { key: k, dir: KeyDir::Click }]),
            None => ComboPlan::Unknown(parts[0]),
        }
    } else {
        let mods = parts.drop_last();
        match spec_key(parts.last()) {
            None => ComboPlan::Unknown(parts.last()),
            Some(fk) => {
                let bad = first_unknown(mods);
                if bad >= 0 {
                    ComboPlan::Unknown(mods[bad])
                } else {
                    let keys = Seq::new(mods.len(), |i: int| spec_key(mods[i]).unwrap());
                    ComboPlan::Events(
                        press_events(keys) + seq![KeyEvent { key: fk, dir: KeyDir::Click }]
                            + release_events_rev(keys),
                    )
                }
            },
        }
    }
}

/// Expand a key combo such as `ctrl+shift+t` into the exact event order to
/// deliver: press each modifier in order, click the final key, release the
/// modifiers in reverse. Unknown names give an `Input` error.
pub fn plan_key_combo(combo: &str) -> (r: Result<Vec<KeyEvent>, AppError>)
    ensures
        match r {
            Ok(events) => spec_combo_plan(combo@) == ComboPlan::Events(events@),
            Err(e) => e is Input && spec_combo_plan(combo@) == ComboPlan::Unknown(
                e->Input_0@.subrange("Unknown key: "@.len() as int, e->Input_0@.len() as int),
            ) && e->Input_0@.subrange(0, "Unknown key: "@.len() as int) == "Unknown key: "@,
        },
{
    let parts = split_combo(combo);
    let ghost pv = parts@.map_values(|p: String| p@);
    let mut events: Vec<KeyEvent> = Vec::new();
    if parts.len() == 1 {
        match parse_key(parts[0].as_str()) {
            Ok(k) => {
                events.push(KeyEvent { key: k, dir: KeyDir::Click });
                proof {
                    assert(events@ =~= seq![KeyEvent { key: k, dir: KeyDir::Click }]);
                }
                Ok(events)
            },
            Err(e) => {
                proof {
                    lemma_unknown_prefix(&e, pv[0]);
                }
                Err(e)
            },
        }
    } else {
        let fk = match parse_key(parts[parts.len() - 1].as_str()) {
            Ok(k) => k,
            Err(e) => {
                proof {
                    assert(pv.last() == parts@[parts@.len() - 1]@);
                    lemma_unknown_prefix(&e, pv.last());
                }
                return Err(e);
            },
        };
        let mut keys: Vec<KeyCode> = Vec::new();
        let mut i: usize = 0;
        let nmods = parts.len() - 1;
        while i < nmods
            invariant
                nmods == parts@.len() - 1,
                pv == parts@.map_values(|p: String| p@),
                pv == split_plus(combo@).map_values(|p: Seq<char>| trimmed(p)),
                pv.len() >= 2,
                spec_key(pv.last()) is Some,
                i <= nmods,
                keys@.len() == i,
                forall|k: int| 0 <= k < i ==> spec_key(pv.drop_last()[k]) == Some(
                    #[trigger] keys@[k],
                ),
            decreases nmods - i,
        {
            match parse_key(parts[i].as_str()) {
                Ok(k) => {
                    keys.push(k);
                },
                Err(e) => {
                    proof {
                        assert forall|k: int| 0 <= k < i implies spec_key(
                            #[trigger] pv.drop_last()[k],
                        ) is Some by {
                            assert(spec_key(pv.drop_last()[k]) == Some(keys@[k]));
                        }
                        lemma_first_unknown_at(pv.drop_last(), i as int);
                        lemma_unknown_prefix(&e, pv.drop_last()[i as int]);
                    }
                    return Err(e);
                },
            }
            i += 1;
        }
        proof {
            lemma_first_unknown_none(pv.drop_last(), keys@);
        }
        let mut j: usize = 0;
        while j < nmods
            invariant
                nmods == keys@.len(),
                j <= nmods,
                events@ == press_events(keys@).subrange(0, j as int),
            decreases nmods - j,
        {
            events.push(KeyEvent { key: keys[j], dir: KeyDir::Press });
            proof {
                assert(events@ =~= press_events(keys@).subrange(0, j + 1));
            }
            j += 1;
        }
        proof {
            assert(press_events(keys@).subrange(0, nmods as int) =~= press_events(keys@));
        }
        events.push(KeyEvent { key: fk, dir: KeyDir::Click });
        let mut m = nmods;
        while m > 0
            invariant
                nmods == keys@.len(),
                m <= nmods,
                events@ == press_events(keys@) + seq![
                    KeyEvent { key: fk, dir: KeyDir::Click },
                ] + release_events_rev(keys@).subrange(0, nmods - m),
            decreases m,
        {
            m -= 1;
            events.push(KeyEvent { key: keys[m], dir: KeyDir::Release });
            proof {
                assert(release_events_rev(keys@)[nmods - m - 1] == (KeyEvent {
                    key: keys@[m as int],
                    dir: KeyDir::Release,
                }));
                assert(events@ =~= press_events(keys@) + seq![
                    KeyEvent { key: fk, dir: KeyDir::Click },
                ] + release_events_rev(keys@).subrange(0, nmods - m));
            }
        }
        proof {
            assert(release_events_rev(keys@).subrange(0, nmods as int) =~= release_events_rev(
                keys@,
            ));
            assert(spec_combo_plan(combo@) == ComboPlan::Events(events@));
        }
        Ok(events)
    }
}

/// An `Unknown key` message is the prefix plus the offending segment.
proof fn lemma_unknown_prefix(e: &AppError, seg: Seq<char>)
    requires
        e is Input,
        e->Input_0@ == "Unknown key: "@ + seg,
    ensures
        e->Input_0@.subrange("Unknown key: "@.len() as int, e->Input_0@.len() as int) == seg,
        e->Input_0@.subrange(0, "Unknown key: "@.len() as int) == "Unknown key: "@,
{
    let p = "Unknown key: "@;
    assert((p + seg).subrange(p.len() as int, (p + seg).len() as int) =~= seg);
    assert((p + seg).subrange(0, p.len() as int) =~= p);
}

/// If every earlier segment parsed and segment `i` does not, `i` is the
/// first unknown position.
proof fn lemma_first_unknown_at(parts: Seq<Seq<char>>, i: int)
    requires
        0 <= i < parts.len(),
        forall|k: int| 0 <= k < i ==> spec_key(#[trigger] parts[k]) is Some,
        spec_key(parts[i]) is None,
    ensures
        first_unknown(parts) == i,
    decreases i,
{
    if i == 0 {
    } else {
        let t = parts.subrange(1, parts.len() as int);
        assert(forall|k: int| 0 <= k < i - 1 ==> #[trigger] t[k] == parts[k + 1]);
        lemma_first_unknown_at(t, i - 1);
    }
}

/// If every segment parsed, there is no unknown position.
proof fn lemma_first_unknown_none(parts: Seq<Seq<char>>, keys: Seq<KeyCode>)
    requires
        keys.len() == parts.len(),
        forall|k: int| 0 <= k < parts.len() ==> spec_key(#[trigger] parts[k]) == Some(keys[k]),
    ensures
        first_unknown(parts) == -1,
        Seq::new(parts.len(), |i: int| spec_key(parts[i]).unwrap()) == keys,
    decreases parts.len(),
{
    assert(Seq::new(parts.len(), |i: int| spec_key(parts[i]).unwrap()) =~= keys);
    if parts.len() > 0 {
        let t = parts.subrange(1, parts.len() as int);
        let kt = keys.subrange(1, keys.len() as int);
        assert(forall|k: int| 0 <= k < t.len() ==> #[trigger] t[k] == parts[k + 1]);
        assert(forall|k: int| 0 <= k < kt.len() ==> #[trigger] kt[k] == keys[k + 1]);
        lemma_first_unknown_none(t, kt);
    }
}

/// One step of the fast-typing protocol over the clipboard.
#[derive(Debug)]
pub enum TypeStep {
    SetClipboard(String),
    SleepMs(u64),
    PasteCombo,
}

/// The clipboard text after running the steps from a starting text.
pub open spec fn clipboard_after(start: Seq<char>, steps: Seq<TypeStep>) -> Seq<char>
    decreases steps.len(),
{
    if steps.len() == 0 {
        start
    } else {
        let next = match steps[0] {
            TypeStep::SetClipboard(t) => t@,
            _ => start,
        };
        clipboard_after(next, steps.subrange(1, steps.len() as int))
    }
}

/// A final `SetClipboard` fixes the outcome whatever went before.
proof fn lemma_clipboard_last_set(start: Seq<char>, steps: Seq<TypeStep>, p: String)
    requires
        steps.len() > 0,
        steps.last() == TypeStep::SetClipboard(p),
    ensures
        clipboard_after(start, steps) == p@,
    decreases steps.len(),
{
    let t = steps.subrange(1, steps.len() as int);
    let next = match steps[0] {
        TypeStep::SetClipboard(q) => q@,
        _ => start,
    };
    assert(clipboard_after(start, steps) == clipboard_after(next, t));
    if steps.len() == 1 {
        assert(steps[0] == steps.last());
        assert(t.len() == 0);
        assert(clipboard_after(next, t) == next);
    } else {
        assert(t.last() == steps.last());
        lemma_clipboard_last_set(next, t, p);
    }
}

/// The fast-typing protocol: put the text on the clipboard, let the OS
/// settle, paste, settle again, and restore the prior clipboard text. After
/// the steps run, the clipboard again holds `prior`, whatever it held
/// before.
pub fn fast_type_steps(prior: &str, text: &str) -> (r: Vec<TypeStep>)
    ensures
        r@.len() == 5,
        r@[0] matches TypeStep::SetClipboard(t) && t@ == text@,
        r@[1] == TypeStep::SleepMs(10),
        r@[2] == TypeStep::PasteCombo,
        r@[3] == TypeStep::SleepMs(20),
        r@[4] matches TypeStep::SetClipboard(p) && p@ == prior@,
        forall|start: Seq<char>| clipboard_after(start, r@) == prior@,
{
    let mut steps: Vec<TypeStep> = Vec::new();
    steps.push(TypeStep::SetClipboard(String::from_str(text)));
    steps.push(TypeStep::SleepMs(10));
    steps.push(TypeStep::PasteCombo);
    steps.push(TypeStep::SleepMs(20));
    let restore = String::from_str(prior);
    steps.push(TypeStep::SetClipboard(restore));
    proof {
        let p = match steps@.last() {
            TypeStep::SetClipboard(p) => p,
            _ => arbitrary(),
        };
        assert forall|start: Seq<char>| clipboard_after(start, steps@) == prior@ by {
            lemma_clipboard_last_set(start, steps@, p);
        }
    }
    steps
}

} // verus!

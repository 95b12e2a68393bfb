//! Keys and chords: the bytes a PTY expects for a textual chord (`ctrl+c`,
//! `enter`, `up`) or a key event, the canonical spelling of a chord, and the
//! action a chord is bound to.

use vstd::prelude::*;
use crate::shortcuts::ShortcutMap;
use crate::text::{
    ascii_lower, ascii_upper, is_whitespace, lower_chars, spec_ascii_lower, spec_ascii_upper,
    spec_is_whitespace, spec_lower_seq, spec_trim, str_chars, string_from_chars, string_push, text_eq,
    trim_chars, lemma_ascii_lower_char, lemma_trim_edges, lemma_trim_fixed, lemma_trim_start_bounds,
    lemma_trim_end_bounds, lemma_trim_start_char, lemma_trim_end_char, trim_start_index, trim_end_index,
};

verus! {

/// `s` cut at every `sep` (`str::split`).
pub open spec fn split_on(s: Seq<char>, sep: char) -> Seq<Seq<char>>
    decreases s.len(),
{
    if s.len() == 0 {
        seq![Seq::<char>::empty()]
    } else {
        let pre = split_on(s.drop_last(), sep);
        if s.last() == sep {
            pre.push(Seq::empty())
        } else {
            pre.update(pre.len() - 1, pre.last().push(s.last()))
        }
    }
}

proof fn lemma_split_nonempty(s: Seq<char>, sep: char)
    ensures
        split_on(s, sep).len() >= 1,
    decreases s.len(),
{
    if s.len() > 0 {
        lemma_split_nonempty(s.drop_last(), sep);
    }
}

/// The `+`-separated parts of a chord.
pub fn split_plus(s: &[char]) -> (parts: Vec<Vec<char>>)
    ensures
        parts@.map_values(|p: Vec<char>| p@) == split_on(s@, '+'),
{
    split_at_char(s, '+')
}

/// The `sep`-separated parts of `s` (`str::split`).
pub fn split_at_char(s: &[char], sep: char) -> (parts: Vec<Vec<char>>)
    ensures
        parts@.map_values(|p: Vec<char>| p@) == split_on(s@, sep),
{
    let mut parts: Vec<Vec<char>> = Vec::new();
    let mut cur: Vec<char> = Vec::new();
    let mut i: usize = 0;
    while i < s.len()
        invariant
            i <= s@.len(),
            parts@.map_values(|p: Vec<char>| p@).push(cur@) == split_on(s@.take(i as int), sep),
        decreases s@.len() - i,
    {
        let ghost prev = parts@.map_values(|p: Vec<char>| p@);
        let ghost c0 = cur@;
        proof {
            lemma_split_nonempty(s@.take(i as int), sep);
            assert(s@.take(i + 1).drop_last() =~= s@.take(i as int));
        }
        if s[i] == sep {
            let done = cur;
            parts.push(done);
            cur = Vec::new();
            assert(parts@.map_values(|p: Vec<char>| p@) =~= prev.push(c0));
        } else {
            cur.push(s[i]);
            assert(parts@.map_values(|p: Vec<char>| p@) =~= prev);
        }
        i = i + 1;
        proof {
            assert(parts@.map_values(|p: Vec<char>| p@).push(cur@) =~= split_on(s@.take(i as int), sep));
        }
    }
    let ghost prev = parts@.map_values(|p: Vec<char>| p@);
    let ghost c0 = cur@;
    parts.push(cur);
    proof {
        assert(s@.take(i as int) =~= s@);
        assert(parts@.map_values(|p: Vec<char>| p@) =~= prev.push(c0));
    }
    parts
}

/// Whether `s` spells `w`.
fn is_word(s: &Vec<char>, w: &str) -> (r: bool)
    ensures
        r == (s@ == w@),
{
    let t = string_from_chars(s.as_slice());
    text_eq(t.as_str(), w)
}

/// The control byte for `ctrl+c`: letters map to 1..26, plus `[`, `\`,
/// `]`, space and `@`.
pub open spec fn spec_control_byte(c: char) -> Option<u8> {
    let u = spec_ascii_upper(c);
    if 'A' <= u <= 'Z' {
        Some((u as u32 - 'A' as u32 + 1) as u8)
    } else if u == '[' {
        Some(0x1b)
    } else if u == '\\' {
        Some(0x1c)
    } else if u == ']' {
        Some(0x1d)
    } else if u == ' ' || u == '@' {
        Some(0x00)
    } else {
        None
    }
}

fn control_byte(c: char) -> (r: Option<u8>)
    ensures
        r == spec_control_byte(c),
{
    let u = ascii_upper(c);
    if 'A' <= u && u <= 'Z' {
        Some(((u as u32) - ('A' as u32) + 1) as u8)
    } else if u == '[' {
        Some(0x1b)
    } else if u == '\\' {
        Some(0x1c)
    } else if u == ']' {
        Some(0x1d)
    } else if u == ' ' || u == '@' {
        Some(0x00)
    } else {
        None
    }
}

/// The bytes of a named key (`enter`, `up`, `pagedown`, …).
pub open spec fn spec_named_key(k: Seq<char>) -> Option<Seq<u8>> {
    if k == "enter"@ || k == "return"@ || k == "cr"@ {
        Some(seq![0x0du8])
    } else if k == "tab"@ {
        Some(seq![0x09u8])
    } else if k == "esc"@ || k == "escape"@ {
        Some(seq![0x1bu8])
    } else if k == "space"@ {
        Some(seq![0x20u8])
    } else if k == "backspace"@ || k == "bs"@ {
        Some(seq![0x7fu8])
    } else if k == "delete"@ || k == "del"@ {
        Some(seq![0x1bu8, 0x5bu8, 0x33u8, 0x7eu8])
    } else if k == "up"@ {
        Some(seq![0x1bu8, 0x5bu8, 0x41u8])
    } else if k == "down"@ {
        Some(seq![0x1bu8, 0x5bu8, 0x42u8])
    } else if k == "right"@ {
        Some(seq![0x1bu8, 0x5bu8, 0x43u8])
    } else if k == "left"@ {
        Some(seq![0x1bu8, 0x5bu8, 0x44u8])
    } else if k == "home"@ {
        Some(seq![0x1bu8, 0x5bu8, 0x48u8])
    } else if k == "end"@ {
        Some(seq![0x1bu8, 0x5bu8, 0x46u8])
    } else if k == "pageup"@ {
        Some(seq![0x1bu8, 0x5bu8, 0x35u8, 0x7eu8])
    } else if k == "pagedown"@ {
        Some(seq![0x1bu8, 0x5bu8, 0x36u8, 0x7eu8])
    } else {
        None
    }
}

fn named_key(k: &Vec<char>) -> (r: Option<Vec<u8>>)
    ensures
        match r {
            Some(b) => spec_named_key(k@) == Some(b@),
            None => spec_named_key(k@) is None,
        },
{
    let b: Vec<u8> = if is_word(k, "enter") || is_word(k, "return") || is_word(k, "cr") {
        vec![0x0d]
    } else if is_word(k, "tab") {
        vec![0x09]
    } else if is_word(k, "esc") || is_word(k, "escape") {
        vec![0x1b]
    } else if is_word(k, "space") {
        vec![0x20]
    } else if is_word(k, "backspace") || is_word(k, "bs") {
        vec![0x7f]
    } else if is_word(k, "delete") || is_word(k, "del") {
        vec![0x1b, 0x5b, 0x33, 0x7e]
    } else if is_word(k, "up") {
        vec![0x1b, 0x5b, 0x41]
    } else if is_word(k, "down") {
        vec![0x1b, 0x5b, 0x42]
    } else if is_word(k, "right") {
        vec![0x1b, 0x5b, 0x43]
    } else if is_word(k, "left") {
        vec![0x1b, 0x5b, 0x44]
    } else if is_word(k, "home") {
        vec![0x1b, 0x5b, 0x48]
    } else if is_word(k, "end") {
        vec![0x1b, 0x5b, 0x46]
    } else if is_word(k, "pageup") {
        vec![0x1b, 0x5b, 0x35, 0x7e]
    } else if is_word(k, "pagedown") {
        vec![0x1b, 0x5b, 0x36, 0x7e]
    } else {
        return None;
    };
    proof {
        assert(spec_named_key(k@) == Some(b@));
    }
    Some(b)
}

/// A control modifier word.
pub open spec fn is_ctrl_word(m: Seq<char>) -> bool {
    m == "ctrl"@ || m == "control"@ || m == "c"@
}

/// An alt modifier word.
pub open spec fn is_alt_word(m: Seq<char>) -> bool {
    m == "alt"@ || m == "meta"@ || m == "option"@
}

/// `b` with ESC in front when `alt`.
pub open spec fn alt_prefixed(alt: bool, b: Seq<u8>) -> Seq<u8> {
    if alt {
        seq![0x1bu8] + b
    } else {
        b
    }
}

/// The bytes a textual chord sends: modifiers joined by `+` before the key;
/// a named key (matched in any case), or a single character as it is
/// written (its control byte with `ctrl`); ESC first with `alt`.
pub open spec fn spec_chord_to_bytes(chord: Seq<char>) -> Option<Seq<u8>> {
    let t = spec_trim(chord);
    if t.len() == 0 {
        None
    } else {
        let parts = split_on(t, '+').map_values(|p: Seq<char>| spec_trim(p));
        let mods = parts.drop_last();
        let ctrl = exists|i: int| 0 <= i < mods.len() && is_ctrl_word(#[trigger] mods[i]);
        let alt = exists|i: int| 0 <= i < mods.len() && is_alt_word(#[trigger] mods[i]);
        let key = parts.last();
        match spec_named_key(spec_lower_seq(key)) {
            Some(b) => Some(alt_prefixed(alt, b)),
            None => if key.len() == 1 {
                if ctrl {
                    match spec_control_byte(key[0]) {
                        Some(x) => Some(alt_prefixed(alt, seq![x])),
                        None => None,
                    }
                } else {
                    Some(alt_prefixed(alt, vstd::utf8::encode_utf8(key)))
                }
            } else {
                None
            },
        }
    }
}

/// The UTF-8 bytes of some characters.
fn utf8_of_chars(v: &Vec<char>) -> (b: Vec<u8>)
    ensures
        b@ == vstd::utf8::encode_utf8(v@),
{
    let s = string_from_chars(v.as_slice());
    let bytes = s.as_str().as_bytes();
    let mut out: Vec<u8> = Vec::new();
    let mut i: usize = 0;
    while i < bytes.len()
        invariant
            i <= bytes@.len(),
            out@ == bytes@.take(i as int),
        decreases bytes@.len() - i,
    {
        out.push(bytes[i]);
        i = i + 1;
        assert(out@ =~= bytes@.take(i as int));
    }
    assert(bytes@.take(i as int) =~= bytes@);
    out
}

/// ESC followed by `b`.
fn esc_then(b: Vec<u8>) -> (r: Vec<u8>)
    ensures
        r@ == seq![0x1bu8] + b@,
{
    let mut out: Vec<u8> = vec![0x1b];
    let mut i: usize = 0;
    while i < b.len()
        invariant
            i <= b@.len(),
            out@ == seq![0x1bu8] + b@.take(i as int),
        decreases b@.len() - i,
    {
        out.push(b[i]);
        i = i + 1;
        assert(out@ =~= seq![0x1bu8] + b@.take(i as int));
    }
    assert(b@.take(i as int) =~= b@);
    out
}

/// The bytes to write to a PTY for a textual chord like `ctrl+c`, `enter`,
/// `up` or a single character; `None` if it is not recognised.
pub fn chord_to_bytes(chord: &str) -> (r: Option<Vec<u8>>)
    ensures
        match r {
            Some(b) => spec_chord_to_bytes(chord@) == Some(b@),
            None => spec_chord_to_bytes(chord@) is None,
        },
{
    let all = str_chars(chord);
    let t = trim_chars(all.as_slice());
    if t.len() == 0 {
        return None;
    }
    let raw = split_plus(t.as_slice());
    proof {
        lemma_split_nonempty(t@, '+');
    }
    let mut parts: Vec<Vec<char>> = Vec::new();
    let mut i: usize = 0;
    while i < raw.len()
        invariant
            i <= raw@.len(),
            parts@.map_values(|p: Vec<char>| p@) == raw@.take(i as int).map_values(|p: Vec<char>| spec_trim(p@)),
        decreases raw@.len() - i,
    {
        let ghost prev = parts@.map_values(|p: Vec<char>| p@);
        let t = trim_chars(raw[i].as_slice());
        let ghost tv = t@;
        parts.push(t);
        proof {
            assert(parts@.map_values(|p: Vec<char>| p@) =~= prev.push(tv));
            assert(raw@.take(i + 1) =~= raw@.take(i as int).push(raw@[i as int]));
        }
        i = i + 1;
        assert(parts@.map_values(|p: Vec<char>| p@) =~= raw@.take(i as int).map_values(|p: Vec<char>| spec_trim(p@)));
    }
    let ghost ps = split_on(t@, '+').map_values(|p: Seq<char>| spec_trim(p));
    proof {
        assert(raw@.take(i as int) =~= raw@);
        assert(parts@.map_values(|p: Vec<char>| p@) =~= ps);
    }
    let n = parts.len();
    let mut ctrl = false;
    let mut alt = false;
    let mut j: usize = 0;
    while j < n - 1
        invariant
            n == parts@.len(),
            n >= 1,
            j <= n - 1,
            parts@.map_values(|p: Vec<char>| p@) == ps,
            ctrl == exists|m: int| 0 <= m < j && is_ctrl_word(#[trigger] ps.drop_last()[m]),
            alt == exists|m: int| 0 <= m < j && is_alt_word(#[trigger] ps.drop_last()[m]),
        decreases n - 1 - j,
    {
        let m = &parts[j];
        assert(m@ == ps.drop_last()[j as int]);
        if is_word(m, "ctrl") || is_word(m, "control") || is_word(m, "c") {
            ctrl = true;
        }
        if is_word(m, "alt") || is_word(m, "meta") || is_word(m, "option") {
            alt = true;
        }
        j = j + 1;
    }
    let key = &parts[n - 1];
    let k = lower_chars(key.as_slice());
    assert(key@ == ps.last());
    match named_key(&k) {
        Some(b) => {
            if alt {
                Some(esc_then(b))
            } else {
                Some(b)
            }
        },
        None => {
            if key.len() == 1 {
                if ctrl {
                    match control_byte(key[0]) {
                        Some(x) => {
                            if alt {
                                Some(esc_then(vec![x]))
                            } else {
                                Some(vec![x])
                            }
                        },
                        None => None,
                    }
                } else {
                    let b = utf8_of_chars(key);
                    if alt {
                        Some(esc_then(b))
                    } else {
                        Some(b)
                    }
                }
            } else {
                None
            }
        },
    }
}

/// A chord's canonical parts: which modifiers are present and the key.
pub struct ChordParts {
    pub ctrl: bool,
    pub alt: bool,
    pub shift: bool,
    pub sup: bool,
    pub key: Seq<char>,
}

/// The canonical name of a key token (`,` is `comma`, `esc` is `escape`, …).
pub open spec fn spec_key_token(k: Seq<char>) -> Seq<char> {
    if k == ","@ {
        "comma"@
    } else if k == "."@ {
        "period"@
    } else if k == "/"@ {
        "slash"@
    } else if k == ";"@ {
        "semicolon"@
    } else if k == "return"@ || k == "cr"@ {
        "enter"@
    } else if k == "esc"@ {
        "escape"@
    } else if k == "bs"@ {
        "backspace"@
    } else if k == "del"@ {
        "delete"@
    } else {
        k
    }
}

fn normalize_key_token(k: &Vec<char>) -> (r: String)
    ensures
        r@ == spec_key_token(k@),
{
    if is_word(k, ",") {
        "comma".to_owned()
    } else if is_word(k, ".") {
        "period".to_owned()
    } else if is_word(k, "/") {
        "slash".to_owned()
    } else if is_word(k, ";") {
        "semicolon".to_owned()
    } else if is_word(k, "return") || is_word(k, "cr") {
        "enter".to_owned()
    } else if is_word(k, "esc") {
        "escape".to_owned()
    } else if is_word(k, "bs") {
        "backspace".to_owned()
    } else if is_word(k, "del") {
        "delete".to_owned()
    } else {
        string_from_chars(k.as_slice())
    }
}

/// One (trimmed, lowercased) part of a chord folded into the parts so far.
pub open spec fn chord_step(st: ChordParts, p: Seq<char>) -> ChordParts {
    if p == "ctrl"@ || p == "control"@ {
        ChordParts { ctrl: true, ..st }
    } else if p == "alt"@ || p == "option"@ {
        ChordParts { alt: true, ..st }
    } else if p == "shift"@ {
        ChordParts { shift: true, ..st }
    } else if p == "super"@ || p == "cmd"@ || p == "command"@ || p == "meta"@ || p == "win"@ {
        ChordParts { sup: true, ..st }
    } else if p.len() == 0 {
        st
    } else {
        ChordParts { key: spec_key_token(p), ..st }
    }
}

/// The parts of `ps`, folded left to right.
pub open spec fn chord_fold(ps: Seq<Seq<char>>) -> ChordParts
    decreases ps.len(),
{
    if ps.len() == 0 {
        ChordParts { ctrl: false, alt: false, shift: false, sup: false, key: Seq::empty() }
    } else {
        chord_step(chord_fold(ps.drop_last()), ps.last())
    }
}

/// `ctrl+alt+shift+super+key`, with the absent modifiers left out.
pub open spec fn spec_assemble(ctrl: bool, alt: bool, shift: bool, sup: bool, key: Seq<char>) -> Seq<char> {
    (if ctrl { "ctrl+"@ } else { Seq::empty() }) + (if alt { "alt+"@ } else { Seq::empty() }) + (if shift {
        "shift+"@
    } else {
        Seq::empty()
    }) + (if sup { "super+"@ } else { Seq::empty() }) + key
}

/// The canonical spelling of a chord: modifiers in `ctrl+alt+shift+super`
/// order with normalised names, then the (last) key.
pub open spec fn spec_normalize_chord(chord: Seq<char>) -> Seq<char> {
    let st = chord_fold(split_on(chord, '+').map_values(|p: Seq<char>| spec_lower_seq(spec_trim(p))));
    spec_assemble(st.ctrl, st.alt, st.shift, st.sup, st.key)
}

pub(crate) fn push_str(out: &mut String, s: &str)
    ensures
        final(out)@ == old(out)@ + s@,
{
    let cs = str_chars(s);
    let mut i: usize = 0;
    while i < cs.len()
        invariant
            i <= cs@.len(),
            cs@ == s@,
            out@ == old(out)@ + cs@.take(i as int),
        decreases cs@.len() - i,
    {
        string_push(out, cs[i]);
        i = i + 1;
        assert(out@ =~= old(out)@ + cs@.take(i as int));
    }
    assert(cs@.take(i as int) =~= cs@);
}

fn assemble(ctrl: bool, alt: bool, shift: bool, sup: bool, key: &str) -> (r: String)
    ensures
        r@ == spec_assemble(ctrl, alt, shift, sup, key@),
{
    let mut out = String::new();
    let ghost e = Seq::<char>::empty();
    if ctrl {
        push_str(&mut out, "ctrl+");
    }
    if alt {
        push_str(&mut out, "alt+");
    }
    if shift {
        push_str(&mut out, "shift+");
    }
    if sup {
        push_str(&mut out, "super+");
    }
    push_str(&mut out, key);
    proof {
        assert(out@ =~= spec_assemble(ctrl, alt, shift, sup, key@));
    }
    out
}

/// Canonicalize a chord into `ctrl+alt+shift+super+key` order with
/// normalised modifier and key names, so differently written chords compare
/// equal.
pub fn normalize_chord(chord: &str) -> (r: String)
    ensures
        r@ == spec_normalize_chord(chord@),
{
    let all = str_chars(chord);
    let raw = split_plus(all.as_slice());
    let ghost ps = split_on(chord@, '+').map_values(|p: Seq<char>| spec_lower_seq(spec_trim(p)));
    let mut ctrl = false;
    let mut alt = false;
    let mut shift = false;
    let mut sup = false;
    let mut key = String::new();
    let mut i: usize = 0;
    while i < raw.len()
        invariant
            i <= raw@.len(),
            raw@.map_values(|p: Vec<char>| p@) == split_on(chord@, '+'),
            ps == split_on(chord@, '+').map_values(|p: Seq<char>| spec_lower_seq(spec_trim(p))),
            chord_fold(ps.take(i as int)) == (ChordParts { ctrl, alt, shift, sup, key: key@ }),
        decreases raw@.len() - i,
    {
        let t = trim_chars(raw[i].as_slice());
        let p = lower_chars(t.as_slice());
        assert(p@ == ps[i as int]);
        if is_word(&p, "ctrl") || is_word(&p, "control") {
            ctrl = true;
        } else if is_word(&p, "alt") || is_word(&p, "option") {
            alt = true;
        } else if is_word(&p, "shift") {
            shift = true;
        } else if is_word(&p, "super") || is_word(&p, "cmd") || is_word(&p, "command") || is_word(&p, "meta")
            || is_word(&p, "win") {
            sup = true;
        } else if p.len() == 0 {
        } else {
            key = normalize_key_token(&p);
        }
        proof {
            assert(ps.take(i + 1).drop_last() =~= ps.take(i as int));
        }
        i = i + 1;
    }
    proof {
        assert(ps.take(i as int) =~= ps);
    }
    assemble(ctrl, alt, shift, sup, key.as_str())
}

/// Position of the first binding whose chord normalises to `target`.
pub open spec fn binding_for(e: Seq<(Seq<char>, Seq<char>)>, target: Seq<char>) -> Option<int> {
    crate::workspace::first_match(e, bound_to(target))
}

/// Selects the bindings whose chord normalises to `target`.
pub open spec fn bound_to(target: Seq<char>) -> spec_fn((Seq<char>, Seq<char>)) -> bool {
    |x: (Seq<char>, Seq<char>)| spec_normalize_chord(x.1) == target
}

/// The action bound (in action-id order, first match) to a chord equal to
/// `chord` once both are normalised.
pub fn resolve_action<'a>(chord: &str, shortcuts: &'a ShortcutMap) -> (r: Option<&'a str>)
    ensures
        match binding_for(shortcuts.entry_seq(), spec_normalize_chord(chord@)) {
            Some(i) => r matches Some(a) && a@ == shortcuts.entry_seq()[i].0,
            None => r is None,
        },
{
    let target = normalize_chord(chord);
    let entries = shortcuts.entries();
    let ghost e = shortcuts.entry_seq();
    let mut i: usize = 0;
    while i < entries.len()
        invariant
            i <= entries@.len(),
            e == entries@.map_values(|p: (String, String)| (p.0@, p.1@)),
            e == shortcuts.entry_seq(),
            target@ == spec_normalize_chord(chord@),
            forall|j: int| 0 <= j < i ==> !bound_to(target@)(#[trigger] e[j]),
        decreases entries@.len() - i,
    {
        let n = normalize_chord(entries[i].1.as_str());
        assert(e[i as int] == (entries@[i as int].0@, entries@[i as int].1@));
        if text_eq(n.as_str(), target.as_str()) {
            proof {
                crate::workspace::lemma_first_match_at(e, bound_to(target@), i as int);
            }
            return Some(entries[i].0.as_str());
        }
        i = i + 1;
    }
    proof {
        crate::workspace::lemma_first_match_at(e, bound_to(target@), i as int);
    }
    None
}

/// A key as the GUI reports it.
#[derive(Debug, Clone, PartialEq, Eq)]
pub enum KeyInput {
    /// A key producing text.
    Character(String),
    Enter,
    Tab,
    Backspace,
    Escape,
    Delete,
    ArrowUp,
    ArrowDown,
    ArrowRight,
    ArrowLeft,
    Home,
    End,
    PageUp,
    PageDown,
    /// Any other key (a bare modifier, a function key, …).
    Other,
}

/// The modifiers held with a key.
#[derive(Debug, Clone, Copy, PartialEq, Eq, Structural)]
pub struct Mods {
    pub ctrl: bool,
    pub alt: bool,
    pub shift: bool,
    pub meta: bool,
}

/// The name a non-text key has in a chord, and the bytes it sends.
pub open spec fn key_name(k: KeyInput) -> Option<(Seq<char>, Seq<u8>)> {
    match k {
        KeyInput::Enter => Some(("enter"@, seq![0x0du8])),
        KeyInput::Tab => Some(("tab"@, seq![0x09u8])),
        KeyInput::Backspace => Some(("backspace"@, seq![0x7fu8])),
        KeyInput::Escape => Some(("escape"@, seq![0x1bu8])),
        KeyInput::Delete => Some(("delete"@, seq![0x1bu8, 0x5bu8, 0x33u8, 0x7eu8])),
        KeyInput::ArrowUp => Some(("up"@, seq![0x1bu8, 0x5bu8, 0x41u8])),
        KeyInput::ArrowDown => Some(("down"@, seq![0x1bu8, 0x5bu8, 0x42u8])),
        KeyInput::ArrowRight => Some(("right"@, seq![0x1bu8, 0x5bu8, 0x43u8])),
        KeyInput::ArrowLeft => Some(("left"@, seq![0x1bu8, 0x5bu8, 0x44u8])),
        KeyInput::Home => Some(("home"@, seq![0x1bu8, 0x5bu8, 0x48u8])),
        KeyInput::End => Some(("end"@, seq![0x1bu8, 0x5bu8, 0x46u8])),
        KeyInput::PageUp => Some(("pageup"@, seq![0x1bu8, 0x5bu8, 0x35u8, 0x7eu8])),
        KeyInput::PageDown => Some(("pagedown"@, seq![0x1bu8, 0x5bu8, 0x36u8, 0x7eu8])),
        _ => None,
    }
}

fn named_input(k: &KeyInput) -> (r: Option<(String, Vec<u8>)>)
    ensures
        match r {
            Some(p) => key_name(*k) == Some((p.0@, p.1@)),
            None => key_name(*k) is None,
        },
{
    let (n, b): (&str, Vec<u8>) = match k {
        KeyInput::Enter => ("enter", vec![0x0d]),
        KeyInput::Tab => ("tab", vec![0x09]),
        KeyInput::Backspace => ("backspace", vec![0x7f]),
        KeyInput::Escape => ("escape", vec![0x1b]),
        KeyInput::Delete => ("delete", vec![0x1b, 0x5b, 0x33, 0x7e]),
        KeyInput::ArrowUp => ("up", vec![0x1b, 0x5b, 0x41]),
        KeyInput::ArrowDown => ("down", vec![0x1b, 0x5b, 0x42]),
        KeyInput::ArrowRight => ("right", vec![0x1b, 0x5b, 0x43]),
        KeyInput::ArrowLeft => ("left", vec![0x1b, 0x5b, 0x44]),
        KeyInput::Home => ("home", vec![0x1b, 0x5b, 0x48]),
        KeyInput::End => ("end", vec![0x1b, 0x5b, 0x46]),
        KeyInput::PageUp => ("pageup", vec![0x1b, 0x5b, 0x35, 0x7e]),
        KeyInput::PageDown => ("pagedown", vec![0x1b, 0x5b, 0x36, 0x7e]),
        _ => return None,
    };
    Some((n.to_owned(), b))
}

/// The bytes a key event sends: text as UTF-8 (the control byte of its
/// first character with ctrl), named keys their sequences; ESC first with
/// alt or meta.
pub open spec fn spec_key_event_bytes(k: KeyInput, m: Mods) -> Option<Seq<u8>> {
    let alt = m.alt || m.meta;
    match k {
        KeyInput::Character(s) => if m.ctrl {
            if s@.len() == 0 {
                None
            } else {
                match spec_control_byte(s@[0]) {
                    Some(x) => Some(alt_prefixed(alt, seq![x])),
                    None => None,
                }
            }
        } else {
            Some(alt_prefixed(alt, vstd::utf8::encode_utf8(s@)))
        },
        _ => match key_name(k) {
            Some((_, b)) => Some(alt_prefixed(alt, b)),
            None => None,
        },
    }
}

/// Translate a key event into PTY bytes.
pub fn key_event_to_bytes(key: &KeyInput, mods: Mods) -> (r: Option<Vec<u8>>)
    ensures
        match r {
            Some(b) => spec_key_event_bytes(*key, mods) == Some(b@),
            None => spec_key_event_bytes(*key, mods) is None,
        },
{
    let alt = mods.alt || mods.meta;
    let base = match key {
        KeyInput::Character(s) => {
            if mods.ctrl {
                let cs = str_chars(s.as_str());
                if cs.len() == 0 {
                    return None;
                }
                return match control_byte(cs[0]) {
                    Some(x) => if alt {
                        Some(esc_then(vec![x]))
                    } else {
                        Some(vec![x])
                    },
                    None => None,
                };
            }
            utf8_of_chars(&str_chars(s.as_str()))
        },
        _ => match named_input(key) {
            Some((_, b)) => b,
            None => return None,
        },
    };
    if alt {
        Some(esc_then(base))
    } else {
        Some(base)
    }
}

/// The canonical chord of a key event; `None` for whitespace, an empty
/// character or a key without a name.
pub open spec fn spec_event_to_chord(k: KeyInput, m: Mods) -> Option<Seq<char>> {
    let token = match k {
        KeyInput::Character(s) => if s@.len() == 0 || spec_is_whitespace(s@[0]) {
            None
        } else {
            Some(spec_key_token(seq![spec_ascii_lower(s@[0])]))
        },
        _ => match key_name(k) {
            Some((n, _)) => Some(n),
            None => None,
        },
    };
    match token {
        Some(t) => Some(spec_assemble(m.ctrl, m.alt, m.shift, m.meta, t)),
        None => None,
    }
}

/// The canonical chord for a key event, or `None` for keys that cannot
/// trigger a shortcut.
pub fn event_to_chord(key: &KeyInput, mods: Mods) -> (r: Option<String>)
    ensures
        match r {
            Some(c) => spec_event_to_chord(*key, mods) == Some(c@),
            None => spec_event_to_chord(*key, mods) is None,
        },
{
    let token = match key {
        KeyInput::Character(s) => {
            let cs = str_chars(s.as_str());
            if cs.len() == 0 {
                return None;
            }
            if is_whitespace(cs[0]) {
                return None;
            }
            let one = vec![ascii_lower(cs[0])];
            assert(one@ =~= seq![spec_ascii_lower(s@[0])]);
            normalize_key_token(&one)
        },
        _ => match named_input(key) {
            Some((n, _)) => n,
            None => return None,
        },
    };
    Some(assemble(mods.ctrl, mods.alt, mods.shift, mods.meta, token.as_str()))
}


proof fn lemma_split_parts_lack(s: Seq<char>, sep: char)
    ensures
        forall|i: int| 0 <= i < split_on(s, sep).len() ==> !(#[trigger] split_on(s, sep)[i]).contains(sep),
    decreases s.len(),
{
    if s.len() > 0 {
        lemma_split_parts_lack(s.drop_last(), sep);
        lemma_split_nonempty(s.drop_last(), sep);
        let pre = split_on(s.drop_last(), sep);
        if s.last() != sep {
            let q = pre.last().push(s.last());
            assert(!q.contains(sep)) by {
                if q.contains(sep) {
                    let j = choose|j: int| 0 <= j < q.len() && q[j] == sep;
                    if j < pre.last().len() {
                        assert(pre.last()[j] == sep);
                        assert(pre[pre.len() - 1].contains(sep));
                    }
                }
            }
        }
    }
}

proof fn lemma_split_single(w: Seq<char>, sep: char)
    requires
        !w.contains(sep),
    ensures
        split_on(w, sep) == seq![w],
    decreases w.len(),
{
    if w.len() > 0 {
        let d = w.drop_last();
        assert(!d.contains(sep)) by {
            if d.contains(sep) {
                let j = choose|j: int| 0 <= j < d.len() && d[j] == sep;
                assert(w[j] == sep);
            }
        }
        lemma_split_single(d, sep);
        assert(w[w.len() - 1] != sep);
        assert(d.push(w.last()) =~= w);
        assert(split_on(w, sep) =~= seq![w]);
    } else {
        assert(w =~= Seq::<char>::empty());
    }
}

proof fn lemma_split_concat(a: Seq<char>, b: Seq<char>, sep: char)
    ensures
        split_on(a + seq![sep] + b, sep) == split_on(a, sep) + split_on(b, sep),
    decreases b.len(),
{
    let s = a + seq![sep] + b;
    if b.len() == 0 {
        assert(s.drop_last() =~= a);
        assert(split_on(s, sep) =~= split_on(a, sep) + split_on(b, sep));
    } else {
        lemma_split_concat(a, b.drop_last(), sep);
        assert(s.drop_last() =~= a + seq![sep] + b.drop_last());
        lemma_split_nonempty(b.drop_last(), sep);
        lemma_split_nonempty(a, sep);
        assert(split_on(s, sep) =~= split_on(a, sep) + split_on(b, sep));
    }
}

/// A chord part that trimming and lower-casing leave as it is, with no `+`.
pub open spec fn canonical_part(p: Seq<char>) -> bool {
    &&& !p.contains('+')
    &&& spec_trim(p) == p
    &&& spec_lower_seq(p) == p
}

/// A modifier name a chord part may spell.
pub open spec fn is_modifier_word(p: Seq<char>) -> bool {
    ||| p == "ctrl"@
    ||| p == "control"@
    ||| p == "alt"@
    ||| p == "option"@
    ||| p == "shift"@
    ||| p == "super"@
    ||| p == "cmd"@
    ||| p == "command"@
    ||| p == "meta"@
    ||| p == "win"@
}

/// A key as a canonical chord ends in: a canonical part that names no
/// modifier and is its own canonical token.
pub open spec fn canonical_key(k: Seq<char>) -> bool {
    &&& canonical_part(k)
    &&& !is_modifier_word(k)
    &&& spec_key_token(k) == k
}

/// A non-empty word of lower-case ASCII letters.
pub open spec fn lower_word(w: Seq<char>) -> bool {
    w.len() > 0 && forall|i: int| 0 <= i < w.len() ==> 'a' <= #[trigger] w[i] <= 'z'
}

proof fn lemma_lower_word(w: Seq<char>)
    requires
        lower_word(w),
    ensures
        canonical_part(w),
{
    assert(!w.contains('+')) by {
        if w.contains('+') {
            let j = choose|j: int| 0 <= j < w.len() && w[j] == '+';
            assert('a' <= w[j] <= 'z');
        }
    }
    assert('a' <= w[0] <= 'z');
    assert('a' <= w[w.len() - 1] <= 'z');
    lemma_trim_fixed(w);
    assert(spec_lower_seq(w) =~= w) by {
        assert forall|i: int| 0 <= i < w.len() implies spec_ascii_lower(w[i]) == w[i] by {
            assert('a' <= w[i] <= 'z');
        }
    }
}

proof fn lemma_part_canonical(q: Seq<char>)
    requires
        !q.contains('+'),
    ensures
        canonical_part(spec_lower_seq(spec_trim(q))),
{
    lemma_trim_edges(q);
    let a = crate::text::trim_start_index(q);
    let t = spec_trim(q);
    let u = spec_lower_seq(t);
    assert forall|j: int| 0 <= j < t.len() implies #[trigger] t[j] != '+' by {
        assert(t[j] == q[a + j]);
    }
    assert(!u.contains('+')) by {
        if u.contains('+') {
            let j = choose|j: int| 0 <= j < u.len() && u[j] == '+';
            lemma_ascii_lower_char(t[j]);
        }
    }
    if t.len() > 0 {
        lemma_ascii_lower_char(t[0]);
        lemma_ascii_lower_char(t[t.len() - 1]);
    }
    lemma_trim_fixed(u);
    assert(spec_lower_seq(u) =~= u) by {
        assert forall|j: int| 0 <= j < u.len() implies spec_ascii_lower(u[j]) == u[j] by {
            lemma_ascii_lower_char(t[j]);
        }
    }
}

/// The canonical names a key token can take.
pub open spec fn is_key_name(k: Seq<char>) -> bool {
            ||| k == "comma"@
            ||| k == "period"@
            ||| k == "slash"@
            ||| k == "semicolon"@
            ||| k == "enter"@
            ||| k == "escape"@
            ||| k == "backspace"@
            ||| k == "delete"@
            ||| k == "tab"@
            ||| k == "up"@
            ||| k == "down"@
            ||| k == "right"@
            ||| k == "left"@
            ||| k == "home"@
            ||| k == "end"@
            ||| k == "pageup"@
            ||| k == "pagedown"@
}

proof fn lemma_reveal_words()
    ensures
        forall|k: Seq<char>| is_key_name(k) ==> lower_word(k) && !is_modifier_word(k) && spec_key_token(k) == k,
        forall|w: Seq<char>| is_modifier_word(w) ==> w.len() >= 3,
        "ctrl+"@ == "ctrl"@ + seq!['+'],
        "alt+"@ == "alt"@ + seq!['+'],
        "shift+"@ == "shift"@ + seq!['+'],
        "super+"@ == "super"@ + seq!['+'],
        lower_word("ctrl"@) && lower_word("alt"@) && lower_word("shift"@) && lower_word("super"@),
        "alt"@ != "ctrl"@ && "alt"@ != "control"@,
        "shift"@ != "ctrl"@ && "shift"@ != "control"@ && "shift"@ != "alt"@ && "shift"@ != "option"@,
        "super"@ != "ctrl"@ && "super"@ != "control"@ && "super"@ != "alt"@ && "super"@ != "option"@
            && "super"@ != "shift"@,
{
        reveal_strlit("comma");
        reveal_strlit("period");
        reveal_strlit("slash");
        reveal_strlit("semicolon");
        reveal_strlit("enter");
        reveal_strlit("escape");
        reveal_strlit("backspace");
        reveal_strlit("delete");
        reveal_strlit("tab");
        reveal_strlit("up");
        reveal_strlit("down");
        reveal_strlit("right");
        reveal_strlit("left");
        reveal_strlit("home");
        reveal_strlit("end");
        reveal_strlit("pageup");
        reveal_strlit("pagedown");
        reveal_strlit("ctrl");
        reveal_strlit("control");
        reveal_strlit("alt");
        reveal_strlit("option");
        reveal_strlit("shift");
        reveal_strlit("super");
        reveal_strlit("cmd");
        reveal_strlit("command");
        reveal_strlit("meta");
        reveal_strlit("win");
        reveal_strlit(",");
        reveal_strlit(".");
        reveal_strlit("/");
        reveal_strlit(";");
        reveal_strlit("return");
        reveal_strlit("cr");
        reveal_strlit("esc");
        reveal_strlit("bs");
        reveal_strlit("del");
        reveal_strlit("ctrl+");
        reveal_strlit("alt+");
        reveal_strlit("shift+");
        reveal_strlit("super+");
        assert("ctrl+"@ =~= "ctrl"@ + seq!['+']);
        assert("alt+"@ =~= "alt"@ + seq!['+']);
        assert("shift+"@ =~= "shift"@ + seq!['+']);
        assert("super+"@ =~= "super"@ + seq!['+']);
        assert forall|i: int| 0 <= i < "comma"@.len() implies 'a' <= #[trigger] "comma"@[i] <= 'z' by {}
        assert("comma"@[0] != "shift"@[0]);
        assert("comma"@[0] != "super"@[0]);
        assert forall|i: int| 0 <= i < "period"@.len() implies 'a' <= #[trigger] "period"@[i] <= 'z' by {}
        assert("period"@[0] != "option"@[0]);
        assert("period"@[0] != "return"@[0]);
        assert forall|i: int| 0 <= i < "slash"@.len() implies 'a' <= #[trigger] "slash"@[i] <= 'z' by {}
        assert("slash"@[1] != "shift"@[1]);
        assert("slash"@[1] != "super"@[1]);
        assert forall|i: int| 0 <= i < "semicolon"@.len() implies 'a' <= #[trigger] "semicolon"@[i] <= 'z' by {}
        assert forall|i: int| 0 <= i < "enter"@.len() implies 'a' <= #[trigger] "enter"@[i] <= 'z' by {}
        assert("enter"@[0] != "shift"@[0]);
        assert("enter"@[0] != "super"@[0]);
        assert forall|i: int| 0 <= i < "escape"@.len() implies 'a' <= #[trigger] "escape"@[i] <= 'z' by {}
        assert("escape"@[0] != "option"@[0]);
        assert("escape"@[0] != "return"@[0]);
        assert forall|i: int| 0 <= i < "backspace"@.len() implies 'a' <= #[trigger] "backspace"@[i] <= 'z' by {}
        assert forall|i: int| 0 <= i < "delete"@.len() implies 'a' <= #[trigger] "delete"@[i] <= 'z' by {}
        assert("delete"@[0] != "option"@[0]);
        assert("delete"@[0] != "return"@[0]);
        assert forall|i: int| 0 <= i < "tab"@.len() implies 'a' <= #[trigger] "tab"@[i] <= 'z' by {}
        assert("tab"@[0] != "alt"@[0]);
        assert("tab"@[0] != "cmd"@[0]);
        assert("tab"@[0] != "win"@[0]);
        assert("tab"@[0] != "esc"@[0]);
        assert("tab"@[0] != "del"@[0]);
        assert forall|i: int| 0 <= i < "up"@.len() implies 'a' <= #[trigger] "up"@[i] <= 'z' by {}
        assert("up"@[0] != "cr"@[0]);
        assert("up"@[0] != "bs"@[0]);
        assert forall|i: int| 0 <= i < "down"@.len() implies 'a' <= #[trigger] "down"@[i] <= 'z' by {}
        assert("down"@[0] != "ctrl"@[0]);
        assert("down"@[0] != "meta"@[0]);
        assert forall|i: int| 0 <= i < "right"@.len() implies 'a' <= #[trigger] "right"@[i] <= 'z' by {}
        assert("right"@[0] != "shift"@[0]);
        assert("right"@[0] != "super"@[0]);
        assert forall|i: int| 0 <= i < "left"@.len() implies 'a' <= #[trigger] "left"@[i] <= 'z' by {}
        assert("left"@[0] != "ctrl"@[0]);
        assert("left"@[0] != "meta"@[0]);
        assert forall|i: int| 0 <= i < "home"@.len() implies 'a' <= #[trigger] "home"@[i] <= 'z' by {}
        assert("home"@[0] != "ctrl"@[0]);
        assert("home"@[0] != "meta"@[0]);
        assert forall|i: int| 0 <= i < "end"@.len() implies 'a' <= #[trigger] "end"@[i] <= 'z' by {}
        assert("end"@[0] != "alt"@[0]);
        assert("end"@[0] != "cmd"@[0]);
        assert("end"@[0] != "win"@[0]);
        assert("end"@[1] != "esc"@[1]);
        assert("end"@[0] != "del"@[0]);
        assert forall|i: int| 0 <= i < "pageup"@.len() implies 'a' <= #[trigger] "pageup"@[i] <= 'z' by {}
        assert("pageup"@[0] != "option"@[0]);
        assert("pageup"@[0] != "return"@[0]);
        assert forall|i: int| 0 <= i < "pagedown"@.len() implies 'a' <= #[trigger] "pagedown"@[i] <= 'z' by {}
        assert("super"@[1] != "shift"@[1]);
        assert forall|i: int| 0 <= i < "ctrl"@.len() implies 'a' <= #[trigger] "ctrl"@[i] <= 'z' by {}
        assert forall|i: int| 0 <= i < "alt"@.len() implies 'a' <= #[trigger] "alt"@[i] <= 'z' by {}
        assert forall|i: int| 0 <= i < "shift"@.len() implies 'a' <= #[trigger] "shift"@[i] <= 'z' by {}
        assert forall|i: int| 0 <= i < "super"@.len() implies 'a' <= #[trigger] "super"@[i] <= 'z' by {}
        assert(lower_word("comma"@));
        assert(!is_modifier_word("comma"@));
        assert(spec_key_token("comma"@) == "comma"@);
        assert(lower_word("period"@));
        assert(!is_modifier_word("period"@));
        assert(spec_key_token("period"@) == "period"@);
        assert(lower_word("slash"@));
        assert(!is_modifier_word("slash"@));
        assert(spec_key_token("slash"@) == "slash"@);
        assert(lower_word("semicolon"@));
        assert(!is_modifier_word("semicolon"@));
        assert(spec_key_token("semicolon"@) == "semicolon"@);
        assert(lower_word("enter"@));
        assert(!is_modifier_word("enter"@));
        assert(spec_key_token("enter"@) == "enter"@);
        assert(lower_word("escape"@));
        assert(!is_modifier_word("escape"@));
        assert(spec_key_token("escape"@) == "escape"@);
        assert(lower_word("backspace"@));
        assert(!is_modifier_word("backspace"@));
        assert(spec_key_token("backspace"@) == "backspace"@);
        assert(lower_word("delete"@));
        assert(!is_modifier_word("delete"@));
        assert(spec_key_token("delete"@) == "delete"@);
        assert(lower_word("tab"@));
        assert(!is_modifier_word("tab"@));
        assert(spec_key_token("tab"@) == "tab"@);
        assert(lower_word("up"@));
        assert(!is_modifier_word("up"@));
        assert(spec_key_token("up"@) == "up"@);
        assert(lower_word("down"@));
        assert(!is_modifier_word("down"@));
        assert(spec_key_token("down"@) == "down"@);
        assert(lower_word("right"@));
        assert(!is_modifier_word("right"@));
        assert(spec_key_token("right"@) == "right"@);
        assert(lower_word("left"@));
        assert(!is_modifier_word("left"@));
        assert(spec_key_token("left"@) == "left"@);
        assert(lower_word("home"@));
        assert(!is_modifier_word("home"@));
        assert(spec_key_token("home"@) == "home"@);
        assert(lower_word("end"@));
        assert(!is_modifier_word("end"@));
        assert(spec_key_token("end"@) == "end"@);
        assert(lower_word("pageup"@));
        assert(!is_modifier_word("pageup"@));
        assert(spec_key_token("pageup"@) == "pageup"@);
        assert(lower_word("pagedown"@));
        assert(!is_modifier_word("pagedown"@));
        assert(spec_key_token("pagedown"@) == "pagedown"@);
}

proof fn lemma_fold_push(ps: Seq<Seq<char>>, p: Seq<char>)
    ensures
        chord_fold(ps.push(p)) == chord_step(chord_fold(ps), p),
{
    assert(ps.push(p).drop_last() =~= ps);
}

proof fn lemma_fold_key(ps: Seq<Seq<char>>)
    requires
        forall|i: int| 0 <= i < ps.len() ==> canonical_part(#[trigger] ps[i]),
    ensures
        canonical_key(chord_fold(ps).key),
    decreases ps.len(),
{
    lemma_reveal_words();
    if ps.len() == 0 {
        let e = Seq::<char>::empty();
        assert(!e.contains('+'));
        lemma_trim_fixed(e);
        assert(spec_lower_seq(e) =~= e);
        assert(!is_modifier_word(e));
        assert(spec_key_token(e) == e) by {
            reveal_strlit(",");
            reveal_strlit(".");
            reveal_strlit("/");
            reveal_strlit(";");
            reveal_strlit("return");
            reveal_strlit("cr");
            reveal_strlit("esc");
            reveal_strlit("bs");
            reveal_strlit("del");
        }
    } else {
        let d = ps.drop_last();
        assert forall|i: int| 0 <= i < d.len() implies canonical_part(#[trigger] d[i]) by {
            assert(d[i] == ps[i]);
        }
        lemma_fold_key(d);
        let p = ps.last();
        assert(canonical_part(ps[ps.len() - 1]));
        let k = spec_key_token(p);
        if !is_modifier_word(p) && p.len() > 0 && k != p {
            assert(is_key_name(k));
            lemma_lower_word(k);
        }
    }
}

/// The modifier names of a canonical chord, in order.
pub open spec fn modifier_parts(c: bool, a: bool, s: bool, u: bool) -> Seq<Seq<char>> {
    (if c { seq!["ctrl"@] } else { seq![] }) + (if a { seq!["alt"@] } else { seq![] }) + (if s {
        seq!["shift"@]
    } else {
        seq![]
    }) + (if u { seq!["super"@] } else { seq![] })
}

proof fn lemma_split_after_word(w: Seq<char>, r: Seq<char>)
    requires
        !w.contains('+'),
    ensures
        split_on(w + seq!['+'] + r, '+') == seq![w] + split_on(r, '+'),
{
    lemma_split_concat(w, r, '+');
    lemma_split_single(w, '+');
}

proof fn lemma_split_prefixed(on: bool, w: Seq<char>, r: Seq<char>)
    requires
        lower_word(w),
    ensures
        split_on((if on { w + seq!['+'] } else { Seq::empty() }) + r, '+') == (if on {
            seq![w]
        } else {
            Seq::empty()
        }) + split_on(r, '+'),
{
    lemma_lower_word(w);
    if on {
        assert(w + seq!['+'] + r =~= (w + seq!['+']) + r);
        lemma_split_after_word(w, r);
    } else {
        assert(Seq::<char>::empty() + r =~= r);
        assert(Seq::<Seq<char>>::empty() + split_on(r, '+') =~= split_on(r, '+'));
    }
}

proof fn lemma_split_assembled(c: bool, a: bool, s: bool, u: bool, key: Seq<char>)
    requires
        !key.contains('+'),
    ensures
        split_on(spec_assemble(c, a, s, u, key), '+') == modifier_parts(c, a, s, u).push(key),
{
    lemma_reveal_words();
    let pc = if c { "ctrl"@ + seq!['+'] } else { Seq::<char>::empty() };
    let pa = if a { "alt"@ + seq!['+'] } else { Seq::<char>::empty() };
    let ps = if s { "shift"@ + seq!['+'] } else { Seq::<char>::empty() };
    let pu = if u { "super"@ + seq!['+'] } else { Seq::<char>::empty() };
    assert(spec_assemble(c, a, s, u, key) =~= pc + (pa + (ps + (pu + key))));
    lemma_split_single(key, '+');
    lemma_split_prefixed(u, "super"@, key);
    lemma_split_prefixed(s, "shift"@, pu + key);
    lemma_split_prefixed(a, "alt"@, ps + (pu + key));
    lemma_split_prefixed(c, "ctrl"@, pa + (ps + (pu + key)));
    assert(split_on(spec_assemble(c, a, s, u, key), '+') =~= modifier_parts(c, a, s, u).push(key));
}

proof fn lemma_fold_modifiers(c: bool, a: bool, s: bool, u: bool)
    ensures
        chord_fold(modifier_parts(c, a, s, u)) == (ChordParts {
            ctrl: c,
            alt: a,
            shift: s,
            sup: u,
            key: Seq::empty(),
        }),
{
    lemma_reveal_words();
    let e = Seq::<Seq<char>>::empty();
    let m1 = if c { e.push("ctrl"@) } else { e };
    let m2 = if a { m1.push("alt"@) } else { m1 };
    let m3 = if s { m2.push("shift"@) } else { m2 };
    let m4 = if u { m3.push("super"@) } else { m3 };
    assert(modifier_parts(c, a, s, u) =~= m4);
    lemma_fold_push(e, "ctrl"@);
    lemma_fold_push(m1, "alt"@);
    lemma_fold_push(m2, "shift"@);
    lemma_fold_push(m3, "super"@);
}

proof fn lemma_normalize_assembled(c: bool, a: bool, s: bool, u: bool, key: Seq<char>)
    requires
        canonical_key(key),
    ensures
        spec_normalize_chord(spec_assemble(c, a, s, u, key)) == spec_assemble(c, a, s, u, key),
{
    lemma_reveal_words();
    let out = spec_assemble(c, a, s, u, key);
    lemma_split_assembled(c, a, s, u, key);
    let parts = modifier_parts(c, a, s, u).push(key);
    let f = |p: Seq<char>| spec_lower_seq(spec_trim(p));
    assert forall|i: int| 0 <= i < parts.len() implies canonical_part(#[trigger] parts[i]) by {
        if i < parts.len() - 1 {
            let w = parts[i];
            assert(w == "ctrl"@ || w == "alt"@ || w == "shift"@ || w == "super"@);
            lemma_lower_word(w);
        }
    }
    assert(parts.map_values(f) =~= parts);
    lemma_fold_push(modifier_parts(c, a, s, u), key);
    lemma_fold_modifiers(c, a, s, u);
}

/// Normalising a chord twice gives what normalising it once gives: the
/// canonical spelling is a fixed point, so chords written in any spelling
/// or order compare equal after one normalisation.
pub proof fn law_normalize_chord_idempotent(chord: Seq<char>)
    ensures
        spec_normalize_chord(spec_normalize_chord(chord)) == spec_normalize_chord(chord),
{
    let raw = split_on(chord, '+');
    let ps = raw.map_values(|p: Seq<char>| spec_lower_seq(spec_trim(p)));
    lemma_split_parts_lack(chord, '+');
    assert forall|i: int| 0 <= i < ps.len() implies canonical_part(#[trigger] ps[i]) by {
        lemma_part_canonical(raw[i]);
    }
    lemma_fold_key(ps);
    let st = chord_fold(ps);
    lemma_normalize_assembled(st.ctrl, st.alt, st.shift, st.sup, st.key);
}

/// The chord of a key event is already canonical, so it compares equal to
/// the normalised spelling of the chord a user bound — for every key but a
/// typed `+`, whose chord `…++` normalises to `…+`.
pub proof fn law_event_chord_is_canonical(k: KeyInput, m: Mods)
    requires
        !(k matches KeyInput::Character(s) && s@.len() > 0 && s@[0] == '+'),
    ensures
        spec_event_to_chord(k, m) matches Some(c) ==> spec_normalize_chord(c) == c,
{
    lemma_reveal_words();
    match k {
        KeyInput::Character(s) => {
            if s@.len() > 0 && !spec_is_whitespace(s@[0]) {
                let x = spec_ascii_lower(s@[0]);
                lemma_ascii_lower_char(s@[0]);
                let one = seq![x];
                let t = spec_key_token(one);
                if t == one {
                    assert(!one.contains('+')) by {
                        if one.contains('+') {
                            assert(one[0] == '+');
                        }
                    }
                    lemma_trim_fixed(one);
                    assert(spec_lower_seq(one) =~= one);
                    assert(!is_modifier_word(one));
                } else {
                    assert(is_key_name(t));
                    lemma_lower_word(t);
                }
                lemma_normalize_assembled(m.ctrl, m.alt, m.shift, m.meta, t);
            }
        },
        _ => {
            if let Some((n, _)) = key_name(k) {
                reveal_strlit("tab");
                assert(is_key_name(n));
                lemma_lower_word(n);
                lemma_normalize_assembled(m.ctrl, m.alt, m.shift, m.meta, n);
            }
        },
    }
}

/// Leading whitespace does not change what trimming leaves.
proof fn lemma_trim_after_space(w: Seq<char>, p: Seq<char>)
    requires
        forall|i: int| 0 <= i < w.len() ==> spec_is_whitespace(#[trigger] w[i]),
    ensures
        spec_trim(w + p) == spec_trim(p),
{
    let s = w + p;
    let a = trim_start_index(p);
    lemma_trim_start_bounds(p);
    assert forall|i: int| 0 <= i < w.len() + a implies spec_is_whitespace(#[trigger] s[i]) by {
        if i >= w.len() {
            assert(s[i] == p[i - w.len()]);
        }
    }
    if w.len() + a < s.len() {
        assert(s[w.len() + a] == p[a]);
    }
    lemma_trim_start_char(s, w.len() + a);
    assert(s.subrange(w.len() + a, s.len() as int) =~= p.subrange(a, p.len() as int));
}

/// Text with no separator in front of `r` joins the first part of `r`.
proof fn lemma_split_prefix(w: Seq<char>, r: Seq<char>, sep: char)
    requires
        !w.contains(sep),
    ensures
        split_on(w + r, sep) == split_on(r, sep).update(0, w + split_on(r, sep)[0]),
    decreases r.len(),
{
    lemma_split_nonempty(r, sep);
    if r.len() == 0 {
        assert(w + r =~= w);
        lemma_split_single(w, sep);
        assert(w + Seq::<char>::empty() =~= w);
        assert(split_on(w + r, sep) =~= split_on(r, sep).update(0, w + split_on(r, sep)[0]));
    } else {
        lemma_split_prefix(w, r.drop_last(), sep);
        lemma_split_nonempty(r.drop_last(), sep);
        assert((w + r).drop_last() =~= w + r.drop_last());
        assert((w + r).last() == r.last());
        let pre = split_on(r.drop_last(), sep);
        if r.last() != sep && pre.len() == 1 {
            assert(w + pre[0].push(r.last()) =~= (w + pre[0]).push(r.last()));
        }
        assert(split_on(w + r, sep) =~= split_on(r, sep).update(0, w + split_on(r, sep)[0]));
    }
}

/// The trimmed `+`-separated parts a chord is read as.
pub open spec fn chord_parts(chord: Seq<char>) -> Seq<Seq<char>> {
    split_on(spec_trim(chord), '+').map_values(|p: Seq<char>| spec_trim(p))
}

/// `alt+` in front of a chord that does not name alt already sends ESC
/// before what the chord sends.
pub proof fn law_alt_prefix_sends_escape(k: Seq<char>)
    requires
        spec_chord_to_bytes(k) is Some,
        !(exists|i: int| 0 <= i < chord_parts(k).len() - 1 && is_alt_word(#[trigger] chord_parts(k)[i])),
    ensures
        spec_chord_to_bytes("alt+"@ + k) == Some(seq![0x1bu8] + spec_chord_to_bytes(k)->0),
{
    lemma_reveal_words();
    reveal_strlit("c");
    reveal_strlit("meta");
    reveal_strlit("option");
    reveal_strlit("alt+");
    reveal_strlit("alt");
    let c = "alt+"@ + k;
    let a = trim_start_index(k);
    lemma_trim_start_bounds(k);
    let t = k.subrange(a, k.len() as int);
    lemma_trim_end_bounds(t);
    let e = trim_end_index(t);
    let core = spec_trim(k);
    assert(core == t.subrange(0, e));
    assert(core.len() > 0);
    // What `c` trims to.
    assert("alt+"@.len() == 4);
    assert(c[0] == 'a');
    lemma_trim_start_char(c, 0);
    assert(c.subrange(0, c.len() as int) =~= c);
    assert forall|i: int| 4 + a + e <= i < c.len() implies spec_is_whitespace(#[trigger] c[i]) by {
        assert(c[i] == t[i - 4 - a]);
    }
    assert(c[4 + a + e - 1] == t[e - 1]);
    lemma_trim_end_char(c, 4 + a + e);
    let m = k.subrange(0, a + e);
    assert(spec_trim(c) =~= "alt"@ + seq!['+'] + m);
    // Its parts: `alt`, then the parts of `k`.
    let w = k.subrange(0, a);
    assert(m =~= w + core);
    assert forall|i: int| 0 <= i < w.len() implies spec_is_whitespace(#[trigger] w[i]) by {}
    assert(!w.contains('+')) by {
        if w.contains('+') {
            let j = choose|j: int| 0 <= j < w.len() && w[j] == '+';
            assert(spec_is_whitespace(w[j]));
        }
    }
    lemma_lower_word("alt"@);
    lemma_split_after_word("alt"@, m);
    lemma_split_prefix(w, core, '+');
    lemma_split_nonempty(core, '+');
    let pk = chord_parts(k);
    let raw = split_on(core, '+');
    lemma_trim_after_space(w, raw[0]);
    lemma_trim_fixed("alt"@);
    let pc = chord_parts(c);
    assert(pc =~= seq!["alt"@] + pk) by {
        assert forall|i: int| 0 <= i < pc.len() implies #[trigger] pc[i] == (seq!["alt"@] + pk)[i] by {
            if i == 1 {
                assert(split_on(m, '+')[0] == w + raw[0]);
            }
        }
    }
    let mk = pk.drop_last();
    let mc = pc.drop_last();
    assert(mc =~= seq!["alt"@] + mk);
    assert(pc.last() == pk.last());
    assert(!is_ctrl_word("alt"@));
    assert(is_alt_word(mc[0]));
    assert((exists|i: int| 0 <= i < mc.len() && is_ctrl_word(#[trigger] mc[i])) == (exists|i: int|
        0 <= i < mk.len() && is_ctrl_word(#[trigger] mk[i]))) by {
        if exists|i: int| 0 <= i < mc.len() && is_ctrl_word(#[trigger] mc[i]) {
            let i = choose|i: int| 0 <= i < mc.len() && is_ctrl_word(#[trigger] mc[i]);
            assert(i > 0);
            assert(mc[i] == mk[i - 1]);
        }
        if exists|i: int| 0 <= i < mk.len() && is_ctrl_word(#[trigger] mk[i]) {
            let i = choose|i: int| 0 <= i < mk.len() && is_ctrl_word(#[trigger] mk[i]);
            assert(mc[i + 1] == mk[i]);
        }
    }
    assert(!(exists|i: int| 0 <= i < mk.len() && is_alt_word(#[trigger] mk[i]))) by {
        if exists|i: int| 0 <= i < mk.len() && is_alt_word(#[trigger] mk[i]) {
            let i = choose|i: int| 0 <= i < mk.len() && is_alt_word(#[trigger] mk[i]);
            assert(mk[i] == pk[i]);
        }
    }
}



/// A (trimmed, lowercased) chord part that names the key: not empty and no
/// modifier.
pub open spec fn is_key_part(p: Seq<char>) -> bool {
    p.len() > 0 && !is_modifier_word(p)
}

/// At most one part of `ps` names the key.
pub open spec fn one_key_at_most(ps: Seq<Seq<char>>) -> bool {
    forall|i: int, j: int|
        0 <= i < ps.len() && 0 <= j < ps.len() && is_key_part(#[trigger] ps[i]) && is_key_part(#[trigger] ps[j]) ==> i == j
}

/// Some part of `ps` satisfies `f`.
pub open spec fn some_part(ps: Seq<Seq<char>>, f: spec_fn(Seq<char>) -> bool) -> bool {
    exists|i: int| 0 <= i < ps.len() && f(#[trigger] ps[i])
}

/// A part spelling ctrl.
pub open spec fn ctrl_part() -> spec_fn(Seq<char>) -> bool {
    |p: Seq<char>| p == "ctrl"@ || p == "control"@
}

/// A part spelling alt.
pub open spec fn alt_part() -> spec_fn(Seq<char>) -> bool {
    |p: Seq<char>| p == "alt"@ || p == "option"@
}

/// A part spelling shift.
pub open spec fn shift_part() -> spec_fn(Seq<char>) -> bool {
    |p: Seq<char>| p == "shift"@
}

/// A part spelling super.
pub open spec fn super_part() -> spec_fn(Seq<char>) -> bool {
    |p: Seq<char>| p == "super"@ || p == "cmd"@ || p == "command"@ || p == "meta"@ || p == "win"@
}

/// A part naming the key.
pub open spec fn key_part() -> spec_fn(Seq<char>) -> bool {
    |p: Seq<char>| is_key_part(p)
}

/// The key a sequence of parts with at most one key part names.
pub open spec fn the_key(ps: Seq<Seq<char>>) -> Seq<char> {
    if some_part(ps, key_part()) {
        spec_key_token(ps[choose|i: int| 0 <= i < ps.len() && key_part()(#[trigger] ps[i])])
    } else {
        Seq::empty()
    }
}

proof fn lemma_some_part_push(ps: Seq<Seq<char>>, f: spec_fn(Seq<char>) -> bool)
    requires
        ps.len() > 0,
    ensures
        some_part(ps, f) == (some_part(ps.drop_last(), f) || f(ps.last())),
{
    let d = ps.drop_last();
    if some_part(ps, f) {
        let i = choose|i: int| 0 <= i < ps.len() && f(#[trigger] ps[i]);
        if i < d.len() {
            assert(d[i] == ps[i]);
        }
    }
    if some_part(d, f) {
        let i = choose|i: int| 0 <= i < d.len() && f(#[trigger] d[i]);
        assert(ps[i] == d[i]);
    }
    assert(ps[ps.len() - 1] == ps.last());
}

proof fn lemma_fold_by_membership(ps: Seq<Seq<char>>)
    requires
        one_key_at_most(ps),
    ensures
        chord_fold(ps) == (ChordParts {
            ctrl: some_part(ps, ctrl_part()),
            alt: some_part(ps, alt_part()),
            shift: some_part(ps, shift_part()),
            sup: some_part(ps, super_part()),
            key: the_key(ps),
        }),
    decreases ps.len(),
{
    if ps.len() > 0 {
        let d = ps.drop_last();
        let p = ps.last();
        reveal_strlit("ctrl");
        reveal_strlit("control");
        reveal_strlit("alt");
        reveal_strlit("option");
        reveal_strlit("shift");
        reveal_strlit("super");
        reveal_strlit("cmd");
        reveal_strlit("command");
        reveal_strlit("meta");
        reveal_strlit("win");
        assert("super"@[1] != "shift"@[1]);
        assert("ctrl"@[0] != "meta"@[0]);
        assert("alt"@[0] != "cmd"@[0] && "alt"@[0] != "win"@[0]);
        assert("control"@[2] != "command"@[2]);
        assert forall|i: int, j: int|
            0 <= i < d.len() && 0 <= j < d.len() && is_key_part(#[trigger] d[i]) && is_key_part(#[trigger] d[j]) implies i == j by {
            assert(d[i] == ps[i] && d[j] == ps[j]);
        }
        lemma_fold_by_membership(d);
        lemma_some_part_push(ps, ctrl_part());
        lemma_some_part_push(ps, alt_part());
        lemma_some_part_push(ps, shift_part());
        lemma_some_part_push(ps, super_part());
        lemma_some_part_push(ps, key_part());
        if is_key_part(p) {
            assert(!some_part(d, key_part())) by {
                if some_part(d, key_part()) {
                    let i = choose|i: int| 0 <= i < d.len() && key_part()(#[trigger] d[i]);
                    assert(is_key_part(ps[i]) && is_key_part(ps[ps.len() - 1]));
                }
            }
            let k = choose|i: int| 0 <= i < ps.len() && key_part()(#[trigger] ps[i]);
            assert(is_key_part(ps[k]) && is_key_part(ps[ps.len() - 1]));
            assert(k == ps.len() - 1);
        } else if some_part(d, key_part()) {
            let k1 = choose|i: int| 0 <= i < ps.len() && key_part()(#[trigger] ps[i]);
            let k2 = choose|i: int| 0 <= i < d.len() && key_part()(#[trigger] d[i]);
            assert(is_key_part(ps[k2]) && is_key_part(ps[k1]));
            assert(k1 == k2);
            assert(d[k2] == ps[k2]);
        }
    }
}

/// The canonical parts a chord is read as.
pub open spec fn normal_parts(chord: Seq<char>) -> Seq<Seq<char>> {
    split_on(chord, '+').map_values(|p: Seq<char>| spec_lower_seq(spec_trim(p)))
}

proof fn lemma_some_part_same(pa: Seq<Seq<char>>, pb: Seq<Seq<char>>, f: spec_fn(Seq<char>) -> bool)
    requires
        forall|i: int| 0 <= i < pa.len() ==> pb.contains(#[trigger] pa[i]),
        forall|j: int| 0 <= j < pb.len() ==> pa.contains(#[trigger] pb[j]),
    ensures
        some_part(pa, f) == some_part(pb, f),
{
    if some_part(pa, f) {
        let i = choose|i: int| 0 <= i < pa.len() && f(#[trigger] pa[i]);
        assert(pb.contains(pa[i]));
        let j = choose|j: int| 0 <= j < pb.len() && pb[j] == pa[i];
        assert(f(pb[j]));
    }
    if some_part(pb, f) {
        let j = choose|j: int| 0 <= j < pb.len() && f(#[trigger] pb[j]);
        assert(pa.contains(pb[j]));
        let i = choose|i: int| 0 <= i < pa.len() && pa[i] == pb[j];
        assert(f(pa[i]));
    }
}

proof fn lemma_parts_shared(a: Seq<char>, b: Seq<char>)
    requires
        split_on(a, '+').to_multiset() == split_on(b, '+').to_multiset(),
    ensures
        forall|i: int| 0 <= i < normal_parts(a).len() ==> normal_parts(b).contains(#[trigger] normal_parts(a)[i]),
{
    broadcast use vstd::seq_lib::to_multiset_contains;
    let ra = split_on(a, '+');
    let rb = split_on(b, '+');
    assert forall|i: int| 0 <= i < normal_parts(a).len() implies normal_parts(b).contains(#[trigger] normal_parts(a)[i]) by {
        assert(ra.contains(ra[i]));
        assert(ra.to_multiset().count(ra[i]) > 0);
        assert(rb.contains(ra[i]));
        let j = choose|j: int| 0 <= j < rb.len() && rb[j] == ra[i];
        assert(normal_parts(b)[j] == normal_parts(a)[i]);
    }
}

/// A chord names its modifiers and key in any order: two chords whose
/// `+`-separated tokens are the same up to order normalise alike, when
/// they name at most one key.
pub proof fn law_normalize_ignores_token_order(a: Seq<char>, b: Seq<char>)
    requires
        split_on(a, '+').to_multiset() == split_on(b, '+').to_multiset(),
        one_key_at_most(normal_parts(a)),
    ensures
        spec_normalize_chord(a) == spec_normalize_chord(b),
{
    lemma_one_key_carries(a, b);
    let pa = normal_parts(a);
    let pb = normal_parts(b);
    lemma_parts_shared(a, b);
    lemma_parts_shared(b, a);
    lemma_fold_by_membership(pa);
    lemma_fold_by_membership(pb);
    lemma_some_part_same(pa, pb, ctrl_part());
    lemma_some_part_same(pa, pb, alt_part());
    lemma_some_part_same(pa, pb, shift_part());
    lemma_some_part_same(pa, pb, super_part());
    lemma_some_part_same(pa, pb, key_part());
    if some_part(pa, key_part()) {
        let i = choose|i: int| 0 <= i < pa.len() && key_part()(#[trigger] pa[i]);
        let j = choose|j: int| 0 <= j < pb.len() && key_part()(#[trigger] pb[j]);
        assert(pb.contains(pa[i]));
        let j2 = choose|j: int| 0 <= j < pb.len() && pb[j] == pa[i];
        assert(is_key_part(pb[j2]) && is_key_part(pb[j]));
        assert(j2 == j);
    }
}

/// A value at two places of `s` has a second place in any sequence with
/// the same elements.
proof fn lemma_twice_in_same_multiset(ra: Seq<Seq<char>>, rb: Seq<Seq<char>>, j1: int, j2: int) -> (r: (int, int))
    requires
        ra.to_multiset() == rb.to_multiset(),
        0 <= j1 < rb.len(),
        0 <= j2 < rb.len(),
        j1 != j2,
    ensures
        0 <= r.0 < ra.len() && 0 <= r.1 < ra.len() && r.0 != r.1,
        ra[r.0] == rb[j1],
        ra[r.1] == rb[j2],
{
    broadcast use vstd::seq_lib::to_multiset_contains;
    broadcast use vstd::multiset::group_multiset_axioms;
    let x = rb[j1];
    let y = rb[j2];
    assert(rb.contains(x));
    assert(rb.to_multiset().count(x) > 0);
    assert(ra.to_multiset().count(x) > 0);
    assert(ra.contains(x));
    let i1 = choose|i: int| 0 <= i < ra.len() && ra[i] == x;
    if y != x {
        assert(rb.contains(y));
        assert(rb.to_multiset().count(y) > 0);
        assert(ra.to_multiset().count(y) > 0);
        assert(ra.contains(y));
        let i2 = choose|i: int| 0 <= i < ra.len() && ra[i] == y;
        (i1, i2)
    } else {
        vstd::seq_lib::to_multiset_remove(rb, j1);
        let rr = rb.remove(j1);
        let k = if j2 < j1 { j2 } else { j2 - 1 };
        assert(rr[k] == y);
        assert(rr.contains(x));
        assert(rr.to_multiset().count(x) > 0);
        assert(rb.to_multiset().count(x) >= 2);
        vstd::seq_lib::to_multiset_remove(ra, i1);
        let sr = ra.remove(i1);
        assert(sr.to_multiset().count(x) > 0);
        assert(sr.contains(x));
        let m = choose|m: int| 0 <= m < sr.len() && sr[m] == x;
        let i2 = if m < i1 { m } else { m + 1 };
        assert(ra[i2] == sr[m]);
        (i1, i2)
    }
}

/// Two chords with the same tokens up to order: at most one names the key
/// in one exactly when at most one does in the other.
proof fn lemma_one_key_carries(a: Seq<char>, b: Seq<char>)
    requires
        split_on(a, '+').to_multiset() == split_on(b, '+').to_multiset(),
        one_key_at_most(normal_parts(a)),
    ensures
        one_key_at_most(normal_parts(b)),
{
    let ra = split_on(a, '+');
    let rb = split_on(b, '+');
    let pa = normal_parts(a);
    let pb = normal_parts(b);
    assert forall|j1: int, j2: int|
        0 <= j1 < pb.len() && 0 <= j2 < pb.len() && is_key_part(#[trigger] pb[j1]) && is_key_part(#[trigger] pb[j2]) implies j1 == j2 by {
        if j1 != j2 {
            let (i1, i2) = lemma_twice_in_same_multiset(ra, rb, j1, j2);
            assert(pa[i1] == pb[j1] && pa[i2] == pb[j2]);
        }
    }
}

/// The action a default chord is bound to (empty for any other chord).
pub open spec fn default_owner(chord: Seq<char>) -> Seq<char> {
    if chord == "ctrl+shift+t"@ {
        "newTab"@
    } else if chord == "ctrl+shift+w"@ {
        "closeTab"@
    } else if chord == "ctrl+tab"@ {
        "nextTab"@
    } else if chord == "ctrl+shift+tab"@ {
        "previousTab"@
    } else if chord == "ctrl+shift+n"@ {
        "newWorkspace"@
    } else if chord == "ctrl+shift+d"@ {
        "splitHorizontal"@
    } else if chord == "ctrl+shift+e"@ {
        "splitVertical"@
    } else if chord == "ctrl+shift+b"@ {
        "openBrowser"@
    } else if chord == "ctrl+shift+x"@ {
        "closePane"@
    } else if chord == "ctrl+alt+left"@ {
        "focusLeft"@
    } else if chord == "ctrl+alt+right"@ {
        "focusRight"@
    } else if chord == "ctrl+alt+up"@ {
        "focusUp"@
    } else if chord == "ctrl+alt+down"@ {
        "focusDown"@
    } else if chord == "ctrl+shift+p"@ {
        "commandPalette"@
    } else if chord == "ctrl+shift+f"@ {
        "find"@
    } else if chord == "ctrl+shift+i"@ {
        "toggleNotifications"@
    } else if chord == "ctrl+shift+j"@ {
        "jumpToLatestNotification"@
    } else if chord == "ctrl+shift+z"@ {
        "reopenClosedTab"@
    } else if chord == "ctrl+comma"@ {
        "openSettings"@
    } else if chord == "ctrl+shift+c"@ {
        "copySelection"@
    } else if chord == "ctrl+shift+v"@ {
        "paste"@
    } else if chord == "ctrl+shift+o"@ {
        "equalizeSplits"@
    } else if chord == "ctrl+shift+m"@ {
        "toggleZoom"@
    } else if chord == "ctrl+shift+q"@ {
        "closeWorkspace"@
    } else if chord == "ctrl+1"@ {
        "selectWorkspace1"@
    } else if chord == "ctrl+2"@ {
        "selectWorkspace2"@
    } else if chord == "ctrl+3"@ {
        "selectWorkspace3"@
    } else if chord == "ctrl+4"@ {
        "selectWorkspace4"@
    } else if chord == "ctrl+5"@ {
        "selectWorkspace5"@
    } else if chord == "ctrl+6"@ {
        "selectWorkspace6"@
    } else if chord == "ctrl+7"@ {
        "selectWorkspace7"@
    } else if chord == "ctrl+8"@ {
        "selectWorkspace8"@
    } else if chord == "ctrl+9"@ {
        "selectWorkspace9"@
    } else if chord == "ctrl+shift+u"@ {
        "moveTabToNewWorkspace"@
    } else if chord == "alt+1"@ {
        "selectSurface1"@
    } else if chord == "alt+2"@ {
        "selectSurface2"@
    } else if chord == "alt+3"@ {
        "selectSurface3"@
    } else if chord == "alt+4"@ {
        "selectSurface4"@
    } else if chord == "alt+5"@ {
        "selectSurface5"@
    } else if chord == "alt+6"@ {
        "selectSurface6"@
    } else if chord == "alt+7"@ {
        "selectSurface7"@
    } else if chord == "alt+8"@ {
        "selectSurface8"@
    } else if chord == "alt+9"@ {
        "selectSurface9"@
    } else {
        Seq::empty()
    }
}

proof fn lemma_default_chord_shapes()
    ensures
        "ctrl+shift+t"@.len() == 12 && "ctrl+shift+t"@[11] == 't',
        "ctrl+shift+w"@.len() == 12 && "ctrl+shift+w"@[11] == 'w',
        "ctrl+tab"@.len() == 8 && "ctrl+tab"@[7] == 'b',
        "ctrl+shift+tab"@.len() == 14 && "ctrl+shift+tab"@[13] == 'b',
        "ctrl+shift+n"@.len() == 12 && "ctrl+shift+n"@[11] == 'n',
        "ctrl+shift+d"@.len() == 12 && "ctrl+shift+d"@[11] == 'd',
        "ctrl+shift+e"@.len() == 12 && "ctrl+shift+e"@[11] == 'e',
        "ctrl+shift+b"@.len() == 12 && "ctrl+shift+b"@[11] == 'b',
        "ctrl+shift+x"@.len() == 12 && "ctrl+shift+x"@[11] == 'x',
        "ctrl+alt+left"@.len() == 13 && "ctrl+alt+left"@[12] == 't',
        "ctrl+alt+right"@.len() == 14 && "ctrl+alt+right"@[13] == 't',
        "ctrl+alt+up"@.len() == 11 && "ctrl+alt+up"@[10] == 'p',
        "ctrl+alt+down"@.len() == 13 && "ctrl+alt+down"@[12] == 'n',
        "ctrl+shift+p"@.len() == 12 && "ctrl+shift+p"@[11] == 'p',
        "ctrl+shift+f"@.len() == 12 && "ctrl+shift+f"@[11] == 'f',
        "ctrl+shift+i"@.len() == 12 && "ctrl+shift+i"@[11] == 'i',
        "ctrl+shift+j"@.len() == 12 && "ctrl+shift+j"@[11] == 'j',
        "ctrl+shift+z"@.len() == 12 && "ctrl+shift+z"@[11] == 'z',
        "ctrl+comma"@.len() == 10 && "ctrl+comma"@[9] == 'a',
        "ctrl+shift+c"@.len() == 12 && "ctrl+shift+c"@[11] == 'c',
        "ctrl+shift+v"@.len() == 12 && "ctrl+shift+v"@[11] == 'v',
        "ctrl+shift+o"@.len() == 12 && "ctrl+shift+o"@[11] == 'o',
        "ctrl+shift+m"@.len() == 12 && "ctrl+shift+m"@[11] == 'm',
        "ctrl+shift+q"@.len() == 12 && "ctrl+shift+q"@[11] == 'q',
        "ctrl+1"@.len() == 6 && "ctrl+1"@[5] == '1',
        "ctrl+2"@.len() == 6 && "ctrl+2"@[5] == '2',
        "ctrl+3"@.len() == 6 && "ctrl+3"@[5] == '3',
        "ctrl+4"@.len() == 6 && "ctrl+4"@[5] == '4',
        "ctrl+5"@.len() == 6 && "ctrl+5"@[5] == '5',
        "ctrl+6"@.len() == 6 && "ctrl+6"@[5] == '6',
        "ctrl+7"@.len() == 6 && "ctrl+7"@[5] == '7',
        "ctrl+8"@.len() == 6 && "ctrl+8"@[5] == '8',
        "ctrl+9"@.len() == 6 && "ctrl+9"@[5] == '9',
        "ctrl+shift+u"@.len() == 12 && "ctrl+shift+u"@[11] == 'u',
        "alt+1"@.len() == 5 && "alt+1"@[4] == '1',
        "alt+2"@.len() == 5 && "alt+2"@[4] == '2',
        "alt+3"@.len() == 5 && "alt+3"@[4] == '3',
        "alt+4"@.len() == 5 && "alt+4"@[4] == '4',
        "alt+5"@.len() == 5 && "alt+5"@[4] == '5',
        "alt+6"@.len() == 5 && "alt+6"@[4] == '6',
        "alt+7"@.len() == 5 && "alt+7"@[4] == '7',
        "alt+8"@.len() == 5 && "alt+8"@[4] == '8',
        "alt+9"@.len() == 5 && "alt+9"@[4] == '9',
{
    reveal_strlit("ctrl+shift+t");
    reveal_strlit("ctrl+shift+w");
    reveal_strlit("ctrl+tab");
    reveal_strlit("ctrl+shift+tab");
    reveal_strlit("ctrl+shift+n");
    reveal_strlit("ctrl+shift+d");
    reveal_strlit("ctrl+shift+e");
    reveal_strlit("ctrl+shift+b");
    reveal_strlit("ctrl+shift+x");
    reveal_strlit("ctrl+alt+left");
    reveal_strlit("ctrl+alt+right");
    reveal_strlit("ctrl+alt+up");
    reveal_strlit("ctrl+alt+down");
    reveal_strlit("ctrl+shift+p");
    reveal_strlit("ctrl+shift+f");
    reveal_strlit("ctrl+shift+i");
    reveal_strlit("ctrl+shift+j");
    reveal_strlit("ctrl+shift+z");
    reveal_strlit("ctrl+comma");
    reveal_strlit("ctrl+shift+c");
    reveal_strlit("ctrl+shift+v");
    reveal_strlit("ctrl+shift+o");
    reveal_strlit("ctrl+shift+m");
    reveal_strlit("ctrl+shift+q");
    reveal_strlit("ctrl+1");
    reveal_strlit("ctrl+2");
    reveal_strlit("ctrl+3");
    reveal_strlit("ctrl+4");
    reveal_strlit("ctrl+5");
    reveal_strlit("ctrl+6");
    reveal_strlit("ctrl+7");
    reveal_strlit("ctrl+8");
    reveal_strlit("ctrl+9");
    reveal_strlit("ctrl+shift+u");
    reveal_strlit("alt+1");
    reveal_strlit("alt+2");
    reveal_strlit("alt+3");
    reveal_strlit("alt+4");
    reveal_strlit("alt+5");
    reveal_strlit("alt+6");
    reveal_strlit("alt+7");
    reveal_strlit("alt+8");
    reveal_strlit("alt+9");
}

proof fn lemma_default_owners()
    ensures
        default_owner("ctrl+shift+t"@) == "newTab"@,
        default_owner("ctrl+shift+w"@) == "closeTab"@,
        default_owner("ctrl+tab"@) == "nextTab"@,
        default_owner("ctrl+shift+tab"@) == "previousTab"@,
        default_owner("ctrl+shift+n"@) == "newWorkspace"@,
        default_owner("ctrl+shift+d"@) == "splitHorizontal"@,
        default_owner("ctrl+shift+e"@) == "splitVertical"@,
        default_owner("ctrl+shift+b"@) == "openBrowser"@,
        default_owner("ctrl+shift+x"@) == "closePane"@,
        default_owner("ctrl+alt+left"@) == "focusLeft"@,
        default_owner("ctrl+alt+right"@) == "focusRight"@,
        default_owner("ctrl+alt+up"@) == "focusUp"@,
        default_owner("ctrl+alt+down"@) == "focusDown"@,
        default_owner("ctrl+shift+p"@) == "commandPalette"@,
        default_owner("ctrl+shift+f"@) == "find"@,
        default_owner("ctrl+shift+i"@) == "toggleNotifications"@,
        default_owner("ctrl+shift+j"@) == "jumpToLatestNotification"@,
        default_owner("ctrl+shift+z"@) == "reopenClosedTab"@,
        default_owner("ctrl+comma"@) == "openSettings"@,
        default_owner("ctrl+shift+c"@) == "copySelection"@,
        default_owner("ctrl+shift+v"@) == "paste"@,
        default_owner("ctrl+shift+o"@) == "equalizeSplits"@,
        default_owner("ctrl+shift+m"@) == "toggleZoom"@,
        default_owner("ctrl+shift+q"@) == "closeWorkspace"@,
        default_owner("ctrl+1"@) == "selectWorkspace1"@,
        default_owner("ctrl+2"@) == "selectWorkspace2"@,
        default_owner("ctrl+3"@) == "selectWorkspace3"@,
        default_owner("ctrl+4"@) == "selectWorkspace4"@,
        default_owner("ctrl+5"@) == "selectWorkspace5"@,
        default_owner("ctrl+6"@) == "selectWorkspace6"@,
        default_owner("ctrl+7"@) == "selectWorkspace7"@,
        default_owner("ctrl+8"@) == "selectWorkspace8"@,
        default_owner("ctrl+9"@) == "selectWorkspace9"@,
        default_owner("ctrl+shift+u"@) == "moveTabToNewWorkspace"@,
        default_owner("alt+1"@) == "selectSurface1"@,
        default_owner("alt+2"@) == "selectSurface2"@,
        default_owner("alt+3"@) == "selectSurface3"@,
        default_owner("alt+4"@) == "selectSurface4"@,
        default_owner("alt+5"@) == "selectSurface5"@,
        default_owner("alt+6"@) == "selectSurface6"@,
        default_owner("alt+7"@) == "selectSurface7"@,
        default_owner("alt+8"@) == "selectSurface8"@,
        default_owner("alt+9"@) == "selectSurface9"@,
{
    lemma_default_chord_shapes();
}

proof fn lemma_alias_words()
    ensures
        ","@.len() == 1 && "."@.len() == 1 && "/"@.len() == 1 && ";"@.len() == 1,
        ","@[0] == ',' && "."@[0] == '.' && "/"@[0] == '/' && ";"@[0] == ';',
        "return"@.len() == 6 && "cr"@.len() == 2 && "esc"@.len() == 3 && "bs"@.len() == 2 && "del"@.len() == 3,
{
    reveal_strlit(",");
    reveal_strlit(".");
    reveal_strlit("/");
    reveal_strlit(";");
    reveal_strlit("return");
    reveal_strlit("cr");
    reveal_strlit("esc");
    reveal_strlit("bs");
    reveal_strlit("del");
}

proof fn lemma_digit_key(k: Seq<char>)
    requires
        k.len() == 1,
        '0' <= k[0] <= '9',
    ensures
        canonical_key(k),
{
    lemma_reveal_words();
    lemma_alias_words();
    assert(!k.contains('+')) by {
        if k.contains('+') {
            assert(k[0] == '+');
        }
    }
    lemma_trim_fixed(k);
    assert(spec_lower_seq(k) =~= k);
}

proof fn lemma_default_keys()
    ensures
        canonical_key("1"@),
        canonical_key("2"@),
        canonical_key("3"@),
        canonical_key("4"@),
        canonical_key("5"@),
        canonical_key("6"@),
        canonical_key("7"@),
        canonical_key("8"@),
        canonical_key("9"@),
        canonical_key("b"@),
        canonical_key("c"@),
        canonical_key("comma"@),
        canonical_key("d"@),
        canonical_key("down"@),
        canonical_key("e"@),
        canonical_key("f"@),
        canonical_key("i"@),
        canonical_key("j"@),
        canonical_key("left"@),
        canonical_key("m"@),
        canonical_key("n"@),
        canonical_key("o"@),
        canonical_key("p"@),
        canonical_key("q"@),
        canonical_key("right"@),
        canonical_key("t"@),
        canonical_key("tab"@),
        canonical_key("u"@),
        canonical_key("up"@),
        canonical_key("v"@),
        canonical_key("w"@),
        canonical_key("x"@),
        canonical_key("z"@),
{
    lemma_reveal_words();
    lemma_alias_words();
    reveal_strlit("1");
    lemma_digit_key("1"@);
    reveal_strlit("2");
    lemma_digit_key("2"@);
    reveal_strlit("3");
    lemma_digit_key("3"@);
    reveal_strlit("4");
    lemma_digit_key("4"@);
    reveal_strlit("5");
    lemma_digit_key("5"@);
    reveal_strlit("6");
    lemma_digit_key("6"@);
    reveal_strlit("7");
    lemma_digit_key("7"@);
    reveal_strlit("8");
    lemma_digit_key("8"@);
    reveal_strlit("9");
    lemma_digit_key("9"@);
    reveal_strlit("b");
    assert forall|i: int| 0 <= i < "b"@.len() implies 'a' <= #[trigger] "b"@[i] <= 'z' by {}
    lemma_lower_word("b"@);
    assert(spec_key_token("b"@) == "b"@);
    reveal_strlit("c");
    assert forall|i: int| 0 <= i < "c"@.len() implies 'a' <= #[trigger] "c"@[i] <= 'z' by {}
    lemma_lower_word("c"@);
    assert(spec_key_token("c"@) == "c"@);
    reveal_strlit("comma");
    assert(is_key_name("comma"@));
    lemma_lower_word("comma"@);
    reveal_strlit("d");
    assert forall|i: int| 0 <= i < "d"@.len() implies 'a' <= #[trigger] "d"@[i] <= 'z' by {}
    lemma_lower_word("d"@);
    assert(spec_key_token("d"@) == "d"@);
    reveal_strlit("down");
    assert(is_key_name("down"@));
    lemma_lower_word("down"@);
    reveal_strlit("e");
    assert forall|i: int| 0 <= i < "e"@.len() implies 'a' <= #[trigger] "e"@[i] <= 'z' by {}
    lemma_lower_word("e"@);
    assert(spec_key_token("e"@) == "e"@);
    reveal_strlit("f");
    assert forall|i: int| 0 <= i < "f"@.len() implies 'a' <= #[trigger] "f"@[i] <= 'z' by {}
    lemma_lower_word("f"@);
    assert(spec_key_token("f"@) == "f"@);
    reveal_strlit("i");
    assert forall|i: int| 0 <= i < "i"@.len() implies 'a' <= #[trigger] "i"@[i] <= 'z' by {}
    lemma_lower_word("i"@);
    assert(spec_key_token("i"@) == "i"@);
    reveal_strlit("j");
    assert forall|i: int| 0 <= i < "j"@.len() implies 'a' <= #[trigger] "j"@[i] <= 'z' by {}
    lemma_lower_word("j"@);
    assert(spec_key_token("j"@) == "j"@);
    reveal_strlit("left");
    assert(is_key_name("left"@));
    lemma_lower_word("left"@);
    reveal_strlit("m");
    assert forall|i: int| 0 <= i < "m"@.len() implies 'a' <= #[trigger] "m"@[i] <= 'z' by {}
    lemma_lower_word("m"@);
    assert(spec_key_token("m"@) == "m"@);
    reveal_strlit("n");
    assert forall|i: int| 0 <= i < "n"@.len() implies 'a' <= #[trigger] "n"@[i] <= 'z' by {}
    lemma_lower_word("n"@);
    assert(spec_key_token("n"@) == "n"@);
    reveal_strlit("o");
    assert forall|i: int| 0 <= i < "o"@.len() implies 'a' <= #[trigger] "o"@[i] <= 'z' by {}
    lemma_lower_word("o"@);
    assert(spec_key_token("o"@) == "o"@);
    reveal_strlit("p");
    assert forall|i: int| 0 <= i < "p"@.len() implies 'a' <= #[trigger] "p"@[i] <= 'z' by {}
    lemma_lower_word("p"@);
    assert(spec_key_token("p"@) == "p"@);
    reveal_strlit("q");
    assert forall|i: int| 0 <= i < "q"@.len() implies 'a' <= #[trigger] "q"@[i] <= 'z' by {}
    lemma_lower_word("q"@);
    assert(spec_key_token("q"@) == "q"@);
    reveal_strlit("right");
    assert(is_key_name("right"@));
    lemma_lower_word("right"@);
    reveal_strlit("t");
    assert forall|i: int| 0 <= i < "t"@.len() implies 'a' <= #[trigger] "t"@[i] <= 'z' by {}
    lemma_lower_word("t"@);
    assert(spec_key_token("t"@) == "t"@);
    reveal_strlit("tab");
    assert(is_key_name("tab"@));
    lemma_lower_word("tab"@);
    reveal_strlit("u");
    assert forall|i: int| 0 <= i < "u"@.len() implies 'a' <= #[trigger] "u"@[i] <= 'z' by {}
    lemma_lower_word("u"@);
    assert(spec_key_token("u"@) == "u"@);
    reveal_strlit("up");
    assert(is_key_name("up"@));
    lemma_lower_word("up"@);
    reveal_strlit("v");
    assert forall|i: int| 0 <= i < "v"@.len() implies 'a' <= #[trigger] "v"@[i] <= 'z' by {}
    lemma_lower_word("v"@);
    assert(spec_key_token("v"@) == "v"@);
    reveal_strlit("w");
    assert forall|i: int| 0 <= i < "w"@.len() implies 'a' <= #[trigger] "w"@[i] <= 'z' by {}
    lemma_lower_word("w"@);
    assert(spec_key_token("w"@) == "w"@);
    reveal_strlit("x");
    assert forall|i: int| 0 <= i < "x"@.len() implies 'a' <= #[trigger] "x"@[i] <= 'z' by {}
    lemma_lower_word("x"@);
    assert(spec_key_token("x"@) == "x"@);
    reveal_strlit("z");
    assert forall|i: int| 0 <= i < "z"@.len() implies 'a' <= #[trigger] "z"@[i] <= 'z' by {}
    lemma_lower_word("z"@);
    assert(spec_key_token("z"@) == "z"@);
}

proof fn lemma_default_canonical_a()
    ensures
        spec_normalize_chord("ctrl+shift+t"@) == "ctrl+shift+t"@,
        spec_normalize_chord("ctrl+shift+w"@) == "ctrl+shift+w"@,
        spec_normalize_chord("ctrl+tab"@) == "ctrl+tab"@,
        spec_normalize_chord("ctrl+shift+tab"@) == "ctrl+shift+tab"@,
        spec_normalize_chord("ctrl+shift+n"@) == "ctrl+shift+n"@,
        spec_normalize_chord("ctrl+shift+d"@) == "ctrl+shift+d"@,
{
    lemma_default_keys();
    reveal_strlit("alt+");
    reveal_strlit("ctrl+");
    reveal_strlit("ctrl+shift+d");
    reveal_strlit("ctrl+shift+n");
    reveal_strlit("ctrl+shift+t");
    reveal_strlit("ctrl+shift+tab");
    reveal_strlit("ctrl+shift+w");
    reveal_strlit("ctrl+tab");
    reveal_strlit("d");
    reveal_strlit("n");
    reveal_strlit("shift+");
    reveal_strlit("super+");
    reveal_strlit("t");
    reveal_strlit("tab");
    reveal_strlit("w");
    assert("ctrl+shift+t"@ =~= spec_assemble(true, false, true, false, "t"@));
    lemma_normalize_assembled(true, false, true, false, "t"@);
    assert("ctrl+shift+w"@ =~= spec_assemble(true, false, true, false, "w"@));
    lemma_normalize_assembled(true, false, true, false, "w"@);
    assert("ctrl+tab"@ =~= spec_assemble(true, false, false, false, "tab"@));
    lemma_normalize_assembled(true, false, false, false, "tab"@);
    assert("ctrl+shift+tab"@ =~= spec_assemble(true, false, true, false, "tab"@));
    lemma_normalize_assembled(true, false, true, false, "tab"@);
    assert("ctrl+shift+n"@ =~= spec_assemble(true, false, true, false, "n"@));
    lemma_normalize_assembled(true, false, true, false, "n"@);
    assert("ctrl+shift+d"@ =~= spec_assemble(true, false, true, false, "d"@));
    lemma_normalize_assembled(true, false, true, false, "d"@);
}

proof fn lemma_default_canonical_b()
    ensures
        spec_normalize_chord("ctrl+shift+e"@) == "ctrl+shift+e"@,
        spec_normalize_chord("ctrl+shift+b"@) == "ctrl+shift+b"@,
        spec_normalize_chord("ctrl+shift+x"@) == "ctrl+shift+x"@,
        spec_normalize_chord("ctrl+alt+left"@) == "ctrl+alt+left"@,
        spec_normalize_chord("ctrl+alt+right"@) == "ctrl+alt+right"@,
        spec_normalize_chord("ctrl+alt+up"@) == "ctrl+alt+up"@,
{
    lemma_default_keys();
    reveal_strlit("alt+");
    reveal_strlit("b");
    reveal_strlit("ctrl+");
    reveal_strlit("ctrl+alt+left");
    reveal_strlit("ctrl+alt+right");
    reveal_strlit("ctrl+alt+up");
    reveal_strlit("ctrl+shift+b");
    reveal_strlit("ctrl+shift+e");
    reveal_strlit("ctrl+shift+x");
    reveal_strlit("e");
    reveal_strlit("left");
    reveal_strlit("right");
    reveal_strlit("shift+");
    reveal_strlit("super+");
    reveal_strlit("up");
    reveal_strlit("x");
    assert("ctrl+shift+e"@ =~= spec_assemble(true, false, true, false, "e"@));
    lemma_normalize_assembled(true, false, true, false, "e"@);
    assert("ctrl+shift+b"@ =~= spec_assemble(true, false, true, false, "b"@));
    lemma_normalize_assembled(true, false, true, false, "b"@);
    assert("ctrl+shift+x"@ =~= spec_assemble(true, false, true, false, "x"@));
    lemma_normalize_assembled(true, false, true, false, "x"@);
    assert("ctrl+alt+left"@ =~= spec_assemble(true, true, false, false, "left"@));
    lemma_normalize_assembled(true, true, false, false, "left"@);
    assert("ctrl+alt+right"@ =~= spec_assemble(true, true, false, false, "right"@));
    lemma_normalize_assembled(true, true, false, false, "right"@);
    assert("ctrl+alt+up"@ =~= spec_assemble(true, true, false, false, "up"@));
    lemma_normalize_assembled(true, true, false, false, "up"@);
}

proof fn lemma_default_canonical_c()
    ensures
        spec_normalize_chord("ctrl+alt+down"@) == "ctrl+alt+down"@,
        spec_normalize_chord("ctrl+shift+p"@) == "ctrl+shift+p"@,
        spec_normalize_chord("ctrl+shift+f"@) == "ctrl+shift+f"@,
        spec_normalize_chord("ctrl+shift+i"@) == "ctrl+shift+i"@,
        spec_normalize_chord("ctrl+shift+j"@) == "ctrl+shift+j"@,
        spec_normalize_chord("ctrl+shift+z"@) == "ctrl+shift+z"@,
{
    lemma_default_keys();
    reveal_strlit("alt+");
    reveal_strlit("ctrl+");
    reveal_strlit("ctrl+alt+down");
    reveal_strlit("ctrl+shift+f");
    reveal_strlit("ctrl+shift+i");
    reveal_strlit("ctrl+shift+j");
    reveal_strlit("ctrl+shift+p");
    reveal_strlit("ctrl+shift+z");
    reveal_strlit("down");
    reveal_strlit("f");
    reveal_strlit("i");
    reveal_strlit("j");
    reveal_strlit("p");
    reveal_strlit("shift+");
    reveal_strlit("super+");
    reveal_strlit("z");
    assert("ctrl+alt+down"@ =~= spec_assemble(true, true, false, false, "down"@));
    lemma_normalize_assembled(true, true, false, false, "down"@);
    assert("ctrl+shift+p"@ =~= spec_assemble(true, false, true, false, "p"@));
    lemma_normalize_assembled(true, false, true, false, "p"@);
    assert("ctrl+shift+f"@ =~= spec_assemble(true, false, true, false, "f"@));
    lemma_normalize_assembled(true, false, true, false, "f"@);
    assert("ctrl+shift+i"@ =~= spec_assemble(true, false, true, false, "i"@));
    lemma_normalize_assembled(true, false, true, false, "i"@);
    assert("ctrl+shift+j"@ =~= spec_assemble(true, false, true, false, "j"@));
    lemma_normalize_assembled(true, false, true, false, "j"@);
    assert("ctrl+shift+z"@ =~= spec_assemble(true, false, true, false, "z"@));
    lemma_normalize_assembled(true, false, true, false, "z"@);
}

proof fn lemma_default_canonical_d()
    ensures
        spec_normalize_chord("ctrl+comma"@) == "ctrl+comma"@,
        spec_normalize_chord("ctrl+shift+c"@) == "ctrl+shift+c"@,
        spec_normalize_chord("ctrl+shift+v"@) == "ctrl+shift+v"@,
        spec_normalize_chord("ctrl+shift+o"@) == "ctrl+shift+o"@,
        spec_normalize_chord("ctrl+shift+m"@) == "ctrl+shift+m"@,
        spec_normalize_chord("ctrl+shift+q"@) == "ctrl+shift+q"@,
{
    lemma_default_keys();
    reveal_strlit("alt+");
    reveal_strlit("c");
    reveal_strlit("comma");
    reveal_strlit("ctrl+");
    reveal_strlit("ctrl+comma");
    reveal_strlit("ctrl+shift+c");
    reveal_strlit("ctrl+shift+m");
    reveal_strlit("ctrl+shift+o");
    reveal_strlit("ctrl+shift+q");
    reveal_strlit("ctrl+shift+v");
    reveal_strlit("m");
    reveal_strlit("o");
    reveal_strlit("q");
    reveal_strlit("shift+");
    reveal_strlit("super+");
    reveal_strlit("v");
    assert("ctrl+comma"@ =~= spec_assemble(true, false, false, false, "comma"@));
    lemma_normalize_assembled(true, false, false, false, "comma"@);
    assert("ctrl+shift+c"@ =~= spec_assemble(true, false, true, false, "c"@));
    lemma_normalize_assembled(true, false, true, false, "c"@);
    assert("ctrl+shift+v"@ =~= spec_assemble(true, false, true, false, "v"@));
    lemma_normalize_assembled(true, false, true, false, "v"@);
    assert("ctrl+shift+o"@ =~= spec_assemble(true, false, true, false, "o"@));
    lemma_normalize_assembled(true, false, true, false, "o"@);
    assert("ctrl+shift+m"@ =~= spec_assemble(true, false, true, false, "m"@));
    lemma_normalize_assembled(true, false, true, false, "m"@);
    assert("ctrl+shift+q"@ =~= spec_assemble(true, false, true, false, "q"@));
    lemma_normalize_assembled(true, false, true, false, "q"@);
}

proof fn lemma_default_canonical_e()
    ensures
        spec_normalize_chord("ctrl+1"@) == "ctrl+1"@,
        spec_normalize_chord("ctrl+2"@) == "ctrl+2"@,
        spec_normalize_chord("ctrl+3"@) == "ctrl+3"@,
        spec_normalize_chord("ctrl+4"@) == "ctrl+4"@,
        spec_normalize_chord("ctrl+5"@) == "ctrl+5"@,
        spec_normalize_chord("ctrl+6"@) == "ctrl+6"@,
{
    lemma_default_keys();
    reveal_strlit("1");
    reveal_strlit("2");
    reveal_strlit("3");
    reveal_strlit("4");
    reveal_strlit("5");
    reveal_strlit("6");
    reveal_strlit("alt+");
    reveal_strlit("ctrl+");
    reveal_strlit("ctrl+1");
    reveal_strlit("ctrl+2");
    reveal_strlit("ctrl+3");
    reveal_strlit("ctrl+4");
    reveal_strlit("ctrl+5");
    reveal_strlit("ctrl+6");
    reveal_strlit("shift+");
    reveal_strlit("super+");
    assert("ctrl+1"@ =~= spec_assemble(true, false, false, false, "1"@));
    lemma_normalize_assembled(true, false, false, false, "1"@);
    assert("ctrl+2"@ =~= spec_assemble(true, false, false, false, "2"@));
    lemma_normalize_assembled(true, false, false, false, "2"@);
    assert("ctrl+3"@ =~= spec_assemble(true, false, false, false, "3"@));
    lemma_normalize_assembled(true, false, false, false, "3"@);
    assert("ctrl+4"@ =~= spec_assemble(true, false, false, false, "4"@));
    lemma_normalize_assembled(true, false, false, false, "4"@);
    assert("ctrl+5"@ =~= spec_assemble(true, false, false, false, "5"@));
    lemma_normalize_assembled(true, false, false, false, "5"@);
    assert("ctrl+6"@ =~= spec_assemble(true, false, false, false, "6"@));
    lemma_normalize_assembled(true, false, false, false, "6"@);
}

proof fn lemma_default_canonical_f()
    ensures
        spec_normalize_chord("ctrl+7"@) == "ctrl+7"@,
        spec_normalize_chord("ctrl+8"@) == "ctrl+8"@,
        spec_normalize_chord("ctrl+9"@) == "ctrl+9"@,
        spec_normalize_chord("ctrl+shift+u"@) == "ctrl+shift+u"@,
        spec_normalize_chord("alt+1"@) == "alt+1"@,
        spec_normalize_chord("alt+2"@) == "alt+2"@,
{
    lemma_default_keys();
    reveal_strlit("1");
    reveal_strlit("2");
    reveal_strlit("7");
    reveal_strlit("8");
    reveal_strlit("9");
    reveal_strlit("alt+");
    reveal_strlit("alt+1");
    reveal_strlit("alt+2");
    reveal_strlit("ctrl+");
    reveal_strlit("ctrl+7");
    reveal_strlit("ctrl+8");
    reveal_strlit("ctrl+9");
    reveal_strlit("ctrl+shift+u");
    reveal_strlit("shift+");
    reveal_strlit("super+");
    reveal_strlit("u");
    assert("ctrl+7"@ =~= spec_assemble(true, false, false, false, "7"@));
    lemma_normalize_assembled(true, false, false, false, "7"@);
    assert("ctrl+8"@ =~= spec_assemble(true, false, false, false, "8"@));
    lemma_normalize_assembled(true, false, false, false, "8"@);
    assert("ctrl+9"@ =~= spec_assemble(true, false, false, false, "9"@));
    lemma_normalize_assembled(true, false, false, false, "9"@);
    assert("ctrl+shift+u"@ =~= spec_assemble(true, false, true, false, "u"@));
    lemma_normalize_assembled(true, false, true, false, "u"@);
    assert("alt+1"@ =~= spec_assemble(false, true, false, false, "1"@));
    lemma_normalize_assembled(false, true, false, false, "1"@);
    assert("alt+2"@ =~= spec_assemble(false, true, false, false, "2"@));
    lemma_normalize_assembled(false, true, false, false, "2"@);
}

proof fn lemma_default_canonical_g()
    ensures
        spec_normalize_chord("alt+3"@) == "alt+3"@,
        spec_normalize_chord("alt+4"@) == "alt+4"@,
        spec_normalize_chord("alt+5"@) == "alt+5"@,
        spec_normalize_chord("alt+6"@) == "alt+6"@,
        spec_normalize_chord("alt+7"@) == "alt+7"@,
        spec_normalize_chord("alt+8"@) == "alt+8"@,
{
    lemma_default_keys();
    reveal_strlit("3");
    reveal_strlit("4");
    reveal_strlit("5");
    reveal_strlit("6");
    reveal_strlit("7");
    reveal_strlit("8");
    reveal_strlit("alt+");
    reveal_strlit("alt+3");
    reveal_strlit("alt+4");
    reveal_strlit("alt+5");
    reveal_strlit("alt+6");
    reveal_strlit("alt+7");
    reveal_strlit("alt+8");
    reveal_strlit("ctrl+");
    reveal_strlit("shift+");
    reveal_strlit("super+");
    assert("alt+3"@ =~= spec_assemble(false, true, false, false, "3"@));
    lemma_normalize_assembled(false, true, false, false, "3"@);
    assert("alt+4"@ =~= spec_assemble(false, true, false, false, "4"@));
    lemma_normalize_assembled(false, true, false, false, "4"@);
    assert("alt+5"@ =~= spec_assemble(false, true, false, false, "5"@));
    lemma_normalize_assembled(false, true, false, false, "5"@);
    assert("alt+6"@ =~= spec_assemble(false, true, false, false, "6"@));
    lemma_normalize_assembled(false, true, false, false, "6"@);
    assert("alt+7"@ =~= spec_assemble(false, true, false, false, "7"@));
    lemma_normalize_assembled(false, true, false, false, "7"@);
    assert("alt+8"@ =~= spec_assemble(false, true, false, false, "8"@));
    lemma_normalize_assembled(false, true, false, false, "8"@);
}

proof fn lemma_default_canonical_h()
    ensures
        spec_normalize_chord("alt+9"@) == "alt+9"@,
{
    lemma_default_keys();
    reveal_strlit("9");
    reveal_strlit("alt+");
    reveal_strlit("alt+9");
    reveal_strlit("ctrl+");
    reveal_strlit("shift+");
    reveal_strlit("super+");
    assert("alt+9"@ =~= spec_assemble(false, true, false, false, "9"@));
    lemma_normalize_assembled(false, true, false, false, "9"@);
}

proof fn lemma_default_canonical()
    ensures
        spec_normalize_chord("ctrl+shift+t"@) == "ctrl+shift+t"@,
        spec_normalize_chord("ctrl+shift+w"@) == "ctrl+shift+w"@,
        spec_normalize_chord("ctrl+tab"@) == "ctrl+tab"@,
        spec_normalize_chord("ctrl+shift+tab"@) == "ctrl+shift+tab"@,
        spec_normalize_chord("ctrl+shift+n"@) == "ctrl+shift+n"@,
        spec_normalize_chord("ctrl+shift+d"@) == "ctrl+shift+d"@,
        spec_normalize_chord("ctrl+shift+e"@) == "ctrl+shift+e"@,
        spec_normalize_chord("ctrl+shift+b"@) == "ctrl+shift+b"@,
        spec_normalize_chord("ctrl+shift+x"@) == "ctrl+shift+x"@,
        spec_normalize_chord("ctrl+alt+left"@) == "ctrl+alt+left"@,
        spec_normalize_chord("ctrl+alt+right"@) == "ctrl+alt+right"@,
        spec_normalize_chord("ctrl+alt+up"@) == "ctrl+alt+up"@,
        spec_normalize_chord("ctrl+alt+down"@) == "ctrl+alt+down"@,
        spec_normalize_chord("ctrl+shift+p"@) == "ctrl+shift+p"@,
        spec_normalize_chord("ctrl+shift+f"@) == "ctrl+shift+f"@,
        spec_normalize_chord("ctrl+shift+i"@) == "ctrl+shift+i"@,
        spec_normalize_chord("ctrl+shift+j"@) == "ctrl+shift+j"@,
        spec_normalize_chord("ctrl+shift+z"@) == "ctrl+shift+z"@,
        spec_normalize_chord("ctrl+comma"@) == "ctrl+comma"@,
        spec_normalize_chord("ctrl+shift+c"@) == "ctrl+shift+c"@,
        spec_normalize_chord("ctrl+shift+v"@) == "ctrl+shift+v"@,
        spec_normalize_chord("ctrl+shift+o"@) == "ctrl+shift+o"@,
        spec_normalize_chord("ctrl+shift+m"@) == "ctrl+shift+m"@,
        spec_normalize_chord("ctrl+shift+q"@) == "ctrl+shift+q"@,
        spec_normalize_chord("ctrl+1"@) == "ctrl+1"@,
        spec_normalize_chord("ctrl+2"@) == "ctrl+2"@,
        spec_normalize_chord("ctrl+3"@) == "ctrl+3"@,
        spec_normalize_chord("ctrl+4"@) == "ctrl+4"@,
        spec_normalize_chord("ctrl+5"@) == "ctrl+5"@,
        spec_normalize_chord("ctrl+6"@) == "ctrl+6"@,
        spec_normalize_chord("ctrl+7"@) == "ctrl+7"@,
        spec_normalize_chord("ctrl+8"@) == "ctrl+8"@,
        spec_normalize_chord("ctrl+9"@) == "ctrl+9"@,
        spec_normalize_chord("ctrl+shift+u"@) == "ctrl+shift+u"@,
        spec_normalize_chord("alt+1"@) == "alt+1"@,
        spec_normalize_chord("alt+2"@) == "alt+2"@,
        spec_normalize_chord("alt+3"@) == "alt+3"@,
        spec_normalize_chord("alt+4"@) == "alt+4"@,
        spec_normalize_chord("alt+5"@) == "alt+5"@,
        spec_normalize_chord("alt+6"@) == "alt+6"@,
        spec_normalize_chord("alt+7"@) == "alt+7"@,
        spec_normalize_chord("alt+8"@) == "alt+8"@,
        spec_normalize_chord("alt+9"@) == "alt+9"@,
{
    lemma_default_canonical_a();
    lemma_default_canonical_b();
    lemma_default_canonical_c();
    lemma_default_canonical_d();
    lemma_default_canonical_e();
    lemma_default_canonical_f();
    lemma_default_canonical_g();
    lemma_default_canonical_h();
}

/// A binding whose chord is canonical and owned by its action.
pub open spec fn well_bound(m: Map<Seq<char>, Seq<char>>, a: Seq<char>) -> bool {
    spec_normalize_chord(m[a]) == m[a] && default_owner(m[a]) == a
}

proof fn lemma_default_step(m: Map<Seq<char>, Seq<char>>, k: Seq<char>, v: Seq<char>)
    requires
        forall|a: Seq<char>| #[trigger] m.dom().contains(a) ==> well_bound(m, a),
        spec_normalize_chord(v) == v,
        default_owner(v) == k,
    ensures
        forall|a: Seq<char>| #[trigger] m.insert(k, v).dom().contains(a) ==> well_bound(m.insert(k, v), a),
{
    assert forall|a: Seq<char>| #[trigger] m.insert(k, v).dom().contains(a) implies well_bound(m.insert(k, v), a) by {
        if a != k {
            assert(m.dom().contains(a));
        }
    }
}

/// The default shortcuts give every action its own chord, each already in
/// canonical spelling: no two actions share a chord, and normalising a
/// bound chord leaves it as it is.
pub proof fn law_default_chords_distinct_and_canonical()
    ensures
        forall|a: Seq<char>|
            #[trigger] crate::shortcuts::default_bindings().dom().contains(a) ==> spec_normalize_chord(
                crate::shortcuts::default_bindings()[a],
            ) == crate::shortcuts::default_bindings()[a],
        forall|a: Seq<char>, b: Seq<char>|
            #[trigger] crate::shortcuts::default_bindings().dom().contains(a) && #[trigger] crate::shortcuts::default_bindings().dom().contains(
                b,
            ) && a != b ==> crate::shortcuts::default_bindings()[a] != crate::shortcuts::default_bindings()[b],
{
    lemma_default_owners();
    lemma_default_canonical();
    let m0 = Map::<Seq<char>, Seq<char>>::empty();
    let m1 = m0.insert("newTab"@, "ctrl+shift+t"@);
    let m2 = m1.insert("closeTab"@, "ctrl+shift+w"@);
    let m3 = m2.insert("nextTab"@, "ctrl+tab"@);
    let m4 = m3.insert("previousTab"@, "ctrl+shift+tab"@);
    let m5 = m4.insert("newWorkspace"@, "ctrl+shift+n"@);
    let m6 = m5.insert("splitHorizontal"@, "ctrl+shift+d"@);
    let m7 = m6.insert("splitVertical"@, "ctrl+shift+e"@);
    let m8 = m7.insert("openBrowser"@, "ctrl+shift+b"@);
    let m9 = m8.insert("closePane"@, "ctrl+shift+x"@);
    let m10 = m9.insert("focusLeft"@, "ctrl+alt+left"@);
    let m11 = m10.insert("focusRight"@, "ctrl+alt+right"@);
    let m12 = m11.insert("focusUp"@, "ctrl+alt+up"@);
    let m13 = m12.insert("focusDown"@, "ctrl+alt+down"@);
    let m14 = m13.insert("commandPalette"@, "ctrl+shift+p"@);
    let m15 = m14.insert("find"@, "ctrl+shift+f"@);
    let m16 = m15.insert("toggleNotifications"@, "ctrl+shift+i"@);
    let m17 = m16.insert("jumpToLatestNotification"@, "ctrl+shift+j"@);
    let m18 = m17.insert("reopenClosedTab"@, "ctrl+shift+z"@);
    let m19 = m18.insert("openSettings"@, "ctrl+comma"@);
    let m20 = m19.insert("copySelection"@, "ctrl+shift+c"@);
    let m21 = m20.insert("paste"@, "ctrl+shift+v"@);
    let m22 = m21.insert("equalizeSplits"@, "ctrl+shift+o"@);
    let m23 = m22.insert("toggleZoom"@, "ctrl+shift+m"@);
    let m24 = m23.insert("closeWorkspace"@, "ctrl+shift+q"@);
    let m25 = m24.insert("selectWorkspace1"@, "ctrl+1"@);
    let m26 = m25.insert("selectWorkspace2"@, "ctrl+2"@);
    let m27 = m26.insert("selectWorkspace3"@, "ctrl+3"@);
    let m28 = m27.insert("selectWorkspace4"@, "ctrl+4"@);
    let m29 = m28.insert("selectWorkspace5"@, "ctrl+5"@);
    let m30 = m29.insert("selectWorkspace6"@, "ctrl+6"@);
    let m31 = m30.insert("selectWorkspace7"@, "ctrl+7"@);
    let m32 = m31.insert("selectWorkspace8"@, "ctrl+8"@);
    let m33 = m32.insert("selectWorkspace9"@, "ctrl+9"@);
    let m34 = m33.insert("moveTabToNewWorkspace"@, "ctrl+shift+u"@);
    let m35 = m34.insert("selectSurface1"@, "alt+1"@);
    let m36 = m35.insert("selectSurface2"@, "alt+2"@);
    let m37 = m36.insert("selectSurface3"@, "alt+3"@);
    let m38 = m37.insert("selectSurface4"@, "alt+4"@);
    let m39 = m38.insert("selectSurface5"@, "alt+5"@);
    let m40 = m39.insert("selectSurface6"@, "alt+6"@);
    let m41 = m40.insert("selectSurface7"@, "alt+7"@);
    let m42 = m41.insert("selectSurface8"@, "alt+8"@);
    let m43 = m42.insert("selectSurface9"@, "alt+9"@);
    lemma_default_step(m0, "newTab"@, "ctrl+shift+t"@);
    lemma_default_step(m1, "closeTab"@, "ctrl+shift+w"@);
    lemma_default_step(m2, "nextTab"@, "ctrl+tab"@);
    lemma_default_step(m3, "previousTab"@, "ctrl+shift+tab"@);
    lemma_default_step(m4, "newWorkspace"@, "ctrl+shift+n"@);
    lemma_default_step(m5, "splitHorizontal"@, "ctrl+shift+d"@);
    lemma_default_step(m6, "splitVertical"@, "ctrl+shift+e"@);
    lemma_default_step(m7, "openBrowser"@, "ctrl+shift+b"@);
    lemma_default_step(m8, "closePane"@, "ctrl+shift+x"@);
    lemma_default_step(m9, "focusLeft"@, "ctrl+alt+left"@);
    lemma_default_step(m10, "focusRight"@, "ctrl+alt+right"@);
    lemma_default_step(m11, "focusUp"@, "ctrl+alt+up"@);
    lemma_default_step(m12, "focusDown"@, "ctrl+alt+down"@);
    lemma_default_step(m13, "commandPalette"@, "ctrl+shift+p"@);
    lemma_default_step(m14, "find"@, "ctrl+shift+f"@);
    lemma_default_step(m15, "toggleNotifications"@, "ctrl+shift+i"@);
    lemma_default_step(m16, "jumpToLatestNotification"@, "ctrl+shift+j"@);
    lemma_default_step(m17, "reopenClosedTab"@, "ctrl+shift+z"@);
    lemma_default_step(m18, "openSettings"@, "ctrl+comma"@);
    lemma_default_step(m19, "copySelection"@, "ctrl+shift+c"@);
    lemma_default_step(m20, "paste"@, "ctrl+shift+v"@);
    lemma_default_step(m21, "equalizeSplits"@, "ctrl+shift+o"@);
    lemma_default_step(m22, "toggleZoom"@, "ctrl+shift+m"@);
    lemma_default_step(m23, "closeWorkspace"@, "ctrl+shift+q"@);
    lemma_default_step(m24, "selectWorkspace1"@, "ctrl+1"@);
    lemma_default_step(m25, "selectWorkspace2"@, "ctrl+2"@);
    lemma_default_step(m26, "selectWorkspace3"@, "ctrl+3"@);
    lemma_default_step(m27, "selectWorkspace4"@, "ctrl+4"@);
    lemma_default_step(m28, "selectWorkspace5"@, "ctrl+5"@);
    lemma_default_step(m29, "selectWorkspace6"@, "ctrl+6"@);
    lemma_default_step(m30, "selectWorkspace7"@, "ctrl+7"@);
    lemma_default_step(m31, "selectWorkspace8"@, "ctrl+8"@);
    lemma_default_step(m32, "selectWorkspace9"@, "ctrl+9"@);
    lemma_default_step(m33, "moveTabToNewWorkspace"@, "ctrl+shift+u"@);
    lemma_default_step(m34, "selectSurface1"@, "alt+1"@);
    lemma_default_step(m35, "selectSurface2"@, "alt+2"@);
    lemma_default_step(m36, "selectSurface3"@, "alt+3"@);
    lemma_default_step(m37, "selectSurface4"@, "alt+4"@);
    lemma_default_step(m38, "selectSurface5"@, "alt+5"@);
    lemma_default_step(m39, "selectSurface6"@, "alt+6"@);
    lemma_default_step(m40, "selectSurface7"@, "alt+7"@);
    lemma_default_step(m41, "selectSurface8"@, "alt+8"@);
    lemma_default_step(m42, "selectSurface9"@, "alt+9"@);
    let m = crate::shortcuts::default_bindings();
    assert(m == m43);
    assert forall|a: Seq<char>, b: Seq<char>|
        #[trigger] m.dom().contains(a) && #[trigger] m.dom().contains(b) && a != b implies m[a] != m[b] by {
        assert(well_bound(m, a) && well_bound(m, b));
    }
}


/// With the default shortcuts, the chord bound to an action resolves back
/// to that action: [`resolve_action`] on it gives the action.
pub proof fn law_default_chord_resolves(m: ShortcutMap, a: Seq<char>)
    requires
        m.wf(),
        m.map() == crate::shortcuts::default_bindings(),
        crate::shortcuts::default_bindings().dom().contains(a),
    ensures
        binding_for(m.entry_seq(), spec_normalize_chord(m.map()[a])) matches Some(i) && m.entry_seq()[i].0 == a,
{
    law_default_chords_distinct_and_canonical();
    let e = m.entry_seq();
    let v = m.map()[a];
    crate::shortcuts::lemma_pos_sorted(e, a);
    let p = crate::shortcuts::entry_pos(e, a)->0;
    assert(v == e[p].1);
    assert(spec_normalize_chord(v) == v);
    assert(bound_to(v)(e[p]));
    crate::workspace::lemma_first_match(e, bound_to(v));
    let i = binding_for(e, v)->0;
    let b = e[i].0;
    crate::shortcuts::lemma_pos_sorted(e, b);
    let q = crate::shortcuts::entry_pos(e, b)->0;
    crate::shortcuts::lemma_unique_pos(e, q, i);
    assert(m.map().dom().contains(b));
    assert(m.map()[b] == e[i].1);
    assert(spec_normalize_chord(e[i].1) == v);
    assert(e[i].1 == v);
}

/// A single lower-case word naming a key, typed as a chord, sends that
/// key's bytes.
proof fn lemma_chord_of_named_word(w: Seq<char>)
    requires
        lower_word(w),
        spec_named_key(w) is Some,
    ensures
        spec_chord_to_bytes(w) == spec_named_key(w),
{
    lemma_lower_word(w);
    lemma_split_single(w, '+');
    let parts = split_on(spec_trim(w), '+').map_values(|p: Seq<char>| spec_trim(p));
    assert(parts =~= seq![w]);
    assert(parts.drop_last().len() == 0);
}

/// Two words that differ in length or in one of their first two letters.
spec fn words_apart(a: Seq<char>, b: Seq<char>) -> bool {
    ||| a.len() != b.len()
    ||| (a.len() > 0 && b.len() > 0 && a[0] != b[0])
    ||| (a.len() > 1 && b.len() > 1 && a[1] != b[1])
}

/// Each key's name, as a chord word, looks up that key's own bytes.
proof fn lemma_named_key_of_name(k: KeyInput)
    requires
        key_name(k) is Some,
    ensures
        spec_named_key((key_name(k)->0).0) == Some((key_name(k)->0).1),
{
    reveal_strlit("enter");
    reveal_strlit("return");
    reveal_strlit("cr");
    reveal_strlit("tab");
    reveal_strlit("esc");
    reveal_strlit("escape");
    reveal_strlit("space");
    reveal_strlit("backspace");
    reveal_strlit("bs");
    reveal_strlit("delete");
    reveal_strlit("del");
    reveal_strlit("up");
    reveal_strlit("down");
    reveal_strlit("right");
    reveal_strlit("left");
    reveal_strlit("home");
    reveal_strlit("end");
    reveal_strlit("pageup");
    reveal_strlit("pagedown");
    let n = (key_name(k)->0).0;
    assert(n == "enter"@ || words_apart(n, "enter"@));
    assert(n == "return"@ || words_apart(n, "return"@));
    assert(n == "cr"@ || words_apart(n, "cr"@));
    assert(n == "tab"@ || words_apart(n, "tab"@));
    assert(n == "esc"@ || words_apart(n, "esc"@));
    assert(n == "escape"@ || words_apart(n, "escape"@));
    assert(n == "space"@ || words_apart(n, "space"@));
    assert(n == "backspace"@ || words_apart(n, "backspace"@));
    assert(n == "bs"@ || words_apart(n, "bs"@));
    assert(n == "delete"@ || words_apart(n, "delete"@));
    assert(n == "del"@ || words_apart(n, "del"@));
    assert(n == "up"@ || words_apart(n, "up"@));
    assert(n == "down"@ || words_apart(n, "down"@));
    assert(n == "right"@ || words_apart(n, "right"@));
    assert(n == "left"@ || words_apart(n, "left"@));
    assert(n == "home"@ || words_apart(n, "home"@));
    assert(n == "end"@ || words_apart(n, "end"@));
    assert(n == "pageup"@ || words_apart(n, "pageup"@));
    assert(n == "pagedown"@ || words_apart(n, "pagedown"@));
}

/// The bytes a key sends as one of its own sequence.
proof fn lemma_key_bytes_differ(k: KeyInput, k2: KeyInput)
    requires
        key_name(k) is Some,
        key_name(k2) is Some,
        k != k2,
    ensures
        (key_name(k)->0).1 != (key_name(k2)->0).1,
{
    let b = (key_name(k)->0).1;
    let c = (key_name(k2)->0).1;
    if b.len() == c.len() {
        if b.len() == 1 {
            assert(b[0] != c[0]);
        } else if b.len() == 3 {
            assert(b[2] != c[2]);
        } else {
            assert(b[2] != c[2]);
        }
    }
}

/// Typing a key's name as a chord sends exactly what pressing that key with
/// no modifier sends (`pagedown` and Page Down both send `ESC [ 6 ~`), and
/// two different named keys never send the same bytes, whether pressed or
/// typed by name.
pub proof fn law_named_key_chord_matches_event(k: KeyInput, k2: KeyInput)
    ensures
        key_name(k) matches Some((n, b)) ==> {
            &&& spec_chord_to_bytes(n) == Some(b)
            &&& spec_key_event_bytes(k, Mods { ctrl: false, alt: false, shift: false, meta: false }) == Some(b)
        },
        key_name(k) is Some && key_name(k2) is Some && k != k2 ==> {
            &&& spec_key_event_bytes(k, Mods { ctrl: false, alt: false, shift: false, meta: false })
                != spec_key_event_bytes(k2, Mods { ctrl: false, alt: false, shift: false, meta: false })
            &&& spec_chord_to_bytes((key_name(k)->0).0) != spec_chord_to_bytes((key_name(k2)->0).0)
        },
{
    lemma_reveal_words();
    if let Some((n, b)) = key_name(k) {
        assert(is_key_name(n));
        lemma_named_key_of_name(k);
        lemma_chord_of_named_word(n);
    }
    if key_name(k) is Some && key_name(k2) is Some && k != k2 {
        lemma_key_bytes_differ(k, k2);
        let n2 = (key_name(k2)->0).0;
        assert(is_key_name(n2));
        lemma_named_key_of_name(k2);
        lemma_chord_of_named_word(n2);
    }
}

} // verus!

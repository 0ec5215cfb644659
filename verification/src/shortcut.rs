//! Parser for shortcut chords like `"meta+KeyM"`.
//!
//! A chord is `+`-separated parts: any number of modifier words followed by
//! one key-code word. Parts are matched case-insensitively; the first part
//! that is not a modifier must be a known key code, and anything after it
//! is ignored.

use vstd::prelude::*;

verus! {

/// The key codes a chord can name.
#[derive(Clone, Copy, Debug, PartialEq, Eq, Structural)]
pub enum KeyCode {
    KeyA,
    KeyB,
    KeyC,
    KeyD,
    KeyE,
    KeyF,
    KeyG,
    KeyH,
    KeyI,
    KeyJ,
    KeyK,
    KeyL,
    KeyM,
    KeyN,
    KeyO,
    KeyP,
    KeyQ,
    KeyR,
    KeyS,
    KeyT,
    KeyU,
    KeyV,
    KeyW,
    KeyX,
    KeyY,
    KeyZ,
    Digit1,
    Digit2,
    Digit3,
    Digit4,
    Digit5,
    Digit6,
    Digit7,
    Digit8,
    Digit9,
    Digit0,
    Space,
}

/// A parsed chord: the modifier set and the key code.
#[derive(Clone, Copy, Debug, PartialEq, Eq, Structural)]
pub struct ShortcutKeys {
    pub meta: bool,
    pub control: bool,
    pub alt: bool,
    pub shift: bool,
    pub code: KeyCode,
}

/// The error of parsing a chord.
#[derive(Clone, Copy, Debug, PartialEq, Eq, Structural)]
pub enum ShortcutParseError {
    InvalidKeyCode,
}

impl ShortcutParseError {
    /// The display text of the error.
    pub fn message(&self) -> (r: String)
        ensures
            r@ == "Invalid key code"@,
    {
        String::from_str("Invalid key code")
    }
}

/// What `str::to_lowercase` yields for a text; determined by the
/// characters alone.
pub uninterp spec fn lower_of(s: Seq<char>) -> Seq<char>;

/// Relies on `str::to_lowercase` for Unicode-aware case folding of each
/// chord part before matching.
#[verifier::external_body]
fn to_lowercase(s: &str) -> (r: String)
    ensures
        r@ == lower_of(s@),
{
    s.to_lowercase()
}

/// Length of the leading run of characters before a `+`.
pub open spec fn plus_prefix_len(s: Seq<char>) -> nat
    decreases s.len(),
{
    if s.len() == 0 || s[0] == '+' {
        0
    } else {
        1 + plus_prefix_len(s.drop_first())
    }
}

pub proof fn lemma_plus_prefix_len_bound(s: Seq<char>)
    ensures
        plus_prefix_len(s) <= s.len(),
    decreases s.len(),
{
    if s.len() > 0 && s[0] != '+' {
        lemma_plus_prefix_len_bound(s.drop_first());
    }
}

pub proof fn lemma_plus_prefix_len_exact(s: Seq<char>, k: int)
    requires
        0 <= k <= s.len(),
        forall|m: int| 0 <= m < k ==> s[m] != '+',
        k == s.len() || s[k] == '+',
    ensures
        plus_prefix_len(s) == k,
    decreases k,
{
    if k > 0 {
        assert(s[0] != '+');
        lemma_plus_prefix_len_exact(s.drop_first(), k - 1);
    }
}

/// The `+`-separated parts of a chord; empty parts are kept, and the empty
/// chord has one empty part.
pub open spec fn split_plus(s: Seq<char>) -> Seq<Seq<char>>
    decreases s.len(),
        via split_plus_decreases
{
    let k = plus_prefix_len(s) as int;
    if k == s.len() {
        seq![s]
    } else {
        seq![s.take(k)] + split_plus(s.skip(k + 1))
    }
}

#[via_fn]
proof fn split_plus_decreases(s: Seq<char>) {
    lemma_plus_prefix_len_bound(s);
}

/// How one lower-cased part reads.
#[derive(Clone, Copy, Debug, PartialEq, Eq, Structural)]
pub enum PartClass {
    Meta,
    Control,
    Alt,
    Shift,
    Key(KeyCode),
    Unknown,
}

/// The key code a lower-cased part names, if any.
pub open spec fn spec_key_code(low: Seq<char>) -> Option<KeyCode> {
    if low == "keya"@ {
        Some(KeyCode::KeyA)
    } else if low == "keyb"@ {
        Some(KeyCode::KeyB)
    } else if low == "keyc"@ {
        Some(KeyCode::KeyC)
    } else if low == "keyd"@ {
        Some(KeyCode::KeyD)
    } else if low == "keye"@ {
        Some(KeyCode::KeyE)
    } else if low == "keyf"@ {
        Some(KeyCode::KeyF)
    } else if low == "keyg"@ {
        Some(KeyCode::KeyG)
    } else if low == "keyh"@ {
        Some(KeyCode::KeyH)
    } else if low == "keyi"@ {
        Some(KeyCode::KeyI)
    } else if low == "keyj"@ {
        Some(KeyCode::KeyJ)
    } else if low == "keyk"@ {
        Some(KeyCode::KeyK)
    } else if low == "keyl"@ {
        Some(KeyCode::KeyL)
    } else if low == "keym"@ {
        Some(KeyCode::KeyM)
    } else if low == "keyn"@ {
        Some(KeyCode::KeyN)
    } else if low == "keyo"@ {
        Some(KeyCode::KeyO)
    } else if low == "keyp"@ {
        Some(KeyCode::KeyP)
    } else if low == "keyq"@ {
        Some(KeyCode::KeyQ)
    } else if low == "keyr"@ {
        Some(KeyCode::KeyR)
    } else if low == "keys"@ {
        Some(KeyCode::KeyS)
    } else if low == "keyt"@ {
        Some(KeyCode::KeyT)
    } else if low == "keyu"@ {
        Some(KeyCode::KeyU)
    } else if low == "keyv"@ {
        Some(KeyCode::KeyV)
    } else if low == "keyw"@ {
        Some(KeyCode::KeyW)
    } else if low == "keyx"@ {
        Some(KeyCode::KeyX)
    } else if low == "keyy"@ {
        Some(KeyCode::KeyY)
    } else if low == "keyz"@ {
        Some(KeyCode::KeyZ)
    } else if low == "digit1"@ {
        Some(KeyCode::Digit1)
    } else if low == "digit2"@ {
        Some(KeyCode::Digit2)
    } else if low == "digit3"@ {
        Some(KeyCode::Digit3)
    } else if low == "digit4"@ {
        Some(KeyCode::Digit4)
    } else if low == "digit5"@ {
        Some(KeyCode::Digit5)
    } else if low == "digit6"@ {
        Some(KeyCode::Digit6)
    } else if low == "digit7"@ {
        Some(KeyCode::Digit7)
    } else if low == "digit8"@ {
        Some(KeyCode::Digit8)
    } else if low == "digit9"@ {
        Some(KeyCode::Digit9)
    } else if low == "digit0"@ {
        Some(KeyCode::Digit0)
    } else if low == "space"@ {
        Some(KeyCode::Space)
    } else {
        None
    }
}

/// How a lower-cased part reads: a modifier word, a key code, or neither.
pub open spec fn spec_classify(low: Seq<char>) -> PartClass {
    if low == "meta"@ || low == "cmd"@ || low == "command"@ {
        PartClass::Meta
    } else if low == "ctrl"@ || low == "control"@ {
        PartClass::Control
    } else if low == "alt"@ || low == "option"@ {
        PartClass::Alt
    } else if low == "shift"@ {
        PartClass::Shift
    } else {
        match spec_key_code(low) {
            Some(c) => PartClass::Key(c),
            None => PartClass::Unknown,
        }
    }
}

/// The parse of the remaining parts, given the modifiers seen so far.
pub open spec fn spec_parse_from(
    parts: Seq<Seq<char>>,
    meta: bool,
    control: bool,
    alt: bool,
    shift: bool,
) -> Option<ShortcutKeys>
    decreases parts.len(),
{
    if parts.len() == 0 {
        None
    } else {
        match spec_classify(lower_of(parts[0])) {
            PartClass::Meta => spec_parse_from(parts.drop_first(), true, control, alt, shift),
            PartClass::Control => spec_parse_from(parts.drop_first(), meta, true, alt, shift),
            PartClass::Alt => spec_parse_from(parts.drop_first(), meta, control, true, shift),
            PartClass::Shift => spec_parse_from(parts.drop_first(), meta, control, alt, true),
            PartClass::Key(code) => Some(ShortcutKeys { meta, control, alt, shift, code }),
            PartClass::Unknown => None,
        }
    }
}

/// The parse of a whole chord.
pub open spec fn spec_parse_shortcut(s: Seq<char>) -> Option<ShortcutKeys> {
    spec_parse_from(split_plus(s), false, false, false, false)
}

/// Classify one lower-cased part.
fn classify_part(low: &String) -> (r: PartClass)
    ensures
        r == spec_classify(low@),
{
    if *low == String::from_str("meta") || *low == String::from_str("cmd") || *low
        == String::from_str("command") {
        PartClass::Meta
    } else if *low == String::from_str("ctrl") || *low == String::from_str("control") {
        PartClass::Control
    } else if *low == String::from_str("alt") || *low == String::from_str("option") {
        PartClass::Alt
    } else if *low == String::from_str("shift") {
        PartClass::Shift
    } else if *low == String::from_str("keya") {
        PartClass::Key(KeyCode::KeyA)
    } else if *low == String::from_str("keyb") {
        PartClass::Key(KeyCode::KeyB)
    } else if *low == String::from_str("keyc") {
        PartClass::Key(KeyCode::KeyC)
    } else if *low == String::from_str("keyd") {
        PartClass::Key(KeyCode::KeyD)
    } else if *low == String::from_str("keye") {
        PartClass::Key(KeyCode::KeyE)
    } else if *low == String::from_str("keyf") {
        PartClass::Key(KeyCode::KeyF)
    } else if *low == String::from_str("keyg") {
        PartClass::Key(KeyCode::KeyG)
    } else if *low == String::from_str("keyh") {
        PartClass::Key(KeyCode::KeyH)
    } else if *low == String::from_str("keyi") {
        PartClass::Key(KeyCode::KeyI)
    } else if *low == String::from_str("keyj") {
        PartClass::Key(KeyCode::KeyJ)
    } else if *low == String::from_str("keyk") {
        PartClass::Key(KeyCode::KeyK)
    } else if *low == String::from_str("keyl") {
        PartClass::Key(KeyCode::KeyL)
    } else if *low == String::from_str("keym") {
        PartClass::Key(KeyCode::KeyM)
    } else if *low == String::from_str("keyn") {
        PartClass::Key(KeyCode::KeyN)
    } else if *low == String::from_str("keyo") {
        PartClass::Key(KeyCode::KeyO)
    } else if *low == String::from_str("keyp") {
        PartClass::Key(KeyCode::KeyP)
    } else if *low == String::from_str("keyq") {
        PartClass::Key(KeyCode::KeyQ)
    } else if *low == String::from_str("keyr") {
        PartClass::Key(KeyCode::KeyR)
    } else if *low == String::from_str("keys") {
        PartClass::Key(KeyCode::KeyS)
    } else if *low == String::from_str("keyt") {
        PartClass::Key(KeyCode::KeyT)
    } else if *low == String::from_str("keyu") {
        PartClass::Key(KeyCode::KeyU)
    } else if *low == String::from_str("keyv") {
        PartClass::Key(KeyCode::KeyV)
    } else if *low == String::from_str("keyw") {
        PartClass::Key(KeyCode::KeyW)
    } else if *low == String::from_str("keyx") {
        PartClass::Key(KeyCode::KeyX)
    } else if *low == String::from_str("keyy") {
        PartClass::Key(KeyCode::KeyY)
    } else if *low == String::from_str("keyz") {
        PartClass::Key(KeyCode::KeyZ)
    } else if *low == String::from_str("digit1") {
        PartClass::Key(KeyCode::Digit1)
    } else if *low == String::from_str("digit2") {
        PartClass::Key(KeyCode::Digit2)
    } else if *low == String::from_str("digit3") {
        PartClass::Key(KeyCode::Digit3)
    } else if *low == String::from_str("digit4") {
        PartClass::Key(KeyCode::Digit4)
    } else if *low == String::from_str("digit5") {
        PartClass::Key(KeyCode::Digit5)
    } else if *low == String::from_str("digit6") {
        PartClass::Key(KeyCode::Digit6)
    } else if *low == String::from_str("digit7") {
        PartClass::Key(KeyCode::Digit7)
    } else if *low == String::from_str("digit8") {
        PartClass::Key(KeyCode::Digit8)
    } else if *low == String::from_str("digit9") {
        PartClass::Key(KeyCode::Digit9)
    } else if *low == String::from_str("digit0") {
        PartClass::Key(KeyCode::Digit0)
    } else if *low == String::from_str("space") {
        PartClass::Key(KeyCode::Space)
    } else {
        PartClass::Unknown
    }
}

/// The `+`-separated parts of a chord, as owned strings.
fn split_plus_parts(s: &str) -> (parts: Vec<String>)
    ensures
        parts.deep_view() == split_plus(s@),
{
    let n = s.unicode_len();
    let mut parts: Vec<String> = Vec::new();
    let mut i: usize = 0;
    let mut done = false;
    proof {
        assert(s@.skip(0) =~= s@);
        assert(parts.deep_view() + split_plus(s@) =~= split_plus(s@));
    }
    while !done
        invariant
            n == s@.len(),
            i <= n,
            !done ==> split_plus(s@) == parts.deep_view() + split_plus(s@.skip(i as int)),
            done ==> parts.deep_view() == split_plus(s@),
        decreases n - i + (if done {
            0int
        } else {
            1int
        }),
    {
        let ghost rest = s@.skip(i as int);
        let mut k = i;
        while k < n && s.get_char(k) != '+'
            invariant
                n == s@.len(),
                i <= k <= n,
                forall|m: int| i <= m < k ==> s@[m] != '+',
            decreases n - k,
        {
            k = k + 1;
        }
        let part = String::from_str(s.substring_char(i, k));
        proof {
            lemma_plus_prefix_len_exact(rest, k - i);
            assert(rest.take(k - i) =~= s@.subrange(i as int, k as int));
        }
        let ghost old_parts = parts.deep_view();
        parts.push(part);
        proof {
            assert(parts.deep_view() =~= old_parts.push(part@));
        }
        if k < n {
            proof {
                assert(rest.skip((k - i) + 1) =~= s@.skip(k + 1));
                assert(split_plus(rest) == seq![rest.take(k - i)] + split_plus(s@.skip(k + 1)));
                assert(old_parts.push(part@) + split_plus(s@.skip(k + 1)) =~= old_parts
                    + split_plus(rest));
            }
            i = k + 1;
        } else {
            proof {
                assert(rest.take(k - i) =~= rest);
                assert(split_plus(rest) == seq![rest]);
                assert(old_parts.push(part@) =~= old_parts + split_plus(rest));
            }
            i = n;
            done = true;
        }
    }
    parts
}

/// Parse a chord string into its modifier set and key code; a chord whose
/// first non-modifier part is not a known key code, or which names no key
/// code at all, is rejected.
pub fn parse_shortcut(shortcut_str: &str) -> (r: Result<ShortcutKeys, ShortcutParseError>)
    ensures
        (r is Ok) <==> spec_parse_shortcut(shortcut_str@) is Some,
        r matches Ok(k) ==> Some(k) == spec_parse_shortcut(shortcut_str@),
        r is Err ==> r == Result::<ShortcutKeys, ShortcutParseError>::Err(
            ShortcutParseError::InvalidKeyCode,
        ),
{
    let ghost all_parts = split_plus(shortcut_str@);
    let parts = split_plus_parts(shortcut_str);
    let mut meta = false;
    let mut control = false;
    let mut alt = false;
    let mut shift = false;
    let mut idx: usize = 0;
    proof {
        assert(all_parts.skip(0) =~= all_parts);
    }
    while idx < parts.len()
        invariant
            parts.deep_view() == all_parts,
            idx <= all_parts.len(),
            spec_parse_shortcut(shortcut_str@) == spec_parse_from(
                all_parts.skip(idx as int),
                meta,
                control,
                alt,
                shift,
            ),
        decreases all_parts.len() - idx,
    {
        proof {
            assert(all_parts.skip(idx as int)[0] == all_parts[idx as int]);
            assert(all_parts.skip(idx as int).drop_first() =~= all_parts.skip(idx + 1));
        }
        let low = to_lowercase(parts[idx].as_str());
        match classify_part(&low) {
            PartClass::Meta => {
                meta = true;
            },
            PartClass::Control => {
                control = true;
            },
            PartClass::Alt => {
                alt = true;
            },
            PartClass::Shift => {
                shift = true;
            },
            PartClass::Key(code) => {
                return Ok(ShortcutKeys { meta, control, alt, shift, code });
            },
            PartClass::Unknown => {
                return Err(ShortcutParseError::InvalidKeyCode);
            },
        }
        idx = idx + 1;
    }
    proof {
        assert(all_parts.skip(all_parts.len() as int) =~= Seq::<Seq<char>>::empty());
    }
    Err(ShortcutParseError::InvalidKeyCode)
}

} // verus!

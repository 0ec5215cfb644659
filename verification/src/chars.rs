//! Character classes used by the tokenizer and the sentence segmenter.
//!
//! The engine works uniformly over half-width (ASCII) and full-width (CJK)
//! text, so the classes below are defined over Unicode code points.

use vstd::prelude::*;

verus! {

/// The code points with the Unicode `White_Space` property.
pub open spec fn is_space_char(c: char) -> bool {
    ||| c == '\u{0009}'
    ||| c == '\u{000A}'
    ||| c == '\u{000B}'
    ||| c == '\u{000C}'
    ||| c == '\u{000D}'
    ||| c == ' '
    ||| c == '\u{0085}'
    ||| c == '\u{00A0}'
    ||| c == '\u{1680}'
    ||| ('\u{2000}' <= c && c <= '\u{200A}')
    ||| c == '\u{2028}'
    ||| c == '\u{2029}'
    ||| c == '\u{202F}'
    ||| c == '\u{205F}'
    ||| c == '\u{3000}'
}

/// Whitespace test over a single code point.
pub fn is_space(c: char) -> (r: bool)
    ensures
        r == is_space_char(c),
{
    c == '\u{0009}' || c == '\u{000A}' || c == '\u{000B}' || c == '\u{000C}' || c == '\u{000D}'
        || c == ' ' || c == '\u{0085}' || c == '\u{00A0}' || c == '\u{1680}' || ('\u{2000}' <= c
        && c <= '\u{200A}') || c == '\u{2028}' || c == '\u{2029}' || c == '\u{202F}'
        || c == '\u{205F}' || c == '\u{3000}'
}

/// The CJK Unified Ideographs block: a text containing one of these code
/// points is segmented script-aware rather than on whitespace.
pub open spec fn is_cjk_char(c: char) -> bool {
    '\u{4E00}' <= c && c <= '\u{9FFF}'
}

/// CJK ideograph test over a single code point.
pub fn is_cjk(c: char) -> (r: bool)
    ensures
        r == is_cjk_char(c),
{
    '\u{4E00}' <= c && c <= '\u{9FFF}'
}

/// The sentence-ending marks recognised by the segmenter: half-width and
/// full-width terminators, ellipses, and doubled terminal punctuation.
pub open spec fn is_sentence_end_char(c: char) -> bool {
    ||| c == '.'
    ||| c == '!'
    ||| c == '?'
    ||| c == '\u{3002}'
    ||| c == '\u{FF01}'
    ||| c == '\u{FF1F}'
    ||| c == '\u{2026}'
    ||| c == '\u{22EF}'
    ||| c == '\u{203C}'
    ||| c == '\u{2047}'
    ||| c == '\u{2048}'
    ||| c == '\u{2049}'
}

/// Sentence-ending mark test over a single code point.
pub fn is_sentence_end(c: char) -> (r: bool)
    ensures
        r == is_sentence_end_char(c),
{
    c == '.' || c == '!' || c == '?' || c == '\u{3002}' || c == '\u{FF01}' || c == '\u{FF1F}'
        || c == '\u{2026}' || c == '\u{22EF}' || c == '\u{203C}' || c == '\u{2047}'
        || c == '\u{2048}' || c == '\u{2049}'
}

} // verus!

//! Text cleanup helpers used around the transformation pipeline.
//!
//! `clean_text` trims every line of a text while preserving the line
//! structure; `escape_osascript` escapes double quotes for embedding a
//! string in an AppleScript literal.

use vstd::prelude::*;

use crate::chars::{is_space, is_space_char};

verus! {

/// Length of the leading run of whitespace.
pub open spec fn ws_prefix_len(s: Seq<char>) -> nat
    decreases s.len(),
{
    if s.len() > 0 && is_space_char(s[0]) {
        1 + ws_prefix_len(s.drop_first())
    } else {
        0
    }
}

/// Length of the trailing run of whitespace.
pub open spec fn ws_suffix_len(s: Seq<char>) -> nat
    decreases s.len(),
{
    if s.len() > 0 && is_space_char(s.last()) {
        1 + ws_suffix_len(s.drop_last())
    } else {
        0
    }
}

pub proof fn lemma_ws_prefix_exact(s: Seq<char>, k: int)
    requires
        0 <= k <= s.len(),
        forall|m: int| 0 <= m < k ==> is_space_char(s[m]),
        k == s.len() || !is_space_char(s[k]),
    ensures
        ws_prefix_len(s) == k,
    decreases k,
{
    if k > 0 {
        assert(is_space_char(s[0]));
        lemma_ws_prefix_exact(s.drop_first(), k - 1);
    }
}

pub proof fn lemma_ws_suffix_exact(s: Seq<char>, k: int)
    requires
        0 <= k <= s.len(),
        forall|m: int| s.len() - k <= m < s.len() ==> is_space_char(s[m]),
        k == s.len() || !is_space_char(s[s.len() - k - 1]),
    ensures
        ws_suffix_len(s) == k,
    decreases k,
{
    if k > 0 {
        assert(is_space_char(s.last()));
        lemma_ws_suffix_exact(s.drop_last(), k - 1);
    }
}

/// The text without leading and trailing whitespace.
pub open spec fn spec_trim(s: Seq<char>) -> Seq<char> {
    let rest = s.skip(ws_prefix_len(s) as int);
    rest.take(rest.len() - ws_suffix_len(rest))
}

/// Trim leading and trailing whitespace from a line.
pub fn trim_line(s: &str) -> (r: String)
    ensures
        r@ == spec_trim(s@),
{
    let n = s.unicode_len();
    let mut a: usize = 0;
    while a < n && is_space(s.get_char(a))
        invariant
            n == s@.len(),
            a <= n,
            forall|m: int| 0 <= m < a ==> is_space_char(s@[m]),
        decreases n - a,
    {
        a = a + 1;
    }
    let mut b: usize = n;
    while b > a && is_space(s.get_char(b - 1))
        invariant
            n == s@.len(),
            a <= b <= n,
            forall|m: int| b <= m < n ==> is_space_char(s@[m]),
        decreases b,
    {
        b = b - 1;
    }
    let r = String::from_str(s.substring_char(a, b));
    proof {
        lemma_ws_prefix_exact(s@, a as int);
        let rest = s@.skip(a as int);
        assert forall|m: int| rest.len() - (n - b) <= m < rest.len() implies is_space_char(
            rest[m],
        ) by {
            assert(rest[m] == s@[a + m]);
        }
        if b > a {
            assert(rest[b - a - 1] == s@[b - 1]);
        }
        lemma_ws_suffix_exact(rest, n - b);
        assert(rest.take(rest.len() - (n - b)) =~= s@.subrange(a as int, b as int));
    }
    r
}

/// Length of the leading run of characters before a newline.
pub open spec fn line_prefix_len(s: Seq<char>) -> nat
    decreases s.len(),
{
    if s.len() == 0 || s[0] == '\n' {
        0
    } else {
        1 + line_prefix_len(s.drop_first())
    }
}

pub proof fn lemma_line_prefix_len_bound(s: Seq<char>)
    ensures
        line_prefix_len(s) <= s.len(),
    decreases s.len(),
{
    if s.len() > 0 && s[0] != '\n' {
        lemma_line_prefix_len_bound(s.drop_first());
    }
}

pub proof fn lemma_line_prefix_len_exact(s: Seq<char>, k: int)
    requires
        0 <= k <= s.len(),
        forall|m: int| 0 <= m < k ==> s[m] != '\n',
        k == s.len() || s[k] == '\n',
    ensures
        line_prefix_len(s) == k,
    decreases k,
{
    if k > 0 {
        assert(s[0] != '\n');
        lemma_line_prefix_len_exact(s.drop_first(), k - 1);
    }
}

/// The lines of a text: fragments between newlines, without a trailing
/// empty fragment when the text ends in a newline.
pub open spec fn split_newlines(s: Seq<char>) -> Seq<Seq<char>>
    decreases s.len(),
        via split_newlines_decreases
{
    if s.len() == 0 {
        Seq::empty()
    } else {
        let k = line_prefix_len(s) as int;
        if k == s.len() {
            seq![s]
        } else {
            seq![s.take(k)] + split_newlines(s.skip(k + 1))
        }
    }
}

#[via_fn]
proof fn split_newlines_decreases(s: Seq<char>) {
    if s.len() > 0 {
        lemma_line_prefix_len_bound(s);
    }
}

/// The lines joined back with single newlines.
pub open spec fn spec_join_lines(lines: Seq<Seq<char>>) -> Seq<char>
    decreases lines.len(),
{
    if lines.len() == 0 {
        Seq::empty()
    } else if lines.len() == 1 {
        lines[0]
    } else {
        lines[0] + seq!['\n'] + spec_join_lines(lines.drop_first())
    }
}

/// Joining one more line appends a newline separator, except to an empty
/// list.
pub proof fn lemma_join_push(lines: Seq<Seq<char>>, x: Seq<char>)
    ensures
        lines.len() == 0 ==> spec_join_lines(lines.push(x)) == x,
        lines.len() > 0 ==> spec_join_lines(lines.push(x)) == spec_join_lines(lines)
            + seq!['\n'] + x,
    decreases lines.len(),
{
    if lines.len() == 0 {
        assert(spec_join_lines(lines.push(x)) == lines.push(x)[0]);
    } else {
        lemma_join_push(lines.drop_first(), x);
        assert(lines.push(x).drop_first() =~= lines.drop_first().push(x));
        assert(lines.push(x)[0] == lines[0]);
        if lines.len() == 1 {
            assert(spec_join_lines(lines.push(x)) == lines[0] + seq!['\n'] + x);
        } else {
            assert(lines[0] + seq!['\n'] + (spec_join_lines(lines.drop_first()) + seq!['\n'] + x)
                =~= (lines[0] + seq!['\n'] + spec_join_lines(lines.drop_first())) + seq!['\n']
                + x);
        }
    }
}

/// The text with every line trimmed, line structure kept.
pub open spec fn spec_clean_text(s: Seq<char>) -> Seq<char> {
    spec_join_lines(split_newlines(s).map_values(|l: Seq<char>| spec_trim(l)))
}

/// Collect the lines of a text, each trimmed.
fn split_lines_trimmed(text: &str) -> (lines: Vec<String>)
    ensures
        lines.deep_view() == split_newlines(text@).map_values(|l: Seq<char>| spec_trim(l)),
{
    let ghost target = split_newlines(text@).map_values(|l: Seq<char>| spec_trim(l));
    let n = text.unicode_len();
    let mut lines: Vec<String> = Vec::new();
    let mut i: usize = 0;
    proof {
        assert(text@.skip(0) =~= text@);
        assert(lines.deep_view() + split_newlines(text@).map_values(|l: Seq<char>| spec_trim(l))
            =~= split_newlines(text@).map_values(|l: Seq<char>| spec_trim(l)));
    }
    while i < n
        invariant
            n == text@.len(),
            i <= n,
            target == split_newlines(text@).map_values(|l: Seq<char>| spec_trim(l)),
            target == lines.deep_view() + split_newlines(text@.skip(i as int)).map_values(
                |l: Seq<char>| spec_trim(l),
            ),
        decreases n - i,
    {
        let ghost rest = text@.skip(i as int);
        let mut k = i;
        while k < n && text.get_char(k) != '\n'
            invariant
                n == text@.len(),
                i <= k <= n,
                forall|m: int| i <= m < k ==> text@[m] != '\n',
            decreases n - k,
        {
            k = k + 1;
        }
        let line = trim_line(text.substring_char(i, k));
        proof {
            lemma_line_prefix_len_exact(rest, k - i);
            assert(rest.take(k - i) =~= text@.subrange(i as int, k as int));
        }
        let ghost old_lines = lines.deep_view();
        lines.push(line);
        proof {
            assert(lines.deep_view() =~= old_lines.push(line@));
        }
        if k < n {
            proof {
                assert(rest.skip((k - i) + 1) =~= text@.skip(k + 1));
                assert(split_newlines(rest) == seq![rest.take(k - i)] + split_newlines(
                    text@.skip(k + 1),
                ));
                assert((seq![rest.take(k - i)] + split_newlines(text@.skip(k + 1))).map_values(
                    |l: Seq<char>| spec_trim(l),
                ) =~= seq![spec_trim(rest.take(k - i))] + split_newlines(
                    text@.skip(k + 1),
                ).map_values(|l: Seq<char>| spec_trim(l)));
                assert(old_lines.push(line@) + split_newlines(text@.skip(k + 1)).map_values(
                    |l: Seq<char>| spec_trim(l),
                ) =~= old_lines + split_newlines(rest).map_values(|l: Seq<char>| spec_trim(l)));
            }
            i = k + 1;
        } else {
            proof {
                assert(rest.take(k - i) =~= rest);
                assert(split_newlines(rest) == seq![rest]);
                assert(split_newlines(rest).map_values(|l: Seq<char>| spec_trim(l)) =~= seq![
                    spec_trim(rest),
                ]);
                assert(text@.skip(n as int) =~= Seq::<char>::empty());
                assert(old_lines.push(line@) + split_newlines(text@.skip(n as int)).map_values(
                    |l: Seq<char>| spec_trim(l),
                ) =~= old_lines + split_newlines(rest).map_values(|l: Seq<char>| spec_trim(l)));
            }
            i = n;
        }
    }
    proof {
        assert(text@.skip(n as int) =~= Seq::<char>::empty());
        assert(target =~= lines.deep_view());
    }
    lines
}

/// Join lines with single newlines.
fn join_lines(lines: &Vec<String>) -> (r: String)
    ensures
        r@ == spec_join_lines(lines.deep_view()),
{
    proof {
        reveal_strlit("\n");
    }
    let mut r = String::new();
    let mut i: usize = 0;
    while i < lines.len()
        invariant
            i <= lines@.len(),
            r@ == spec_join_lines(lines.deep_view().take(i as int)),
        decreases lines@.len() - i,
    {
        if i > 0 {
            r.append("\n");
            proof {
                reveal_strlit("\n");
                assert("\n"@ =~= seq!['\n']);
            }
        }
        r.append(lines[i].as_str());
        proof {
            let dv = lines.deep_view();
            lemma_join_push(dv.take(i as int), dv[i as int]);
            assert(dv.take(i as int).push(dv[i as int]) =~= dv.take(i + 1));
        }
        i = i + 1;
    }
    proof {
        assert(lines.deep_view().take(lines@.len() as int) =~= lines.deep_view());
    }
    r
}

/// Clean a text while preserving its formatting: trim each line, keep the
/// line structure.
pub fn clean_text(text: &str) -> (r: String)
    ensures
        r@ == spec_clean_text(text@),
{
    let lines = split_lines_trimmed(text);
    join_lines(&lines)
}

/// The text with every double quote preceded by a backslash.
pub open spec fn spec_escape_quotes(s: Seq<char>) -> Seq<char>
    decreases s.len(),
{
    if s.len() == 0 {
        Seq::empty()
    } else if s[0] == '"' {
        seq!['\\', '"'] + spec_escape_quotes(s.drop_first())
    } else {
        seq![s[0]] + spec_escape_quotes(s.drop_first())
    }
}

/// A quote-free prefix passes through the escape unchanged.
pub proof fn lemma_escape_run(s: Seq<char>, k: int)
    requires
        0 <= k <= s.len(),
        forall|m: int| 0 <= m < k ==> s[m] != '"',
    ensures
        spec_escape_quotes(s) == s.take(k) + spec_escape_quotes(s.skip(k)),
    decreases k,
{
    if k == 0 {
        assert(s.skip(0) =~= s);
        assert(s.take(0) + spec_escape_quotes(s.skip(0)) =~= spec_escape_quotes(s));
    } else {
        assert(s[0] != '"');
        lemma_escape_run(s.drop_first(), k - 1);
        assert(s.drop_first().take(k - 1) =~= s.take(k).drop_first());
        assert(s.drop_first().skip(k - 1) =~= s.skip(k));
        assert(seq![s[0]] + (s.take(k).drop_first() + spec_escape_quotes(s.skip(k))) =~= s.take(k)
            + spec_escape_quotes(s.skip(k)));
    }
}

/// Escape double quotes for an AppleScript string literal.
pub fn escape_osascript(input: &str) -> (r: String)
    ensures
        r@ == spec_escape_quotes(input@),
{
    proof {
        reveal_strlit("\\\"");
    }
    let n = input.unicode_len();
    let mut r = String::new();
    let mut i: usize = 0;
    proof {
        assert(input@.skip(0) =~= input@);
        assert(r@ + spec_escape_quotes(input@) =~= spec_escape_quotes(input@));
    }
    while i < n
        invariant
            n == input@.len(),
            i <= n,
            spec_escape_quotes(input@) == r@ + spec_escape_quotes(input@.skip(i as int)),
        decreases n - i,
    {
        let ghost rest = input@.skip(i as int);
        let mut k = i;
        while k < n && input.get_char(k) != '"'
            invariant
                n == input@.len(),
                i <= k <= n,
                forall|m: int| i <= m < k ==> input@[m] != '"',
            decreases n - k,
        {
            k = k + 1;
        }
        r.append(input.substring_char(i, k));
        proof {
            assert forall|m: int| 0 <= m < k - i implies rest[m] != '"' by {
                assert(rest[m] == input@[i + m]);
            }
            lemma_escape_run(rest, k - i);
            assert(rest.take(k - i) =~= input@.subrange(i as int, k as int));
        }
        if k < n {
            r.append("\\\"");
            proof {
                reveal_strlit("\\\"");
                assert("\\\""@ =~= seq!['\\', '"']);
                assert(rest.skip(k - i)[0] == input@[k as int]);
                assert(rest.skip(k - i).drop_first() =~= input@.skip(k + 1));
                assert(spec_escape_quotes(rest.skip(k - i)) == seq!['\\', '"']
                    + spec_escape_quotes(input@.skip(k + 1)));
            }
            i = k + 1;
        } else {
            proof {
                assert(rest.skip(k - i) =~= input@.skip(n as int));
            }
            i = n;
        }
    }
    proof {
        assert(input@.skip(n as int) =~= Seq::<char>::empty());
    }
    r
}

} // verus!

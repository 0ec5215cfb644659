//! Classification of completion-API failures.
//!
//! The completion call itself is an external collaborator; what it reports
//! on failure is classified here into the user-facing messages, by
//! substring tests on the provider's error text.

use vstd::prelude::*;

verus! {

/// `p` occurs contiguously in `s`.
pub open spec fn contains_sub(s: Seq<char>, p: Seq<char>) -> bool {
    exists|i: int| 0 <= i && i + p.len() <= s.len() && #[trigger] s.subrange(i, i + p.len()) == p
}

/// Naive substring search.
pub fn contains(s: &str, p: &str) -> (r: bool)
    ensures
        r == contains_sub(s@, p@),
{
    let n = s.unicode_len();
    let m = p.unicode_len();
    if m > n {
        proof {
            assert forall|i: int| !(0 <= i && i + p@.len() <= s@.len() && #[trigger] s@.subrange(
                i,
                i + p@.len(),
            ) == p@) by {}
        }
        return false;
    }
    let mut i: usize = 0;
    loop
        invariant
            n == s@.len(),
            m == p@.len(),
            m <= n,
            i <= n - m,
            forall|q: int| 0 <= q < i ==> #[trigger] s@.subrange(q, q + p@.len()) != p@,
        ensures
            forall|q: int| 0 <= q <= n - m ==> #[trigger] s@.subrange(q, q + p@.len()) != p@,
        decreases n - m - i,
    {
        let mut j: usize = 0;
        let mut mismatch = false;
        while j < m && !mismatch
            invariant
                n == s@.len(),
                m == p@.len(),
                i + m <= n,
                j <= m,
                !mismatch ==> forall|t: int| 0 <= t < j ==> s@[i + t] == p@[t],
                mismatch ==> s@.subrange(i as int, i + p@.len()) != p@,
            decreases m - j + (if mismatch {
                0int
            } else {
                1int
            }),
        {
            if s.get_char(i + j) != p.get_char(j) {
                proof {
                    assert(s@.subrange(i as int, i + p@.len())[j as int] == s@[i + j]);
                }
                mismatch = true;
            } else {
                j = j + 1;
            }
        }
        if !mismatch {
            proof {
                assert(s@.subrange(i as int, i + p@.len()) =~= p@);
            }
            return true;
        }
        if i == n - m {
            break;
        }
        i = i + 1;
    }
    proof {
        assert forall|q: int| !(0 <= q && q + p@.len() <= s@.len() && #[trigger] s@.subrange(
            q,
            q + p@.len(),
        ) == p@) by {
            if 0 <= q && q + p@.len() <= s@.len() {
                assert(q <= n - m);
            }
        }
    }
    false
}

/// The user-facing message for a completion-API error text.
pub open spec fn spec_api_error_message(m: Seq<char>) -> Seq<char> {
    if contains_sub(m, "429"@) || contains_sub(m, "rate limit"@) || contains_sub(
        m,
        "Rate limit"@,
    ) {
        "Rate limit exceeded - please top up your account balance"@
    } else if contains_sub(m, "401"@) || contains_sub(m, "unauthorized"@) {
        "Invalid API key - please check your credentials"@
    } else if contains_sub(m, "403"@) || contains_sub(m, "forbidden"@) {
        "API access forbidden - please check your account status"@
    } else if contains_sub(m, "insufficient"@) || contains_sub(m, "quota"@) || contains_sub(
        m,
        "billing"@,
    ) {
        "Rate limit exceeded - please top up your account balance"@
    } else {
        "API error: "@ + m
    }
}

/// Classify a completion-API error text into the message shown to the
/// user: rate-limit and billing troubles, bad credentials, forbidden
/// access, or a pass-through of anything else.
pub fn map_api_error(error_msg: &str) -> (r: String)
    ensures
        r@ == spec_api_error_message(error_msg@),
{
    if contains(error_msg, "429") || contains(error_msg, "rate limit") || contains(
        error_msg,
        "Rate limit",
    ) {
        String::from_str("Rate limit exceeded - please top up your account balance")
    } else if contains(error_msg, "401") || contains(error_msg, "unauthorized") {
        String::from_str("Invalid API key - please check your credentials")
    } else if contains(error_msg, "403") || contains(error_msg, "forbidden") {
        String::from_str("API access forbidden - please check your account status")
    } else if contains(error_msg, "insufficient") || contains(error_msg, "quota") || contains(
        error_msg,
        "billing",
    ) {
        String::from_str("Rate limit exceeded - please top up your account balance")
    } else {
        let mut r = String::from_str("API error: ");
        r.append(error_msg);
        r
    }
}

} // verus!

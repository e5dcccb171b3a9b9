//! Request normalization.
//!
//! A raw payload either parses as a structured request (a concern of the
//! host's codec) or, as a fallback, as a plain decimal unsigned-integer
//! string: ASCII whitespace is trimmed, an optional leading `+` sign is
//! allowed, and the digits become the single external timestamp of a
//! synthesized request. A payload that is neither is discarded by the
//! caller with no response — a deliberate no-acknowledgement policy.

use crate::text::dec_chars;
use crate::text::u64_to_string;
use vstd::prelude::*;
use vstd::string::*;

verus! {

/// A canonical time request.
pub struct TimeRequest {
    /// Caller-supplied or synthesized identifier, copied to the response.
    pub request_id: String,
    /// Quorum threshold: the number of agreeing timestamps required.
    pub required_consensus: u8,
    /// Tolerance window in seconds for clustering.
    pub max_time_diff: u64,
    /// Externally reported timestamps, if any.
    pub external_timestamps: Option<Vec<u64>>,
}

/// ASCII whitespace, as trimmed from a plain-integer payload.
pub open spec fn is_space(b: u8) -> bool {
    b == 32 || (9 <= b <= 13)
}

/// The count of leading whitespace bytes.
pub open spec fn leading_spaces(s: Seq<u8>) -> int
    decreases s.len(),
{
    if s.len() == 0 {
        0
    } else if !is_space(s[0]) {
        0
    } else {
        1 + leading_spaces(s.drop_first())
    }
}

/// The length of the payload once trailing whitespace is removed.
pub open spec fn end_after_trim(s: Seq<u8>) -> int
    decreases s.len(),
{
    if s.len() == 0 {
        0
    } else if !is_space(s.last()) {
        s.len() as int
    } else {
        end_after_trim(s.drop_last())
    }
}

/// The payload with ASCII whitespace trimmed from both ends.
pub open spec fn trimmed(s: Seq<u8>) -> Seq<u8> {
    if leading_spaces(s) < end_after_trim(s) {
        s.subrange(leading_spaces(s), end_after_trim(s))
    } else {
        Seq::empty()
    }
}

/// An ASCII decimal digit.
pub open spec fn is_digit(b: u8) -> bool {
    48 <= b <= 57
}

/// Whether every byte is an ASCII decimal digit.
pub open spec fn all_digits(s: Seq<u8>) -> bool {
    forall|j: int| 0 <= j < s.len() ==> is_digit(#[trigger] s[j])
}

/// The value of a string of decimal digits, most significant first.
pub open spec fn digits_value(s: Seq<u8>) -> int
    recommends
        all_digits(s),
    decreases s.len(),
{
    if s.len() == 0 {
        0
    } else {
        digits_value(s.drop_last()) * 10 + (s.last() - 48)
    }
}

/// The digits of a trimmed payload: a single optional leading `+` sign may
/// stand before them.
pub open spec fn digits_part(t: Seq<u8>) -> Seq<u8> {
    if t.len() > 0 && t[0] == 43 {
        t.drop_first()
    } else {
        t
    }
}

/// Whether the payload is, after trimming and past an optional leading
/// `+`, a non-empty string of decimal digits whose value fits the 64-bit
/// range.
pub open spec fn is_simple_payload(s: Seq<u8>) -> bool {
    let d = digits_part(trimmed(s));
    d.len() > 0 && all_digits(d) && digits_value(d) <= u64::MAX as int
}

proof fn lemma_leading_spaces_at(s: Seq<u8>, i: int)
    requires
        0 <= i <= s.len(),
        forall|j: int| 0 <= j < i ==> is_space(#[trigger] s[j]),
        i == s.len() || !is_space(s[i]),
    ensures
        leading_spaces(s) == i,
    decreases i,
{
    if i > 0 {
        assert(forall|j: int| 0 <= j < i - 1 ==> s.drop_first()[j] == #[trigger] s[j + 1]);
        lemma_leading_spaces_at(s.drop_first(), i - 1);
    }
}

proof fn lemma_end_after_trim_at(s: Seq<u8>, e: int)
    requires
        0 <= e <= s.len(),
        forall|j: int| e <= j < s.len() ==> is_space(#[trigger] s[j]),
        e == 0 || !is_space(s[e - 1]),
    ensures
        end_after_trim(s) == e,
    decreases s.len(),
{
    if s.len() > 0 {
        if e == s.len() {
        } else {
            assert(is_space(s[s.len() - 1]));
            assert(forall|j: int|
                0 <= j < s.len() - 1 ==> s.drop_last()[j] == #[trigger] s[j]);
            lemma_end_after_trim_at(s.drop_last(), e);
        }
    }
}

/// The value of a digit string is non-negative.
proof fn lemma_digits_value_nonneg(s: Seq<u8>)
    requires
        all_digits(s),
    ensures
        digits_value(s) >= 0,
    decreases s.len(),
{
    if s.len() > 0 {
        assert(forall|j: int| 0 <= j < s.len() - 1 ==> s.drop_last()[j] == #[trigger] s[j]);
        lemma_digits_value_nonneg(s.drop_last());
    }
}

/// The value of a digit string never falls when more digits follow.
proof fn lemma_digits_value_extend(s: Seq<u8>, k: int)
    requires
        0 <= k <= s.len(),
        all_digits(s),
    ensures
        digits_value(s) >= digits_value(s.take(k)),
    decreases s.len() - k,
{
    if k == s.len() {
        assert(s.take(k) =~= s);
    } else {
        lemma_digits_value_extend(s, k + 1);
        assert(s.take(k) =~= s.take(k + 1).take(k));
        assert(forall|j: int| 0 <= j < k + 1 ==> s.take(k + 1)[j] == #[trigger] s[j]);
        lemma_digits_value_nonneg(s.take(k));
        assert(s.take(k + 1).drop_last() =~= s.take(k));
        assert(s.take(k + 1).last() == s[k]);
        assert(digits_value(s.take(k + 1)) == digits_value(s.take(k)) * 10 + (s[k] - 48));
    }
}

fn is_space_byte(b: u8) -> (r: bool)
    ensures
        r == is_space(b),
{
    b == 32 || (9 <= b && b <= 13)
}

/// Attempts the plain-integer fallback parse of a raw payload.
///
/// Succeeds exactly on payloads that are a whitespace-trimmed decimal
/// unsigned integer in the 64-bit range, with an optional leading `+`
/// sign, and then synthesizes a request with that value as the single
/// external timestamp, a quorum of one, a five-second tolerance window,
/// and an identifier derived from the value. Only ASCII whitespace is
/// trimmed: a payload padded with other Unicode whitespace is rejected.
pub fn normalize_simple(payload: &Vec<u8>) -> (r: Option<TimeRequest>)
    ensures
        r is Some <==> is_simple_payload(payload@),
        (r matches Some(req) ==> {
            let v = digits_value(digits_part(trimmed(payload@)));
            &&& req.request_id@ == "simple_"@ + dec_chars(v)
            &&& req.required_consensus == 1
            &&& req.max_time_diff == 5
            &&& req.external_timestamps matches Some(ext) && ext@ == seq![v as u64]
        }),
{
    let ghost s = payload@;
    let n = payload.len();
    let mut start: usize = 0;
    while start < n && is_space_byte(payload[start])
        invariant
            0 <= start <= n,
            n == s.len(),
            s == payload@,
            forall|j: int| 0 <= j < start ==> is_space(#[trigger] s[j]),
        decreases n - start,
    {
        start += 1;
    }
    proof {
        lemma_leading_spaces_at(s, start as int);
    }
    let mut end: usize = n;
    while end > 0 && is_space_byte(payload[end - 1])
        invariant
            0 <= end <= n,
            n == s.len(),
            s == payload@,
            forall|j: int| end <= j < n ==> is_space(#[trigger] s[j]),
        decreases end,
    {
        end -= 1;
    }
    proof {
        lemma_end_after_trim_at(s, end as int);
    }
    if start >= end {
        proof {
            assert(trimmed(s).len() == 0);
            assert(digits_part(trimmed(s)).len() == 0);
        }
        return None;
    }
    let ghost t = trimmed(s);
    proof {
        assert(t == s.subrange(start as int, end as int));
        assert(t[0] == s[start as int]);
    }
    let mut ds: usize = start;
    if payload[start] == 43 {
        ds = start + 1;
    }
    let ghost d = digits_part(t);
    proof {
        if s[start as int] == 43 {
            assert(d =~= s.subrange(start + 1 as int, end as int));
        }
        assert(d == s.subrange(ds as int, end as int));
    }
    if ds >= end {
        proof {
            assert(d.len() == 0);
        }
        return None;
    }
    let mut acc: u64 = 0;
    let mut i: usize = ds;
    while i < end
        invariant
            start <= ds <= i <= end <= n,
            n == s.len(),
            s == payload@,
            ds < end,
            leading_spaces(s) == start as int,
            end_after_trim(s) == end as int,
            t == trimmed(s),
            d == digits_part(t),
            d == s.subrange(ds as int, end as int),
            forall|j: int| ds <= j < i ==> is_digit(#[trigger] s[j]),
            acc as int == digits_value(d.take(i - ds)),
        decreases end - i,
    {
        let b = payload[i];
        proof {
            assert(d[i - ds] == s[i as int]);
        }
        if !(48 <= b && b <= 57) {
            proof {
                assert(!is_digit(d[i - ds]));
                assert(!all_digits(d));
            }
            return None;
        }
        let digit: u64 = (b - 48) as u64;
        let ghost k = i - ds;
        proof {
            assert(d.take(k + 1).drop_last() =~= d.take(k));
            assert(d.take(k + 1).last() == d[k]);
            assert(digits_value(d.take(k + 1)) == acc as int * 10 + digit);
        }
        let next = match acc.checked_mul(10) {
            Some(prod) => prod.checked_add(digit),
            None => None,
        };
        match next {
            Some(v) => {
                acc = v;
            },
            None => {
                proof {
                    if all_digits(d) {
                        lemma_digits_value_extend(d, k + 1);
                        assert(digits_value(d) > u64::MAX as int);
                    }
                }
                return None;
            },
        }
        i += 1;
    }
    proof {
        assert(d.take(end - ds) =~= d);
        assert(all_digits(d));
        assert(is_simple_payload(s));
    }
    let mut id = String::from_str("simple_");
    let num = u64_to_string(acc);
    id.append(num.as_str());
    let mut ext: Vec<u64> = Vec::new();
    ext.push(acc);
    proof {
        assert(ext@ =~= seq![acc]);
    }
    Some(
        TimeRequest {
            request_id: id,
            required_consensus: 1,
            max_time_diff: 5,
            external_timestamps: Some(ext),
        },
    )
}

} // verus!

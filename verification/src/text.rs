//! Canonical text rendering.
//!
//! The verification digest is computed over a canonical string, so every
//! piece of that string — decimal numbers, the fixed-point confidence score,
//! source labels, the comma join, and the hex rendering of the digest — is
//! produced by verified code with an exact character-level contract.

use vstd::prelude::*;
use vstd::string::*;

verus! {

/// The decimal digit character for `d` in `0..10`.
pub open spec fn digit_char(d: int) -> char {
    if d == 0 {
        '0'
    } else if d == 1 {
        '1'
    } else if d == 2 {
        '2'
    } else if d == 3 {
        '3'
    } else if d == 4 {
        '4'
    } else if d == 5 {
        '5'
    } else if d == 6 {
        '6'
    } else if d == 7 {
        '7'
    } else if d == 8 {
        '8'
    } else {
        '9'
    }
}

/// Decimal rendering of a non-negative integer, most significant digit
/// first, without leading zeros (zero renders as a single `'0'`).
pub open spec fn dec_chars(n: int) -> Seq<char>
    recommends
        n >= 0,
    decreases n,
{
    if n < 10 {
        seq![digit_char(n)]
    } else {
        dec_chars(n / 10).push(digit_char(n % 10))
    }
}

/// Decimal rendering of `n` padded with leading zeros to exactly `width`
/// digits (truncating high digits if `n` does not fit).
pub open spec fn dec_chars_pad(n: int, width: nat) -> Seq<char>
    recommends
        n >= 0,
    decreases width,
{
    if width == 0 {
        Seq::empty()
    } else {
        dec_chars_pad(n / 10, (width - 1) as nat).push(digit_char(n % 10))
    }
}

/// Rendering of a confidence score held in millionths, with exactly six
/// digits after the decimal point.
pub open spec fn score_chars(micro: int) -> Seq<char>
    recommends
        micro >= 0,
{
    dec_chars(micro / 1000000).push('.') + dec_chars_pad(micro % 1000000, 6)
}

/// The label given to the `i`-th contributing source.
pub open spec fn source_label(i: int) -> Seq<char> {
    "source_"@ + dec_chars(i)
}

/// The views of a sequence of strings.
pub open spec fn string_views(ss: Seq<String>) -> Seq<Seq<char>> {
    ss.map_values(|s: String| s@)
}

/// The elements of `ss` concatenated with a single comma between
/// neighbours.
pub open spec fn join_commas(ss: Seq<Seq<char>>) -> Seq<char>
    decreases ss.len(),
{
    if ss.len() == 0 {
        Seq::empty()
    } else if ss.len() == 1 {
        ss[0]
    } else {
        join_commas(ss.drop_last()) + seq![','] + ss.last()
    }
}

/// The lowercase hexadecimal digit character for `d` in `0..16`.
pub open spec fn hex_digit_char(d: int) -> char {
    if d < 10 {
        digit_char(d)
    } else if d == 10 {
        'a'
    } else if d == 11 {
        'b'
    } else if d == 12 {
        'c'
    } else if d == 13 {
        'd'
    } else if d == 14 {
        'e'
    } else {
        'f'
    }
}

/// Lowercase hexadecimal rendering of a byte string, two digits per byte.
pub open spec fn hex_chars(bs: Seq<u8>) -> Seq<char>
    decreases bs.len(),
{
    if bs.len() == 0 {
        Seq::empty()
    } else {
        hex_chars(bs.drop_last()) + seq![
            hex_digit_char(bs.last() as int / 16),
            hex_digit_char(bs.last() as int % 16),
        ]
    }
}

/// A lowercase hexadecimal digit character.
pub open spec fn is_hex_char(c: char) -> bool {
    exists|d: int| 0 <= d < 16 && c == hex_digit_char(d)
}

/// A hexadecimal rendering is two digits per byte, every one of them a
/// lowercase hexadecimal digit.
pub proof fn lemma_hex_chars_shape(bs: Seq<u8>)
    ensures
        hex_chars(bs).len() == 2 * bs.len(),
        forall|i: int| 0 <= i < hex_chars(bs).len() ==> is_hex_char(#[trigger] hex_chars(bs)[i]),
    decreases bs.len(),
{
    if bs.len() > 0 {
        lemma_hex_chars_shape(bs.drop_last());
        let h = hex_chars(bs);
        let pre = hex_chars(bs.drop_last());
        let b = bs.last() as int;
        assert forall|i: int| 0 <= i < h.len() implies is_hex_char(h[i]) by {
            if i < pre.len() {
                assert(h[i] == pre[i]);
            } else if i == pre.len() {
                assert(h[i] == hex_digit_char(b / 16));
                assert(0 <= b / 16 < 16);
            } else {
                assert(h[i] == hex_digit_char(b % 16));
                assert(0 <= b % 16 < 16);
            }
        }
    }
}

fn digit_str(d: u64) -> (r: &'static str)
    requires
        d < 10,
    ensures
        r@ == seq![digit_char(d as int)],
{
    proof {
        reveal_strlit("0");
        reveal_strlit("1");
        reveal_strlit("2");
        reveal_strlit("3");
        reveal_strlit("4");
        reveal_strlit("5");
        reveal_strlit("6");
        reveal_strlit("7");
        reveal_strlit("8");
        reveal_strlit("9");
    }
    let r = match d {
        0 => "0",
        1 => "1",
        2 => "2",
        3 => "3",
        4 => "4",
        5 => "5",
        6 => "6",
        7 => "7",
        8 => "8",
        _ => "9",
    };
    proof {
        assert(r@ =~= seq![digit_char(d as int)]);
    }
    r
}

fn hex_digit_str(d: u8) -> (r: &'static str)
    requires
        d < 16,
    ensures
        r@ == seq![hex_digit_char(d as int)],
{
    if d < 10 {
        digit_str(d as u64)
    } else {
        proof {
            reveal_strlit("a");
            reveal_strlit("b");
            reveal_strlit("c");
            reveal_strlit("d");
            reveal_strlit("e");
            reveal_strlit("f");
        }
        let r = match d {
            10 => "a",
            11 => "b",
            12 => "c",
            13 => "d",
            14 => "e",
            _ => "f",
        };
        proof {
            assert(r@ =~= seq![hex_digit_char(d as int)]);
        }
        r
    }
}

/// Renders `n` in decimal, most significant digit first.
pub fn u64_to_string(n: u64) -> (r: String)
    ensures
        r@ == dec_chars(n as int),
    decreases n,
{
    if n < 10 {
        String::from_str(digit_str(n))
    } else {
        let mut s = u64_to_string(n / 10);
        s.append(digit_str(n % 10));
        proof {
            assert(s@ =~= dec_chars(n as int));
        }
        s
    }
}

/// Renders `n` in decimal, zero-padded to exactly `width` digits.
pub fn u64_to_padded_string(n: u64, width: usize) -> (r: String)
    ensures
        r@ == dec_chars_pad(n as int, width as nat),
    decreases width,
{
    if width == 0 {
        let s = String::new();
        proof {
            assert(s@ =~= dec_chars_pad(n as int, 0nat));
        }
        s
    } else {
        let mut s = u64_to_padded_string(n / 10, width - 1);
        s.append(digit_str(n % 10));
        proof {
            assert(s@ =~= dec_chars_pad(n as int, width as nat));
        }
        s
    }
}

/// Renders a confidence score held in millionths with six decimal digits.
pub fn score_to_string(micro: u32) -> (r: String)
    ensures
        r@ == score_chars(micro as int),
{
    let whole: u64 = (micro / 1000000) as u64;
    let frac: u64 = (micro % 1000000) as u64;
    let mut s = u64_to_string(whole);
    s.append(".");
    let f = u64_to_padded_string(frac, 6);
    s.append(f.as_str());
    proof {
        reveal_strlit(".");
        assert(s@ =~= score_chars(micro as int));
    }
    s
}

/// Builds the label of the `i`-th contributing source.
pub fn source_label_string(i: u64) -> (r: String)
    ensures
        r@ == source_label(i as int),
{
    let mut s = String::from_str("source_");
    let d = u64_to_string(i);
    s.append(d.as_str());
    s
}

/// Joins the strings with a single comma between neighbours.
pub fn join_with_commas(items: &Vec<String>) -> (r: String)
    ensures
        r@ == join_commas(string_views(items@)),
{
    let mut r = String::new();
    let mut i: usize = 0;
    while i < items.len()
        invariant
            i <= items.len(),
            r@ == join_commas(string_views(items@.take(i as int))),
        decreases items.len() - i,
    {
        if i > 0 {
            r.append(",");
        }
        r.append(items[i].as_str());
        proof {
            reveal_strlit(",");
            let pre = string_views(items@.take(i as int));
            let cur = string_views(items@.take(i + 1 as int));
            assert(cur.drop_last() =~= pre);
            assert(cur.last() == items@[i as int]@);
            assert(r@ =~= join_commas(cur));
        }
        i += 1;
    }
    proof {
        assert(items@.take(items@.len() as int) =~= items@);
    }
    r
}

/// Renders a byte string as lowercase hexadecimal, two digits per byte.
pub fn bytes_to_hex(bs: &Vec<u8>) -> (r: String)
    ensures
        r@ == hex_chars(bs@),
{
    let mut r = String::new();
    let mut i: usize = 0;
    while i < bs.len()
        invariant
            i <= bs.len(),
            r@ == hex_chars(bs@.take(i as int)),
        decreases bs.len() - i,
    {
        let b = bs[i];
        r.append(hex_digit_str(b / 16));
        r.append(hex_digit_str(b % 16));
        proof {
            let cur = bs@.take(i + 1 as int);
            assert(cur.drop_last() =~= bs@.take(i as int));
            assert(cur.last() == b);
            assert(r@ =~= hex_chars(cur));
        }
        i += 1;
    }
    proof {
        assert(bs@.take(bs@.len() as int) =~= bs@);
    }
    r
}

} // verus!

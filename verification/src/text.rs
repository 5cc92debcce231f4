//! Small verified text utilities shared by the markup-normalization and
//! transcription code: character-exact string comparison, conversion to a
//! character vector, and decimal rendering and parsing.

use vstd::prelude::*;

verus! {

/// The views of a sequence of strings.
pub open spec fn string_views(s: Seq<String>) -> Seq<Seq<char>> {
    s.map_values(|p: String| p@)
}

/// Character-for-character equality of two string slices.
pub fn str_eq_str(a: &str, b: &str) -> (r: bool)
    ensures
        r == (a@ == b@),
{
    let n = a.unicode_len();
    let m = b.unicode_len();
    if n != m {
        assert(a@ != b@) by {
            assert(a@.len() != b@.len());
        }
        return false;
    }
    let mut i: usize = 0;
    while i < n
        invariant
            n == a@.len(),
            n == b@.len(),
            i <= n,
            forall|j: int| 0 <= j < i ==> a@[j] == b@[j],
        decreases n - i,
    {
        let ca = a.get_char(i);
        let cb = b.get_char(i);
        if ca != cb {
            assert(a@[i as int] != b@[i as int]);
            return false;
        }
        i = i + 1;
    }
    proof {
        assert(a@ =~= b@);
    }
    true
}

/// The characters of a string slice, in order.
pub fn chars_of(s: &str) -> (r: Vec<char>)
    ensures
        r@ == s@,
{
    let n = s.unicode_len();
    let mut r: Vec<char> = Vec::new();
    let mut i: usize = 0;
    while i < n
        invariant
            n == s@.len(),
            i <= n,
            r@ =~= s@.subrange(0, i as int),
        decreases n - i,
    {
        r.push(s.get_char(i));
        proof {
            assert(r@ =~= s@.subrange(0, i as int + 1));
        }
        i = i + 1;
    }
    proof {
        assert(r@ =~= s@);
    }
    r
}

/// The decimal digit characters of `n`, most significant first.
pub open spec fn dec_digits(n: nat) -> Seq<char>
    decreases n,
{
    let digit = digit_char((n % 10) as nat);
    if n < 10 {
        seq![digit]
    } else {
        dec_digits((n / 10) as nat).push(digit)
    }
}

/// The character for one decimal digit.
pub open spec fn digit_char(d: nat) -> char {
    "0123456789"@[d as int]
}

/// Numeric value of a decimal digit character, when it is one.
pub open spec fn digit_value(c: char) -> Option<nat> {
    if '0' <= c <= '9' {
        Some((c as nat - '0' as nat) as nat)
    } else {
        None
    }
}

/// The number denoted by a run of decimal digit characters, most significant
/// first (None when empty, on a non-digit, or past `u64` range).
pub open spec fn dec_value(s: Seq<char>) -> Option<u64>
    decreases s.len(),
{
    if s.len() == 0 {
        None
    } else {
        let d = digit_value(s.last());
        if d is None {
            None
        } else if s.len() == 1 {
            Some(d.unwrap() as u64)
        } else {
            match dec_value(s.drop_last()) {
                Option::None => None,
                Option::Some(hi) => if hi as nat * 10 + d.unwrap() <= u64::MAX as nat {
                    Some((hi * 10 + d.unwrap() as u64) as u64)
                } else {
                    None
                },
            }
        }
    }
}

proof fn lemma_digit_chars()
    ensures
        "0123456789"@.len() == 10,
        forall|d: nat| d < 10 ==> digit_value(#[trigger] digit_char(d)) == Some(d),
{
    reveal_strlit("0123456789");
    assert forall|d: nat| d < 10 implies digit_value(#[trigger] digit_char(d)) == Some(d) by {
        if d == 0 {
            assert(digit_char(0) == '0');
        } else if d == 1 {
            assert(digit_char(1) == '1');
        } else if d == 2 {
            assert(digit_char(2) == '2');
        } else if d == 3 {
            assert(digit_char(3) == '3');
        } else if d == 4 {
            assert(digit_char(4) == '4');
        } else if d == 5 {
            assert(digit_char(5) == '5');
        } else if d == 6 {
            assert(digit_char(6) == '6');
        } else if d == 7 {
            assert(digit_char(7) == '7');
        } else if d == 8 {
            assert(digit_char(8) == '8');
        } else {
            assert(digit_char(9) == '9');
        }
    }
}

/// Every character of a decimal rendering is a digit, and there is at least
/// one.
pub proof fn lemma_dec_digits_are_digits(n: nat)
    ensures
        dec_digits(n).len() >= 1,
        forall|j: int| 0 <= j < dec_digits(n).len() ==> '0' <= #[trigger] dec_digits(n)[j] <= '9',
    decreases n,
{
    lemma_digit_chars();
    assert('0' <= digit_char((n % 10) as nat) <= '9') by {
        assert(digit_value(digit_char((n % 10) as nat)) == Some((n % 10) as nat));
    }
    if n >= 10 {
        lemma_dec_digits_are_digits((n / 10) as nat);
    }
}

/// Rendering a number in decimal and reading the digits back yields the
/// number: the decimal rendering denotes its value.
pub proof fn lemma_dec_digits_value(n: nat)
    requires
        n <= u64::MAX,
    ensures
        dec_value(dec_digits(n)) == Some(n as u64),
    decreases n,
{
    lemma_digit_chars();
    let ds = dec_digits(n);
    assert(digit_value(digit_char((n % 10) as nat)) == Some((n % 10) as nat));
    if n < 10 {
        assert(ds =~= seq![digit_char((n % 10) as nat)]);
    } else {
        lemma_dec_digits_value((n / 10) as nat);
        lemma_dec_digits_are_digits((n / 10) as nat);
        assert(ds.last() == digit_char((n % 10) as nat));
        assert(ds.drop_last() =~= dec_digits((n / 10) as nat));
        assert((n / 10) as nat * 10 + (n % 10) as nat == n);
    }
}

/// Appends the decimal rendering of `n` to `out`.
pub fn append_dec(out: &mut String, n: u64)
    ensures
        final(out)@ == old(out)@ + dec_digits(n as nat),
    decreases n,
{
    let digits = "0123456789";
    proof {
        reveal_strlit("0123456789");
    }
    let d = (n % 10) as usize;
    if n >= 10 {
        append_dec(out, n / 10);
    }
    let piece = digits.substring_char(d, d + 1);
    out.append(piece);
    proof {
        assert(piece@ =~= seq![digit_char((n % 10) as nat)]);
        if n < 10 {
            assert(dec_digits(n as nat) =~= seq![digit_char((n % 10) as nat)]);
        } else {
            assert(dec_digits(n as nat) =~= dec_digits((n as nat / 10) as nat).push(
                digit_char((n % 10) as nat),
            ));
            assert(old(out)@ + dec_digits(n as nat) =~= (old(out)@ + dec_digits(
                (n as nat / 10) as nat,
            )) + piece@);
        }
    }
}

/// Parses a run of decimal digit characters, most significant first.
pub fn parse_dec(s: &Vec<char>, from: usize, to: usize) -> (r: Option<u64>)
    requires
        from <= to <= s@.len(),
    ensures
        r == dec_value(s@.subrange(from as int, to as int)),
{
    if from == to {
        assert(s@.subrange(from as int, to as int).len() == 0);
        return None;
    }
    let mut acc: u64 = 0;
    let mut i: usize = from;
    while i < to
        invariant
            from <= i <= to <= s@.len(),
            i > from ==> dec_value(s@.subrange(from as int, i as int)) == Some(acc),
            i == from ==> acc == 0,
        decreases to - i,
    {
        let c = s[i];
        let ghost pre_piece = s@.subrange(from as int, i as int);
        let ghost piece = s@.subrange(from as int, i as int + 1);
        proof {
            assert(piece.last() == c);
            assert(piece.drop_last() =~= pre_piece);
        }
        if c < '0' || c > '9' {
            proof {
                lemma_dec_value_bad_digit(s@.subrange(from as int, to as int), i as int - from);
            }
            return None;
        }
        let d = (c as u32 - '0' as u32) as u64;
        if acc > (u64::MAX - d) / 10 {
            proof {
                assert(dec_value(piece) is None) by {
                    assert(acc as nat * 10 + digit_value(c).unwrap() > u64::MAX as nat);
                }
                assert(s@.subrange(from as int, to as int).subrange(0, i as int + 1 - from)
                    =~= piece);
                lemma_dec_value_prefix_none(s@.subrange(from as int, to as int), i as int + 1 - from);
            }
            return None;
        }
        acc = acc * 10 + d;
        proof {
            if i == from {
                assert(piece.len() == 1);
                assert(dec_value(piece) == Some(acc));
            } else {
                assert(dec_value(piece) == Some(acc));
            }
        }
        i = i + 1;
    }
    Some(acc)
}

/// A non-digit anywhere makes the run denote nothing.
proof fn lemma_dec_value_bad_digit(s: Seq<char>, i: int)
    requires
        0 <= i < s.len(),
        digit_value(s[i]) is None,
    ensures
        dec_value(s) is None,
    decreases s.len(),
{
    if s.len() > 0 {
        if i == s.len() - 1 {
        } else {
            lemma_dec_value_bad_digit(s.drop_last(), i);
        }
    }
}

/// Once a prefix overflows or fails, the whole run denotes nothing.
proof fn lemma_dec_value_prefix_none(s: Seq<char>, k: int)
    requires
        0 < k <= s.len(),
        dec_value(s.subrange(0, k)) is None,
    ensures
        dec_value(s) is None,
    decreases s.len() - k,
{
    if k == s.len() {
        assert(s.subrange(0, k) =~= s);
    } else {
        assert(dec_value(s.subrange(0, k + 1)) is None) by {
            let t = s.subrange(0, k + 1);
            assert(t.drop_last() =~= s.subrange(0, k));
        }
        lemma_dec_value_prefix_none(s, k + 1);
    }
}

} // verus!

//! Decimal text: spec-level digit values, minimal decimal renderings, and
//! verified parsing and rendering of bounded decimal numbers.

use vstd::prelude::*;

verus! {

/// The decimal digit character for a value in `0 ..= 9`.
pub open spec fn digit(n: int) -> char {
    if n == 0 {
        '0'
    } else if n == 1 {
        '1'
    } else if n == 2 {
        '2'
    } else if n == 3 {
        '3'
    } else if n == 4 {
        '4'
    } else if n == 5 {
        '5'
    } else if n == 6 {
        '6'
    } else if n == 7 {
        '7'
    } else if n == 8 {
        '8'
    } else {
        '9'
    }
}

/// The value of a decimal digit character, `-1` for any other character.
pub open spec fn char_val(c: char) -> int {
    if c == '0' {
        0
    } else if c == '1' {
        1
    } else if c == '2' {
        2
    } else if c == '3' {
        3
    } else if c == '4' {
        4
    } else if c == '5' {
        5
    } else if c == '6' {
        6
    } else if c == '7' {
        7
    } else if c == '8' {
        8
    } else if c == '9' {
        9
    } else {
        -1
    }
}

pub open spec fn is_digit(c: char) -> bool {
    char_val(c) >= 0
}

pub open spec fn all_digits(s: Seq<char>) -> bool {
    forall|i: int| 0 <= i < s.len() ==> is_digit(#[trigger] s[i])
}

/// The number denoted by a string of decimal digits (most significant first).
pub open spec fn dec_val(s: Seq<char>) -> int
    decreases s.len(),
{
    if s.len() == 0 {
        0
    } else {
        10 * dec_val(s.drop_last()) + char_val(s.last())
    }
}

/// The minimal decimal rendering of a non-negative number: no leading zeros,
/// except that zero itself is rendered as "0".
pub open spec fn dec_rep(n: int) -> Seq<char>
    decreases n,
{
    if n < 10 {
        seq![digit(n)]
    } else {
        dec_rep(n / 10).push(digit(n % 10))
    }
}

pub proof fn lemma_digit_roundtrip(c: char)
    requires
        is_digit(c),
    ensures
        digit(char_val(c)) == c,
{
}

pub broadcast proof fn lemma_dec_rep_props(n: int)
    requires
        n >= 0,
    ensures
        #[trigger] dec_rep(n).len() >= 1,
        all_digits(dec_rep(n)),
        dec_val(dec_rep(n)) == n,
        n >= 10 ==> dec_rep(n)[0] != '0',
        n < 10 ==> dec_rep(n).len() == 1,
        10 <= n < 100 ==> dec_rep(n).len() == 2,
        100 <= n < 1000 ==> dec_rep(n).len() == 3,
    decreases n,
{
    if n < 10 {
        assert(dec_rep(n) =~= seq![digit(n)]);
        assert(seq![digit(n)].drop_last() =~= Seq::<char>::empty());
        assert(seq![digit(n)].last() == digit(n));
        assert(dec_val(seq![digit(n)]) == 10 * dec_val(Seq::<char>::empty()) + char_val(digit(n)));
    } else {
        lemma_dec_rep_props(n / 10);
        let prefix = dec_rep(n / 10);
        let whole = prefix.push(digit(n % 10));
        assert(whole.drop_last() =~= prefix);
        assert(whole.last() == digit(n % 10));
        assert(dec_val(whole) == 10 * (n / 10) + (n % 10));
        assert(whole[0] == prefix[0]);
        if n / 10 >= 10 {
            assert(prefix[0] != '0');
        } else {
            assert(prefix =~= seq![digit(n / 10)]);
            assert(n / 10 >= 1);
        }
        assert(all_digits(whole)) by {
            assert(forall|i: int| 0 <= i < whole.len() ==> is_digit(#[trigger] whole[i])) by {
                assert(forall|i: int|
                    0 <= i < prefix.len() ==> #[trigger] whole[i] == prefix[i]);
            }
        }
        if n < 100 {
            assert(10 <= n < 100 ==> n / 10 < 10);
        }
        if n < 1000 {
            assert(n / 10 < 100);
        }
    }
}

/// The concrete one-, two-, and three-digit forms of small renderings.
pub proof fn lemma_dec_rep_small(n: int)
    requires
        0 <= n < 1000,
    ensures
        n < 10 ==> dec_rep(n) =~= seq![digit(n)],
        10 <= n < 100 ==> dec_rep(n) =~= seq![digit(n / 10), digit(n % 10)],
        100 <= n ==> dec_rep(n) =~= seq![digit(n / 100), digit((n / 10) % 10), digit(n % 10)],
{
    if 10 <= n < 100 {
        assert(1 <= n / 10 < 10);
        assert(dec_rep(n / 10) =~= seq![digit(n / 10)]);
    } else if 100 <= n {
        let m = n / 10;
        assert(10 <= m < 100);
        assert(1 <= m / 10 < 10);
        assert(dec_rep(m / 10) =~= seq![digit(m / 10)]);
        assert(dec_rep(m) =~= seq![digit(m / 10), digit(m % 10)]);
        assert(m / 10 == n / 100) by (nonlinear_arith)
            requires
                m == n / 10,
                100 <= n < 1000,
        {
        }
    }
}

pub proof fn lemma_dec_val_nonneg(s: Seq<char>)
    requires
        all_digits(s),
    ensures
        dec_val(s) >= 0,
    decreases s.len(),
{
    if s.len() > 0 {
        assert(all_digits(s.drop_last())) by {
            assert(forall|i: int|
                0 <= i < s.len() - 1 ==> #[trigger] s.drop_last()[i] == s[i]);
        }
        lemma_dec_val_nonneg(s.drop_last());
        assert(is_digit(s.last()));
    }
}

/// Reading one more digit multiplies the prefix value by ten and adds it.
pub proof fn lemma_dec_val_extend(s: Seq<char>, i: int)
    requires
        0 <= i < s.len(),
    ensures
        dec_val(s.subrange(0, i + 1)) == 10 * dec_val(s.subrange(0, i)) + char_val(s[i]),
{
    let ext = s.subrange(0, i + 1);
    assert(ext.drop_last() =~= s.subrange(0, i));
    assert(ext.last() == s[i]);
}

/// A digit string is worth at least any of its prefixes.
pub proof fn lemma_dec_val_prefix_le(s: Seq<char>, k: int)
    requires
        all_digits(s),
        0 <= k <= s.len(),
    ensures
        dec_val(s.subrange(0, k)) <= dec_val(s),
    decreases s.len() - k,
{
    if k == s.len() {
        assert(s.subrange(0, k) =~= s);
    } else {
        lemma_dec_val_prefix_le(s, k + 1);
        lemma_dec_val_extend(s, k);
        lemma_dec_val_nonneg(s.subrange(0, k));
        assert(is_digit(s[k]));
    }
}

/// The digit character for a value in `0 ..= 9`, as a one-character string.
pub fn digit_to_str(d: u8) -> (r: &'static str)
    requires
        d <= 9,
    ensures
        r@ =~= seq![digit(d as int)],
{
    proof {
        reveal_strlit("0");
        reveal_strlit("1");
        reveal_strlit("2");
        reveal_strlit("3");
        reveal_strlit("4");
        reveal_strlit("5");
        reveal_strlit("6");
        reveal_strlit("7");
        reveal_strlit("8");
        reveal_strlit("9");
    }
    match d {
        0 => "0",
        1 => "1",
        2 => "2",
        3 => "3",
        4 => "4",
        5 => "5",
        6 => "6",
        7 => "7",
        8 => "8",
        _ => "9",
    }
}

/// The value of a decimal digit character, `None` for any other character.
pub fn digit_of(c: char) -> (r: Option<u8>)
    ensures
        (r is Some) == is_digit(c),
        r matches Some(d) ==> d == char_val(c) && d <= 9,
{
    match c {
        '0' => Some(0),
        '1' => Some(1),
        '2' => Some(2),
        '3' => Some(3),
        '4' => Some(4),
        '5' => Some(5),
        '6' => Some(6),
        '7' => Some(7),
        '8' => Some(8),
        '9' => Some(9),
        _ => None,
    }
}

/// Renders a number as minimal decimal text.
pub fn u32_to_string(n: u32) -> (r: String)
    ensures
        r@ == dec_rep(n as int),
    decreases n,
{
    if n < 10 {
        let mut s = String::new();
        s.append(digit_to_str(n as u8));
        proof {
            assert(s@ =~= seq![digit(n as int)]);
        }
        s
    } else {
        let mut s = u32_to_string(n / 10);
        s.append(digit_to_str((n % 10) as u8));
        proof {
            assert(s@ =~= dec_rep(n as int / 10).push(digit(n as int % 10)));
        }
        s
    }
}

/// Whether two strings hold the same characters.
pub fn str_eq(a: &str, b: &str) -> (r: bool)
    ensures
        r == (a@ == b@),
{
    let alen = a.unicode_len();
    if alen != b.unicode_len() {
        return false;
    }
    let mut i: usize = 0;
    while i < alen
        invariant
            i <= alen,
            alen == a@.len(),
            alen == b@.len(),
            forall|j: int| 0 <= j < i ==> a@[j] == b@[j],
        decreases alen - i,
    {
        if a.get_char(i) != b.get_char(i) {
            return false;
        }
        i += 1;
    }
    proof {
        assert(a@ =~= b@);
    }
    true
}

/// Parses minimal-or-zero-padded decimal text as a number of at most `max`.
/// Accepts exactly the non-empty all-digit strings whose value fits.
pub fn parse_decimal(s: &str, max: u64) -> (r: Option<u64>)
    requires
        max <= 0xFFFF_FFFF,
    ensures
        (r is Some) == (s@.len() >= 1 && all_digits(s@) && dec_val(s@) <= max),
        r matches Some(v) ==> v == dec_val(s@),
{
    let len = s.unicode_len();
    if len == 0 {
        return None;
    }
    let mut acc: u64 = 0;
    let mut i: usize = 0;
    while i < len
        invariant
            i <= len,
            len == s@.len(),
            max <= 0xFFFF_FFFF,
            all_digits(s@.subrange(0, i as int)),
            acc == dec_val(s@.subrange(0, i as int)),
            acc <= max,
        decreases len - i,
    {
        let c = s.get_char(i);
        let d = match digit_of(c) {
            Some(d) => d,
            None => {
                return None;
            },
        };
        proof {
            lemma_dec_val_extend(s@, i as int);
        }
        let next = acc * 10 + (d as u64);
        if next > max {
            proof {
                assert(all_digits(s@.subrange(0, i + 1))) by {
                    assert(forall|j: int|
                        0 <= j < i + 1 ==> s@.subrange(0, i + 1)[j] == s@[j]);
                    assert(forall|j: int|
                        0 <= j < i ==> s@.subrange(0, i as int)[j] == s@[j]);
                }
                if all_digits(s@) {
                    lemma_dec_val_prefix_le(s@, i + 1);
                }
            }
            return None;
        }
        acc = next;
        i += 1;
        proof {
            assert(all_digits(s@.subrange(0, i as int))) by {
                assert(forall|j: int|
                    0 <= j < i ==> s@.subrange(0, i as int)[j] == s@[j]);
                assert(forall|j: int|
                    0 <= j < i - 1 ==> s@.subrange(0, i - 1)[j] == s@[j]);
            }
        }
    }
    proof {
        assert(s@.subrange(0, len as int) =~= s@);
    }
    Some(acc)
}

/// Parses decimal text as a TCP port number.
pub fn parse_port(s: &str) -> (r: Option<u16>)
    ensures
        (r is Some) == (s@.len() >= 1 && all_digits(s@) && dec_val(s@) <= 0xFFFF),
        r matches Some(v) ==> v == dec_val(s@),
{
    match parse_decimal(s, 0xFFFF) {
        Some(v) => Some(v as u16),
        None => None,
    }
}

} // verus!

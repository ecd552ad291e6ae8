//! Small verified helpers for text: decimal rendering and parsing of
//! unsigned integers, string equality, and lowercasing of command names.

use vstd::prelude::*;

verus! {

/// The ten decimal digit characters, as a spec sequence.
pub open spec fn digit_chars() -> Seq<char> {
    seq!['0', '1', '2', '3', '4', '5', '6', '7', '8', '9']
}

/// Decimal rendering of a natural number, most significant digit first.
pub open spec fn dec_chars(n: nat) -> Seq<char>
    decreases n,
{
    if n < 10 {
        seq![digit_chars()[n as int]]
    } else {
        dec_chars(n / 10) + seq![digit_chars()[(n % 10) as int]]
    }
}

/// One decimal digit as a string slice.
fn digit_str(d: u64) -> (r: &'static str)
    requires
        d < 10,
    ensures
        r@ == seq![digit_chars()[d as int]],
{
    proof {
        reveal_strlit("0");
        reveal_strlit("1");
        reveal_strlit("2");
        reveal_strlit("3");
        reveal_strlit("4");
        reveal_strlit("5");
        reveal_strlit("6");
        reveal_strlit("7");
        reveal_strlit("8");
        reveal_strlit("9");
    }
    match d {
        0 => "0",
        1 => "1",
        2 => "2",
        3 => "3",
        4 => "4",
        5 => "5",
        6 => "6",
        7 => "7",
        8 => "8",
        _ => "9",
    }
}

/// Renders `n` in decimal, most significant digit first.
pub fn u64_to_dec_string(n: u64) -> (r: String)
    ensures
        r@ == dec_chars(n as nat),
    decreases n,
{
    if n < 10 {
        String::from_str(digit_str(n))
    } else {
        let mut s = u64_to_dec_string(n / 10);
        s.append(digit_str(n % 10));
        s
    }
}

/// True for an ASCII decimal digit.
pub open spec fn is_digit(c: char) -> bool {
    '0' <= c && c <= '9'
}

/// Numeric value of one decimal digit character.
pub open spec fn digit_val(c: char) -> nat {
    (c as nat - '0' as nat) as nat
}

/// Value of a digit string, most significant digit first.
pub open spec fn digits_val(s: Seq<char>) -> nat
    decreases s.len(),
{
    if s.len() == 0 {
        0
    } else {
        digits_val(s.drop_last()) * 10 + digit_val(s.last())
    }
}

/// The digits of a number, with an optional single leading `+`,
/// as accepted by the standard decimal parser for unsigned integers.
pub open spec fn strip_plus(s: Seq<char>) -> Seq<char> {
    if s.len() > 0 && s[0] == '+' {
        s.drop_first()
    } else {
        s
    }
}

/// When a character sequence parses as an unsigned decimal number that
/// fits in `usize`: non-empty digits after an optional leading `+`.
pub open spec fn is_usize_digits(s: Seq<char>) -> bool {
    let d = strip_plus(s);
    d.len() > 0 && (forall|i: int| 0 <= i < d.len() ==> is_digit(#[trigger] d[i]))
        && digits_val(d) <= usize::MAX
}

/// The parsed value of a character sequence accepted by `is_usize_digits`.
pub open spec fn usize_digits_val(s: Seq<char>) -> nat {
    digits_val(strip_plus(s))
}

/// A longer digit string never has a smaller value than its prefix.
proof fn lemma_digits_val_take_mono(d: Seq<char>, m: int)
    requires
        0 <= m <= d.len(),
    ensures
        digits_val(d) >= digits_val(d.take(m)),
    decreases d.len() - m,
{
    if m < d.len() {
        assert(d.take(m + 1).drop_last() =~= d.take(m));
        assert(digits_val(d.take(m + 1)) == digits_val(d.take(m)) * 10 + digit_val(d.take(m + 1).last()));
        lemma_digits_val_take_mono(d, m + 1);
    } else {
        assert(d.take(m) =~= d);
    }
}

/// Parses an unsigned decimal number, with the grammar of the standard
/// parser for unsigned integers: optional `+`, then one or more digits,
/// rejecting overflow.
pub fn parse_usize(s: &Vec<char>) -> (r: Option<usize>)
    ensures
        r is Some <==> is_usize_digits(s@),
        r matches Some(v) ==> v == usize_digits_val(s@),
{
    let start: usize = if s.len() > 0 && s[0] == '+' {
        1
    } else {
        0
    };
    let ghost d = strip_plus(s@);
    proof {
        assert(d =~= s@.subrange(start as int, s@.len() as int));
    }
    if s.len() == start {
        return None;
    }
    let mut i: usize = start;
    let mut acc: usize = 0;
    proof {
        assert(s@.subrange(start as int, start as int) =~= Seq::<char>::empty());
    }
    while i < s.len()
        invariant
            start <= i <= s.len(),
            s.len() > start,
            start <= 1,
            d == strip_plus(s@),
            d == s@.subrange(start as int, s@.len() as int),
            forall|j: int| start <= j < i ==> is_digit(#[trigger] s@[j]),
            acc == digits_val(s@.subrange(start as int, i as int)),
        decreases s.len() - i,
    {
        let ghost k = i - start;
        proof {
            assert(s@.subrange(start as int, i as int) =~= d.take(k));
            assert(s@.subrange(start as int, i as int + 1) =~= d.take(k + 1));
            assert(d.take(k + 1).drop_last() =~= d.take(k));
        }
        let c = s[i];
        if c < '0' || c > '9' {
            proof {
                assert(!is_digit(d[k]));
            }
            return None;
        }
        let dv: usize = ((c as u32) - 48) as usize;
        proof {
            assert(digits_val(d.take(k + 1)) == acc * 10 + digit_val(d[k]));
        }
        let acc10 = match acc.checked_mul(10) {
            Some(a) => a,
            None => {
                proof {
                    if is_usize_digits(s@) {
                        lemma_digits_val_take_mono(d, k + 1);
                    }
                }
                return None;
            },
        };
        let acc2 = match acc10.checked_add(dv) {
            Some(a) => a,
            None => {
                proof {
                    if is_usize_digits(s@) {
                        lemma_digits_val_take_mono(d, k + 1);
                    }
                }
                return None;
            },
        };
        acc = acc2;
        i = i + 1;
    }
    proof {
        assert(d =~= s@.subrange(start as int, i as int));
    }
    Some(acc)
}

/// The characters of a string slice, in order.
pub fn str_to_chars(s: &str) -> (r: Vec<char>)
    ensures
        r@ == s@,
{
    let n = s.unicode_len();
    let mut v: Vec<char> = Vec::new();
    let mut i: usize = 0;
    while i < n
        invariant
            i <= n,
            n == s@.len(),
            v@ == s@.take(i as int),
        decreases n - i,
    {
        v.push(s.get_char(i));
        proof {
            assert(s@.take(i + 1) =~= s@.take(i as int).push(s@[i as int]));
        }
        i = i + 1;
    }
    proof {
        assert(s@.take(n as int) =~= s@);
    }
    v
}

/// True exactly when the string slice and the string have equal contents.
pub fn str_eq_string(a: &String, b: &str) -> (r: bool)
    ensures
        r == (a@ == b@),
{
    let bs = String::from_str(b);
    a.eq(&bs)
}

/// Whether `c` occurs in `s`.
pub fn str_contains_char(s: &str, c: char) -> (r: bool)
    ensures
        r == s@.contains(c),
{
    let n = s.unicode_len();
    let mut i: usize = 0;
    while i < n
        invariant
            i <= n,
            n == s@.len(),
            forall|j: int| 0 <= j < i ==> s@[j] != c,
        decreases n - i,
    {
        if s.get_char(i) == c {
            return true;
        }
        i = i + 1;
    }
    false
}

/// Whether `needle` occurs contiguously somewhere in `hay`.
pub open spec fn contains_seq(hay: Seq<char>, needle: Seq<char>) -> bool {
    exists|i: int|
        0 <= i && i + needle.len() <= hay.len() && #[trigger] hay.subrange(i, i + needle.len())
            == needle
}

/// Whether one text occurs inside another.
pub fn str_contains_str(hay: &str, needle: &str) -> (r: bool)
    ensures
        r == contains_seq(hay@, needle@),
{
    let hn = hay.unicode_len();
    let nn = needle.unicode_len();
    if nn > hn {
        proof {
            assert(!contains_seq(hay@, needle@));
        }
        return false;
    }
    let mut i: usize = 0;
    while i <= hn - nn
        invariant
            nn <= hn,
            hn == hay@.len(),
            nn == needle@.len(),
            i <= hn - nn + 1,
            forall|x: int|
                0 <= x < i ==> #[trigger] hay@.subrange(x, x + needle@.len()) != needle@,
        decreases hn - nn + 1 - i,
    {
        let mut k: usize = 0;
        while k < nn && hay.get_char(i + k) == needle.get_char(k)
            invariant
                nn <= hn,
                hn == hay@.len(),
                nn == needle@.len(),
                i + nn <= hn,
                k <= nn,
                forall|y: int| 0 <= y < k ==> hay@[i + y] == needle@[y],
            decreases nn - k,
        {
            k = k + 1;
        }
        if k == nn {
            proof {
                assert(hay@.subrange(i as int, i + needle@.len()) =~= needle@);
            }
            return true;
        }
        proof {
            assert(hay@.subrange(i as int, i + needle@.len())[k as int] == hay@[i + k]);
            assert(hay@.subrange(i as int, i + needle@.len()) != needle@);
        }
        i = i + 1;
    }
    proof {
        if contains_seq(hay@, needle@) {
            let x = choose|x: int|
                0 <= x && x + needle@.len() <= hay@.len() && #[trigger] hay@.subrange(
                    x,
                    x + needle@.len(),
                ) == needle@;
            assert(hay@.subrange(x, x + needle@.len()) == needle@);
        }
    }
    false
}

/// What the standard library's lowercase conversion returns for a given
/// character sequence; a function of the characters alone.
pub uninterp spec fn lower_of(s: Seq<char>) -> Seq<char>;

/// Relies on str::to_lowercase: the lowercase conversion of the string,
/// a pure function of its characters.
#[verifier::external_body]
pub fn to_lowercase_string(s: &str) -> (r: String)
    ensures
        r@ == lower_of(s@),
{
    s.to_lowercase()
}

} // verus!

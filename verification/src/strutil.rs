//! Character-level helpers: string equality, whitespace trimming, reading a
//! span attribute value as a number, and printing a number as decimal digits.
use vstd::prelude::*;
use vstd::string::StrSliceExecFns;
use vstd::string::StringExecFns;

verus! {

/// A character that trimming removes: the Unicode `White_Space` set.
pub open spec fn is_ws_char(c: char) -> bool {
    ||| c == '\t'
    ||| c == '\n'
    ||| c == '\u{0B}'
    ||| c == '\u{0C}'
    ||| c == '\r'
    ||| c == ' '
    ||| c == '\u{85}'
    ||| c == '\u{A0}'
    ||| c == '\u{1680}'
    ||| ('\u{2000}' <= c && c <= '\u{200A}')
    ||| c == '\u{2028}'
    ||| c == '\u{2029}'
    ||| c == '\u{202F}'
    ||| c == '\u{205F}'
    ||| c == '\u{3000}'
}

pub fn is_ws(c: char) -> (r: bool)
    ensures
        r == is_ws_char(c),
{
    c == '\t' || c == '\n' || c == '\u{0B}' || c == '\u{0C}' || c == '\r' || c == ' '
        || c == '\u{85}' || c == '\u{A0}' || c == '\u{1680}'
        || ('\u{2000}' <= c && c <= '\u{200A}') || c == '\u{2028}' || c == '\u{2029}'
        || c == '\u{202F}' || c == '\u{205F}' || c == '\u{3000}'
}

/// The first position at or after `i` that holds a non-whitespace character
/// (or the length, when there is none).
pub open spec fn ws_start(s: Seq<char>, i: int) -> int
    decreases s.len() - i
        when 0 <= i <= s.len()
{
    if i >= s.len() {
        i
    } else if is_ws_char(s[i]) {
        ws_start(s, i + 1)
    } else {
        i
    }
}

/// The position one past the last non-whitespace character strictly before
/// `j` (or 0, when there is none).
pub open spec fn ws_end(s: Seq<char>, j: int) -> int
    decreases j
        when 0 <= j <= s.len()
{
    if j <= 0 {
        0
    } else if is_ws_char(s[j - 1]) {
        ws_end(s, j - 1)
    } else {
        j
    }
}

/// `s` with leading and trailing whitespace removed.
pub open spec fn trimmed(s: Seq<char>) -> Seq<char> {
    let a = ws_start(s, 0);
    let b = ws_end(s, s.len() as int);
    if a < b {
        s.subrange(a, b)
    } else {
        Seq::empty()
    }
}

pub fn trim_str(s: &str) -> (r: String)
    ensures
        r@ == trimmed(s@),
{
    let n = s.unicode_len();
    let mut a: usize = 0;
    loop
        invariant
            0 <= a <= n,
            n == s@.len(),
            ws_start(s@, 0) == ws_start(s@, a as int),
        ensures
            a as int == ws_start(s@, 0),
        decreases n - a,
    {
        if a >= n {
            break;
        }
        if !is_ws(s.get_char(a)) {
            break;
        }
        a = a + 1;
    }
    let mut b: usize = n;
    loop
        invariant
            0 <= b <= n,
            n == s@.len(),
            ws_end(s@, n as int) == ws_end(s@, b as int),
        ensures
            b as int == ws_end(s@, s@.len() as int),
        decreases b,
    {
        if b == 0 {
            break;
        }
        if !is_ws(s.get_char(b - 1)) {
            break;
        }
        b = b - 1;
    }
    if a < b {
        let part = s.substring_char(a, b);
        String::from_str(part)
    } else {
        String::new()
    }
}

/// Character-by-character string equality.
pub fn str_eq(a: &str, b: &str) -> (r: bool)
    ensures
        r == (a@ == b@),
{
    let an = a.unicode_len();
    let bn = b.unicode_len();
    if an != bn {
        return false;
    }
    let mut i: usize = 0;
    loop
        invariant
            0 <= i <= an,
            an == a@.len(),
            an == b@.len(),
            forall|k: int| 0 <= k < i ==> a@[k] == b@[k],
        ensures
            a@ == b@,
        decreases an - i,
    {
        if i >= an {
            proof {
                assert(a@ =~= b@);
            }
            break;
        }
        if a.get_char(i) != b.get_char(i) {
            return false;
        }
        i = i + 1;
    }
    true
}

pub open spec fn is_digit_char(c: char) -> bool {
    '0' <= c && c <= '9'
}

pub open spec fn digit_val(c: char) -> int {
    c as int - '0' as int
}

/// The number written by a big-endian sequence of decimal digits.
pub open spec fn digits_val(s: Seq<char>) -> int
    decreases s.len(),
{
    if s.len() == 0 {
        0
    } else {
        digits_val(s.drop_last()) * 10 + digit_val(s.last())
    }
}

/// The digit part of a span attribute value: an optional leading `+` sign
/// is accepted, as `usize::from_str` accepts it.
pub open spec fn span_digits(s: Seq<char>) -> Seq<char> {
    if s.len() > 0 && s[0] == '+' {
        s.drop_first()
    } else {
        s
    }
}

/// Whether `s` is a decimal numeral that fits in `usize`.
pub open spec fn parses_as_usize(s: Seq<char>) -> bool {
    let d = span_digits(s);
    &&& d.len() > 0
    &&& forall|i: int| 0 <= i < d.len() ==> is_digit_char(#[trigger] d[i])
    &&& digits_val(d) <= usize::MAX as int
}

/// The span a cell declares with attribute value `s`: the written number when
/// `s` reads as a positive integer, and 1 otherwise.
pub open spec fn span_value(s: Seq<char>) -> int {
    if parses_as_usize(s) && digits_val(span_digits(s)) >= 1 {
        digits_val(span_digits(s))
    } else {
        1
    }
}

proof fn lemma_digits_val_nonneg(s: Seq<char>)
    requires
        forall|i: int| 0 <= i < s.len() ==> is_digit_char(#[trigger] s[i]),
    ensures
        digits_val(s) >= 0,
    decreases s.len(),
{
    if s.len() > 0 {
        lemma_digits_val_nonneg(s.drop_last());
    }
}

pub fn parse_span(s: &str) -> (n: usize)
    ensures
        n as int == span_value(s@),
{
    let len = s.unicode_len();
    let start: usize = if len > 0 && s.get_char(0) == '+' {
        1
    } else {
        0
    };
    let ghost d = span_digits(s@);
    proof {
        assert(d =~= s@.subrange(start as int, len as int));
    }
    if start >= len {
        return 1;
    }
    let limit: u128 = usize::MAX as u128;
    let mut acc: u128 = 0;
    let mut i: usize = start;
    loop
        invariant
            start <= i <= len,
            len == s@.len(),
            start < len,
            limit == usize::MAX as u128,
            d == span_digits(s@),
            d == s@.subrange(start as int, len as int),
            forall|k: int| 0 <= k < i - start ==> is_digit_char(#[trigger] d[k]),
            if digits_val(d.take(i - start)) <= limit as int {
                acc as int == digits_val(d.take(i - start))
            } else {
                acc == limit + 1
            },
            acc <= limit + 1,
        ensures
            i == len,
            forall|k: int| 0 <= k < d.len() ==> is_digit_char(#[trigger] d[k]),
            if digits_val(d) <= limit as int {
                acc as int == digits_val(d)
            } else {
                acc == limit + 1
            },
        decreases len - i,
    {
        if i >= len {
            proof {
                assert(d.take(i - start) =~= d);
            }
            break;
        }
        let c = s.get_char(i);
        if c < '0' || c > '9' {
            proof {
                assert(d[i - start] == c);
                assert(!is_digit_char(d[i - start]));
                assert(span_value(s@) == 1) by {
                    if parses_as_usize(s@) {
                        assert(is_digit_char(span_digits(s@)[i - start]));
                    }
                }
            }
            return 1;
        }
        let dv: u128 = (c as u32 - '0' as u32) as u128;
        proof {
            let j = i - start;
            assert(d.take(j + 1).drop_last() =~= d.take(j));
            assert(d.take(j + 1).last() == d[j]);
            assert(digits_val(d.take(j + 1)) == digits_val(d.take(j)) * 10 + digit_val(d[j]));
            lemma_digits_val_nonneg(d.take(j));
        }
        if acc > limit {
            acc = limit + 1;
        } else {
            let t: u128 = acc * 10 + dv;
            if t > limit {
                acc = limit + 1;
            } else {
                acc = t;
            }
        }
        i = i + 1;
    }
    if acc == 0 || acc > limit {
        proof {
            lemma_digits_val_nonneg(d);
        }
        return 1;
    }
    proof {
        assert(parses_as_usize(s@));
    }
    acc as usize
}

/// The decimal digits of `n`, most significant first.
pub open spec fn dec_str(n: nat) -> Seq<char>
    decreases n,
{
    if n < 10 {
        seq![digit_char(n as int)]
    } else {
        dec_str(n / 10).push(digit_char((n % 10) as int))
    }
}

pub open spec fn digit_char(d: int) -> char {
    if d == 0 {
        '0'
    } else if d == 1 {
        '1'
    } else if d == 2 {
        '2'
    } else if d == 3 {
        '3'
    } else if d == 4 {
        '4'
    } else if d == 5 {
        '5'
    } else if d == 6 {
        '6'
    } else if d == 7 {
        '7'
    } else if d == 8 {
        '8'
    } else {
        '9'
    }
}

fn digit_str(d: usize) -> (r: &'static str)
    requires
        d < 10,
    ensures
        r@ == seq![digit_char(d as int)],
{
    proof {
        reveal_strlit("0");
        reveal_strlit("1");
        reveal_strlit("2");
        reveal_strlit("3");
        reveal_strlit("4");
        reveal_strlit("5");
        reveal_strlit("6");
        reveal_strlit("7");
        reveal_strlit("8");
        reveal_strlit("9");
        assert("0"@ =~= seq!['0']);
        assert("1"@ =~= seq!['1']);
        assert("2"@ =~= seq!['2']);
        assert("3"@ =~= seq!['3']);
        assert("4"@ =~= seq!['4']);
        assert("5"@ =~= seq!['5']);
        assert("6"@ =~= seq!['6']);
        assert("7"@ =~= seq!['7']);
        assert("8"@ =~= seq!['8']);
        assert("9"@ =~= seq!['9']);
    }
    if d == 0 {
        "0"
    } else if d == 1 {
        "1"
    } else if d == 2 {
        "2"
    } else if d == 3 {
        "3"
    } else if d == 4 {
        "4"
    } else if d == 5 {
        "5"
    } else if d == 6 {
        "6"
    } else if d == 7 {
        "7"
    } else if d == 8 {
        "8"
    } else {
        "9"
    }
}

pub fn usize_to_string(n: usize) -> (r: String)
    ensures
        r@ == dec_str(n as nat),
    decreases n,
{
    if n < 10 {
        String::from_str(digit_str(n))
    } else {
        let mut r = usize_to_string(n / 10);
        r.append(digit_str(n % 10));
        proof {
            assert(r@ == dec_str((n / 10) as nat).push(digit_char((n % 10) as int)));
        }
        r
    }
}

} // verus!

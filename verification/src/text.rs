//! Small verified text utilities shared by the other modules: string
//! equality against literals, decimal parsing and decimal / zero-padded
//! rendering of counters.

use vstd::prelude::*;

verus! {

/// The views of a vector of strings, for contracts.
pub open spec fn str_views(xs: Seq<String>) -> Seq<Seq<char>> {
    xs.map_values(|x: String| x@)
}

/// True when the string equals the given slice, character for character.
pub fn str_is(s: &String, lit: &str) -> (r: bool)
    ensures
        r == (s@ == lit@),
{
    let o: String = lit.to_owned();
    *s == o
}

/// True when the two string slices are equal.
pub fn str_eq(a: &str, b: &str) -> (r: bool)
    ensures
        r == (a@ == b@),
{
    let x: String = a.to_owned();
    let y: String = b.to_owned();
    x == y
}

/// True when the two optional strings hold the same value.
pub fn opt_str_eq(a: &Option<String>, b: &Option<String>) -> (r: bool)
    ensures
        r == (match (a, b) {
            (Some(x), Some(y)) => x@ == y@,
            (None, None) => true,
            _ => false,
        }),
{
    match (a, b) {
        (Some(x), Some(y)) => *x == *y,
        (None, None) => true,
        _ => false,
    }
}

/// Numeric value of a decimal digit character, or none.
pub open spec fn digit_val(c: char) -> Option<int> {
    if '0' <= c && c <= '9' {
        Some(c as int - '0' as int)
    } else {
        None
    }
}

/// All characters of the sequence are decimal digits.
pub open spec fn all_digits(s: Seq<char>) -> bool {
    forall|i: int| 0 <= i < s.len() ==> digit_val(#[trigger] s[i]) is Some
}

/// Value of a sequence of decimal digit characters, most significant first.
pub open spec fn dec_val(s: Seq<char>) -> int
    decreases s.len(),
{
    if s.len() == 0 {
        0
    } else {
        dec_val(s.drop_last()) * 10 + match digit_val(s.last()) {
            Some(d) => d,
            None => 0,
        }
    }
}

/// What a lenient decimal parse yields: the numeric value for a non-empty
/// all-digit string that fits in a `u64`, and zero for anything else.
pub open spec fn lenient_u64(s: Seq<char>) -> int {
    if s.len() > 0 && all_digits(s) && dec_val(s) <= u64::MAX {
        dec_val(s)
    } else {
        0
    }
}

proof fn lemma_dec_val_bounds(s: Seq<char>)
    requires
        all_digits(s),
    ensures
        0 <= dec_val(s),
    decreases s.len(),
{
    if s.len() > 0 {
        assert(all_digits(s.drop_last())) by {
            assert(forall|i: int|
                0 <= i < s.len() - 1 ==> digit_val(#[trigger] s.drop_last()[i]) == digit_val(
                    s[i],
                ));
        }
        lemma_dec_val_bounds(s.drop_last());
    }
}

/// Parse a decimal counter the way the telemetry path does: any string
/// that is not a plain base-ten number within range counts as zero.
pub fn parse_u64_dec(s: &String) -> (r: u64)
    ensures
        r == lenient_u64(s@),
{
    let n = s.as_str().unicode_len();
    if n == 0 {
        return 0;
    }
    let mut acc: u64 = 0;
    let mut i: usize = 0;
    while i < n
        invariant
            0 <= i <= n,
            n == s@.len(),
            all_digits(s@.take(i as int)),
            acc == dec_val(s@.take(i as int)),
            dec_val(s@.take(i as int)) <= u64::MAX,
        decreases n - i,
    {
        let c = s.as_str().get_char(i);
        if c < '0' || c > '9' {
            assert(digit_val(s@[i as int]) is None);
            return 0;
        }
        let d: u32 = c as u32 - '0' as u32;
        proof {
            lemma_dec_val_bounds(s@.take(i as int));
            assert(s@.take(i + 1 as int).drop_last() =~= s@.take(i as int));
        }
        if acc > (u64::MAX - d as u64) / 10 {
            // the value no longer fits: a lenient parse yields zero
            assert(dec_val(s@.take(i + 1 as int)) > u64::MAX);
            proof {
                lemma_prefix_overflow_stays(s@, i + 1 as int);
            }
            return 0;
        }
        acc = acc * 10 + d as u64;
        i = i + 1;
        assert(acc == dec_val(s@.take(i as int)));
    }
    assert(s@.take(n as int) =~= s@);
    acc
}

proof fn lemma_prefix_overflow_stays(s: Seq<char>, k: int)
    requires
        0 < k <= s.len(),
        dec_val(s.take(k)) > u64::MAX,
        all_digits(s.take(k)),
    ensures
        !(all_digits(s) && dec_val(s) <= u64::MAX),
    decreases s.len() - k,
{
    if k == s.len() {
        assert(s.take(k) =~= s);
    } else {
        if all_digits(s) {
            assert(s.take(k + 1).drop_last() =~= s.take(k));
            assert(digit_val(s.take(k + 1).last()) == digit_val(s[k]));
            lemma_dec_val_bounds(s.take(k));
            assert(dec_val(s.take(k + 1)) >= dec_val(s.take(k)) * 10);
            assert(all_digits(s.take(k + 1))) by {
                assert(forall|i: int|
                    0 <= i < k + 1 ==> digit_val(#[trigger] s.take(k + 1)[i]) == digit_val(s[i]));
            }
            lemma_prefix_overflow_stays(s, k + 1);
        }
    }
}

/// Decimal rendering of a number, most significant digit first.
pub open spec fn dec_str(n: int) -> Seq<char>
    decreases n,
{
    if n <= 0 {
        seq!['0']
    } else {
        dec_str_pos(n)
    }
}

/// Decimal rendering of a positive number.
pub open spec fn dec_str_pos(n: int) -> Seq<char>
    decreases n,
{
    if n <= 0 {
        Seq::empty()
    } else {
        dec_str_pos(n / 10).push(digit_char(n % 10))
    }
}

/// The character for one decimal digit.
pub open spec fn digit_char(d: int) -> char {
    if d == 0 {
        '0'
    } else if d == 1 {
        '1'
    } else if d == 2 {
        '2'
    } else if d == 3 {
        '3'
    } else if d == 4 {
        '4'
    } else if d == 5 {
        '5'
    } else if d == 6 {
        '6'
    } else if d == 7 {
        '7'
    } else if d == 8 {
        '8'
    } else {
        '9'
    }
}

/// One-character string for a decimal digit.
fn digit_str(d: u64) -> (r: &'static str)
    requires
        d < 10,
    ensures
        r@ == seq![digit_char(d as int)],
{
    proof {
        reveal_strlit("0");
        reveal_strlit("1");
        reveal_strlit("2");
        reveal_strlit("3");
        reveal_strlit("4");
        reveal_strlit("5");
        reveal_strlit("6");
        reveal_strlit("7");
        reveal_strlit("8");
        reveal_strlit("9");
    }
    if d == 0 {
        "0"
    } else if d == 1 {
        "1"
    } else if d == 2 {
        "2"
    } else if d == 3 {
        "3"
    } else if d == 4 {
        "4"
    } else if d == 5 {
        "5"
    } else if d == 6 {
        "6"
    } else if d == 7 {
        "7"
    } else if d == 8 {
        "8"
    } else {
        "9"
    }
}

/// Render a counter in decimal.
pub fn u64_to_string(n: u64) -> (r: String)
    ensures
        r@ == dec_str(n as int),
{
    if n == 0 {
        let mut out = String::new();
        out.append(digit_str(0));
        out
    } else {
        u64_to_string_pos(n)
    }
}

/// Render a positive counter in decimal, most significant digit first.
fn u64_to_string_pos(n: u64) -> (r: String)
    requires
        n > 0,
    ensures
        r@ == dec_str_pos(n as int),
    decreases n,
{
    let d = n % 10;
    let q = n / 10;
    let mut out = if q > 0 {
        u64_to_string_pos(q)
    } else {
        String::new()
    };
    out.append(digit_str(d));
    proof {
        assert(dec_str_pos(0int) =~= Seq::<char>::empty());
        assert(dec_str_pos(n as int) == dec_str_pos(n as int / 10).push(digit_char(n as int % 10)));
        assert(out@ =~= dec_str_pos(n as int));
    }
    out
}

/// Rendering with a leading zero for values under ten, as clock fields use.
pub open spec fn two_digit_str(n: int) -> Seq<char> {
    if 0 <= n < 10 {
        seq!['0'] + dec_str(n)
    } else {
        dec_str(n)
    }
}

/// Render one clock field, zero-padded to two characters.
pub fn u64_to_two_digits(n: u64) -> (r: String)
    ensures
        r@ == two_digit_str(n as int),
{
    if n < 10 {
        let mut out = String::new();
        out.append(digit_str(0));
        let rest = u64_to_string(n);
        out.append(rest.as_str());
        out
    } else {
        u64_to_string(n)
    }
}


/// The two characters are equal, ASCII case aside.
pub open spec fn char_eq_ic(a: char, b: char) -> bool {
    a == b || ('A' <= a && a <= 'Z' && b as int == a as int + 32) || ('A' <= b && b <= 'Z'
        && a as int == b as int + 32)
}

/// The two strings are equal, ASCII case aside.
pub open spec fn str_eq_ic(a: Seq<char>, b: Seq<char>) -> bool {
    a.len() == b.len() && forall|i: int| 0 <= i < a.len() ==> char_eq_ic(#[trigger] a[i], b[i])
}

/// Compare two strings, ASCII case aside.
pub fn str_eq_ic_exec(a: &str, b: &str) -> (r: bool)
    ensures
        r == str_eq_ic(a@, b@),
{
    let na = a.unicode_len();
    let nb = b.unicode_len();
    if na != nb {
        return false;
    }
    let mut i: usize = 0;
    while i < na
        invariant
            0 <= i <= na,
            na == a@.len(),
            na == b@.len(),
            forall|j: int| 0 <= j < i ==> char_eq_ic(#[trigger] a@[j], b@[j]),
        decreases na - i,
    {
        let ca = a.get_char(i);
        let cb = b.get_char(i);
        let iguais = if ca == cb {
            true
        } else if 'A' <= ca && ca <= 'Z' && cb as u32 == ca as u32 + 32 {
            true
        } else if 'A' <= cb && cb <= 'Z' && ca as u32 == cb as u32 + 32 {
            true
        } else {
            false
        };
        if !iguais {
            assert(!char_eq_ic(a@[i as int], b@[i as int]));
            return false;
        }
        i = i + 1;
    }
    true
}

} // verus!

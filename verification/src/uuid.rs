//! The textual form of client identifiers: sixteen bytes rendered as
//! lowercase hex in five dash-separated groups, and the parse back.
//! The store and the presence keys hold identifiers in this form.

use vstd::prelude::*;

verus! {

/// The lowercase hex character of a nibble.
pub open spec fn hex_char(n: int) -> char {
    if n == 0 {
        '0'
    } else if n == 1 {
        '1'
    } else if n == 2 {
        '2'
    } else if n == 3 {
        '3'
    } else if n == 4 {
        '4'
    } else if n == 5 {
        '5'
    } else if n == 6 {
        '6'
    } else if n == 7 {
        '7'
    } else if n == 8 {
        '8'
    } else if n == 9 {
        '9'
    } else if n == 10 {
        'a'
    } else if n == 11 {
        'b'
    } else if n == 12 {
        'c'
    } else if n == 13 {
        'd'
    } else if n == 14 {
        'e'
    } else {
        'f'
    }
}

/// Two hex characters of a byte, high nibble first.
pub open spec fn byte_hex(b: u8) -> Seq<char> {
    seq![hex_char(b as int / 16), hex_char(b as int % 16)]
}

/// The hex rendering of a byte string.
pub open spec fn hex_of(bs: Seq<u8>) -> Seq<char>
    decreases bs.len(),
{
    if bs.len() == 0 {
        Seq::empty()
    } else {
        hex_of(bs.drop_last()) + byte_hex(bs.last())
    }
}

/// The canonical dashed form of a sixteen-byte identifier.
pub open spec fn uuid_str_of(bs: Seq<u8>) -> Seq<char>
    recommends
        bs.len() == 16,
{
    hex_of(bs.subrange(0, 4)) + seq!['-'] + hex_of(bs.subrange(4, 6)) + seq!['-'] + hex_of(
        bs.subrange(6, 8),
    ) + seq!['-'] + hex_of(bs.subrange(8, 10)) + seq!['-'] + hex_of(bs.subrange(10, 16))
}

/// One-character string for a nibble.
fn hex_str(d: u8) -> (r: &'static str)
    requires
        d < 16,
    ensures
        r@ == seq![hex_char(d as int)],
{
    proof {
        reveal_strlit("0");
        reveal_strlit("1");
        reveal_strlit("2");
        reveal_strlit("3");
        reveal_strlit("4");
        reveal_strlit("5");
        reveal_strlit("6");
        reveal_strlit("7");
        reveal_strlit("8");
        reveal_strlit("9");
        reveal_strlit("a");
        reveal_strlit("b");
        reveal_strlit("c");
        reveal_strlit("d");
        reveal_strlit("e");
        reveal_strlit("f");
    }
    if d == 0 {
        "0"
    } else if d == 1 {
        "1"
    } else if d == 2 {
        "2"
    } else if d == 3 {
        "3"
    } else if d == 4 {
        "4"
    } else if d == 5 {
        "5"
    } else if d == 6 {
        "6"
    } else if d == 7 {
        "7"
    } else if d == 8 {
        "8"
    } else if d == 9 {
        "9"
    } else if d == 10 {
        "a"
    } else if d == 11 {
        "b"
    } else if d == 12 {
        "c"
    } else if d == 13 {
        "d"
    } else if d == 14 {
        "e"
    } else {
        "f"
    }
}

/// Append the hex rendering of one byte range.
fn append_hex_segment(out: &mut String, bytes: &Vec<u8>, from: usize, to: usize)
    requires
        from <= to <= bytes@.len(),
    ensures
        final(out)@ == old(out)@ + hex_of(bytes@.subrange(from as int, to as int)),
{
    let ghost base = out@;
    let mut i: usize = from;
    proof {
        assert(bytes@.subrange(from as int, from as int) =~= Seq::<u8>::empty());
        assert(out@ =~= base + hex_of(bytes@.subrange(from as int, from as int)));
    }
    while i < to
        invariant
            from <= i <= to <= bytes@.len(),
            out@ == base + hex_of(bytes@.subrange(from as int, i as int)),
        decreases to - i,
    {
        let b = bytes[i];
        out.append(hex_str(b / 16));
        out.append(hex_str(b % 16));
        proof {
            assert(bytes@.subrange(from as int, i + 1).drop_last() =~= bytes@.subrange(
                from as int,
                i as int,
            ));
            assert(bytes@.subrange(from as int, i + 1).last() == bytes@[i as int]);
            assert(out@ =~= base + hex_of(bytes@.subrange(from as int, i + 1)));
        }
        i = i + 1;
    }
}

/// Render a sixteen-byte identifier in its canonical dashed form.
pub fn format_uuid(bytes: &Vec<u8>) -> (r: String)
    requires
        bytes@.len() == 16,
    ensures
        r@ == uuid_str_of(bytes@),
{
    proof {
        reveal_strlit("-");
    }
    let mut out = String::new();
    append_hex_segment(&mut out, bytes, 0, 4);
    out.append("-");
    append_hex_segment(&mut out, bytes, 4, 6);
    out.append("-");
    append_hex_segment(&mut out, bytes, 6, 8);
    out.append("-");
    append_hex_segment(&mut out, bytes, 8, 10);
    out.append("-");
    append_hex_segment(&mut out, bytes, 10, 16);
    proof {
        assert(out@ =~= uuid_str_of(bytes@));
    }
    out
}

/// Numeric value of a hex character, either case, or none.
pub open spec fn hex_val(c: char) -> Option<int> {
    if '0' <= c && c <= '9' {
        Some(c as int - '0' as int)
    } else if 'a' <= c && c <= 'f' {
        Some(c as int - 'a' as int + 10)
    } else if 'A' <= c && c <= 'F' {
        Some(c as int - 'A' as int + 10)
    } else {
        None
    }
}

/// The character index of the k-th hex digit of a dashed identifier:
/// the dashes at positions 8, 13, 18 and 23 are skipped.
pub open spec fn nib_pos(k: int) -> int {
    k + (if k >= 8 {
        1int
    } else {
        0int
    }) + (if k >= 12 {
        1int
    } else {
        0int
    }) + (if k >= 16 {
        1int
    } else {
        0int
    }) + (if k >= 20 {
        1int
    } else {
        0int
    })
}

/// The character index of the k-th hex digit for either accepted
/// length: the dashed form skips its dashes, the simple form is plain.
pub open spec fn nib_pos_em(len: int, k: int) -> int {
    if len == 36 {
        nib_pos(k)
    } else {
        k
    }
}

/// A well-formed identifier text, in either form the clients send:
/// the dashed one (36 characters, dashes exactly at positions 8, 13,
/// 18 and 23) or the simple one (32 plain hex digits), hex of either
/// case throughout.
pub open spec fn is_uuid_text(s: Seq<char>) -> bool {
    ||| {
        &&& s.len() == 36
        &&& s[8] == '-' && s[13] == '-' && s[18] == '-' && s[23] == '-'
        &&& forall|k: int| 0 <= k < 32 ==> hex_val(s[#[trigger] nib_pos(k)]) is Some
    }
    ||| {
        &&& s.len() == 32
        &&& forall|k: int| 0 <= k < 32 ==> hex_val(#[trigger] s[k]) is Some
    }
}

/// The byte the k-th hex digit pair of an identifier text encodes.
pub open spec fn uuid_byte_of(s: Seq<char>, k: int) -> int {
    (match hex_val(s[nib_pos_em(s.len() as int, 2 * k)]) {
        Some(h) => h,
        None => 0,
    }) * 16 + (match hex_val(s[nib_pos_em(s.len() as int, 2 * k + 1)]) {
        Some(l) => l,
        None => 0,
    })
}

/// Numeric value of a hex character.
fn hex_digit(c: char) -> (r: Option<u8>)
    ensures
        match r {
            Some(v) => hex_val(c) == Some(v as int) && v < 16,
            None => hex_val(c) is None,
        },
{
    if '0' <= c && c <= '9' {
        Some((c as u32 - '0' as u32) as u8)
    } else if 'a' <= c && c <= 'f' {
        Some((c as u32 - 'a' as u32 + 10) as u8)
    } else if 'A' <= c && c <= 'F' {
        Some((c as u32 - 'A' as u32 + 10) as u8)
    } else {
        None
    }
}

/// Parse an identifier text into its sixteen bytes: the dashed and
/// the simple form, hex of either case; anything else is refused.
pub fn parse_uuid_text(s: &str) -> (r: Option<Vec<u8>>)
    ensures
        match r {
            Some(v) => is_uuid_text(s@) && v@.len() == 16 && forall|k: int|
                0 <= k < 16 ==> #[trigger] v@[k] as int == uuid_byte_of(s@, k),
            None => !is_uuid_text(s@),
        },
{
    let n = s.unicode_len();
    if n != 36 && n != 32 {
        return None;
    }
    if n == 36 && !(s.get_char(8) == '-' && s.get_char(13) == '-' && s.get_char(18) == '-'
        && s.get_char(23) == '-') {
        return None;
    }
    let mut out: Vec<u8> = Vec::new();
    let mut k: usize = 0;
    while k < 16
        invariant
            0 <= k <= 16,
            n == s@.len(),
            n == 36 || n == 32,
            out@.len() == k,
            forall|m: int|
                0 <= m < 2 * k ==> hex_val(s@[#[trigger] nib_pos_em(n as int, m)]) is Some,
            forall|m: int| 0 <= m < k ==> #[trigger] out@[m] as int == uuid_byte_of(s@, m),
        decreases 16 - k,
    {
        let hi_pos = digit_position(n, 2 * k);
        let lo_pos = digit_position(n, 2 * k + 1);
        let hi = match hex_digit(s.get_char(hi_pos)) {
            Some(v) => v,
            None => {
                return None;
            },
        };
        let lo = match hex_digit(s.get_char(lo_pos)) {
            Some(v) => v,
            None => {
                return None;
            },
        };
        out.push(hi * 16 + lo);
        k = k + 1;
    }
    proof {
        if n == 36 {
            assert forall|m: int| 0 <= m < 32 implies hex_val(s@[#[trigger] nib_pos(m)])
                is Some by {
                assert(hex_val(s@[nib_pos_em(36int, m)]) is Some);
            }
        } else {
            assert forall|m: int| 0 <= m < 32 implies hex_val(#[trigger] s@[m]) is Some by {
                assert(hex_val(s@[nib_pos_em(32int, m)]) is Some);
            }
        }
    }
    Some(out)
}

/// The character position of the k-th hex digit, for either length.
fn digit_position(n: usize, k: usize) -> (r: usize)
    requires
        k < 32,
        n == 36 || n == 32,
    ensures
        r as int == nib_pos_em(n as int, k as int),
        r < n,
{
    if n == 32 {
        return k;
    }
    let mut r = k;
    if k >= 8 {
        r = r + 1;
    }
    if k >= 12 {
        r = r + 1;
    }
    if k >= 16 {
        r = r + 1;
    }
    if k >= 20 {
        r = r + 1;
    }
    r
}

} // verus!

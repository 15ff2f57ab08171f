//! Character classification and small numeric conversions used by the tag
//! lexer: Unicode white space, decimal and hexadecimal digits, rendering a
//! byte as decimal digits, and parsing a byte from decimal digits.

use vstd::prelude::*;
use vstd::string::StrSliceExecFns;

verus! {

/// The Unicode `White_Space` code points, the separator set for compound
/// tags and for trimming numeric parameters.
pub open spec fn is_space(c: char) -> bool {
    let u = c as u32;
    u == 0x09 || u == 0x0A || u == 0x0B || u == 0x0C || u == 0x0D || u == 0x20 || u == 0x85
        || u == 0xA0 || u == 0x1680 || (0x2000 <= u && u <= 0x200A) || u == 0x2028 || u == 0x2029
        || u == 0x202F || u == 0x205F || u == 0x3000
}

pub(crate) fn space_char(c: char) -> (r: bool)
    ensures
        r == is_space(c),
{
    let u = c as u32;
    u == 0x09 || u == 0x0A || u == 0x0B || u == 0x0C || u == 0x0D || u == 0x20 || u == 0x85
        || u == 0xA0 || u == 0x1680 || (0x2000 <= u && u <= 0x200A) || u == 0x2028 || u == 0x2029
        || u == 0x202F || u == 0x205F || u == 0x3000
}

/// Whether a character has the Unicode `Alphabetic` property; such a
/// character may start a tag. The property is too large to write out, so
/// it is only named here and bound to `char::is_alphabetic` below.
pub uninterp spec fn is_alpha(c: char) -> bool;

/// Relies on `char::is_alphabetic`: tests the Unicode `Alphabetic`
/// property, a function of the character alone.
#[verifier::external_body]
pub(crate) fn alphabetic(c: char) -> (r: bool)
    ensures
        r == is_alpha(c),
{
    c.is_alphabetic()
}

pub open spec fn is_digit(c: char) -> bool {
    0x30 <= c as u32 && c as u32 <= 0x39
}

pub open spec fn digit_val(c: char) -> nat
    recommends
        is_digit(c),
{
    (c as u32 - 0x30) as nat
}

pub(crate) fn digit_char(c: char) -> (r: bool)
    ensures
        r == is_digit(c),
{
    let u = c as u32;
    0x30 <= u && u <= 0x39
}

pub(crate) fn digit_of(c: char) -> (d: u8)
    requires
        is_digit(c),
    ensures
        d as nat == digit_val(c),
        d < 10,
{
    ((c as u32) - 0x30) as u8
}

pub open spec fn is_hex_digit(c: char) -> bool {
    let u = c as u32;
    (0x30 <= u && u <= 0x39) || (0x41 <= u && u <= 0x46) || (0x61 <= u && u <= 0x66)
}

pub open spec fn hex_val(c: char) -> nat
    recommends
        is_hex_digit(c),
{
    let u = c as u32;
    if 0x30 <= u && u <= 0x39 {
        (u - 0x30) as nat
    } else if 0x41 <= u && u <= 0x46 {
        (u - 0x37) as nat
    } else {
        (u - 0x57) as nat
    }
}

pub(crate) fn hex_digit_char(c: char) -> (r: bool)
    ensures
        r == is_hex_digit(c),
{
    let u = c as u32;
    (0x30 <= u && u <= 0x39) || (0x41 <= u && u <= 0x46) || (0x61 <= u && u <= 0x66)
}

pub(crate) fn hex_of(c: char) -> (d: u8)
    requires
        is_hex_digit(c),
    ensures
        d as nat == hex_val(c),
        d < 16,
{
    let u = c as u32;
    if 0x30 <= u && u <= 0x39 {
        (u - 0x30) as u8
    } else if 0x41 <= u && u <= 0x46 {
        (u - 0x37) as u8
    } else {
        (u - 0x57) as u8
    }
}

/// The character for one decimal digit.
pub open spec fn dchar(d: nat) -> char
    recommends
        d < 10,
{
    if d == 0 {
        '0'
    } else if d == 1 {
        '1'
    } else if d == 2 {
        '2'
    } else if d == 3 {
        '3'
    } else if d == 4 {
        '4'
    } else if d == 5 {
        '5'
    } else if d == 6 {
        '6'
    } else if d == 7 {
        '7'
    } else if d == 8 {
        '8'
    } else {
        '9'
    }
}

pub(crate) fn dchar_of(d: u8) -> (c: char)
    requires
        d < 10,
    ensures
        c == dchar(d as nat),
{
    if d == 0 {
        '0'
    } else if d == 1 {
        '1'
    } else if d == 2 {
        '2'
    } else if d == 3 {
        '3'
    } else if d == 4 {
        '4'
    } else if d == 5 {
        '5'
    } else if d == 6 {
        '6'
    } else if d == 7 {
        '7'
    } else if d == 8 {
        '8'
    } else {
        '9'
    }
}

/// The decimal digits of `n`, without sign or leading zeros. Only values
/// below 1000 arise here (SGR parameters are bytes).
pub open spec fn dec_digits(n: nat) -> Seq<char>
    recommends
        n < 1000,
{
    if n < 10 {
        seq![dchar(n)]
    } else if n < 100 {
        seq![dchar(n / 10), dchar(n % 10)]
    } else {
        seq![dchar(n / 100), dchar((n / 10) % 10), dchar(n % 10)]
    }
}

pub(crate) fn push_dec_u8(out: &mut Vec<char>, n: u8)
    ensures
        final(out)@ == old(out)@ + dec_digits(n as nat),
{
    if n >= 100 {
        out.push(dchar_of(n / 100));
    }
    if n >= 10 {
        out.push(dchar_of((n / 10) % 10));
    }
    out.push(dchar_of(n % 10));
    proof {
        assert(out@ =~= old(out)@ + dec_digits(n as nat));
    }
}

/// The value of a digit string read in base ten.
pub open spec fn dec_value(s: Seq<char>) -> nat
    decreases s.len(),
{
    if s.len() == 0 {
        0
    } else {
        dec_value(s.drop_last()) * 10 + digit_val(s.last())
    }
}

pub open spec fn all_digits(s: Seq<char>) -> bool {
    forall|i: int| 0 <= i < s.len() ==> is_digit(#[trigger] s[i])
}

pub open spec fn trim_front(s: Seq<char>) -> Seq<char>
    decreases s.len(),
{
    if s.len() > 0 && is_space(s[0]) {
        trim_front(s.drop_first())
    } else {
        s
    }
}

pub open spec fn trim_back(s: Seq<char>) -> Seq<char>
    decreases s.len(),
{
    if s.len() > 0 && is_space(s.last()) {
        trim_back(s.drop_last())
    } else {
        s
    }
}

/// `s` with leading and trailing white space removed.
pub open spec fn spec_trim(s: Seq<char>) -> Seq<char> {
    trim_back(trim_front(s))
}

/// What it means for a style parameter to parse as a byte: after trimming
/// white space, an optional leading `+` followed by one or more decimal
/// digits whose value is at most 255.
pub open spec fn spec_parse_u8(s: Seq<char>) -> Option<u8> {
    let t = spec_trim(s);
    let d = if t.len() > 0 && t[0] == '+' {
        t.drop_first()
    } else {
        t
    };
    if d.len() > 0 && all_digits(d) && dec_value(d) <= 255 {
        Some(dec_value(d) as u8)
    } else {
        None
    }
}

proof fn lemma_dec_value_grows(s: Seq<char>, c: char)
    ensures
        dec_value(s.push(c)) == dec_value(s) * 10 + digit_val(c),
{
    assert(s.push(c).drop_last() =~= s);
    assert(s.push(c).last() == c);
}

/// Parse the characters `v[lo..hi]` as a byte, the way `color(N)` and
/// `rgb(R,G,B)` parameters are read.
#[verifier::loop_isolation(false)]
pub(crate) fn parse_u8_range(v: &Vec<char>, lo: usize, hi: usize) -> (r: Option<u8>)
    requires
        lo <= hi <= v@.len(),
    ensures
        r == spec_parse_u8(v@.subrange(lo as int, hi as int)),
{
    let ghost s = v@.subrange(lo as int, hi as int);
    let mut a = lo;
    let mut b = hi;
    while a < b && space_char(v[a])
        invariant
            lo <= a <= b <= hi <= v@.len(),
            b == hi,
            trim_front(s) == trim_front(v@.subrange(a as int, b as int)),
        decreases b - a,
    {
        proof {
            let cur = v@.subrange(a as int, b as int);
            assert(cur.drop_first() =~= v@.subrange(a as int + 1, b as int));
        }
        a = a + 1;
    }
    proof {
        assert(trim_front(s) == v@.subrange(a as int, b as int));
    }
    let ghost t1 = v@.subrange(a as int, b as int);
    while b > a && space_char(v[b - 1])
        invariant
            lo <= a <= b <= hi <= v@.len(),
            trim_back(t1) == trim_back(v@.subrange(a as int, b as int)),
        decreases b,
    {
        proof {
            let cur = v@.subrange(a as int, b as int);
            assert(cur.drop_last() =~= v@.subrange(a as int, b as int - 1));
        }
        b = b - 1;
    }
    proof {
        assert(spec_trim(s) == v@.subrange(a as int, b as int));
    }
    let ghost t = v@.subrange(a as int, b as int);
    if a < b && v[a] == '+' {
        proof {
            assert(t.drop_first() =~= v@.subrange(a as int + 1, b as int));
        }
        a = a + 1;
    }
    let ghost d = v@.subrange(a as int, b as int);
    if a == b {
        proof {
            assert(d.len() == 0);
        }
        return None;
    }
    let mut acc: u32 = 0;
    let mut i = a;
    while i < b
        invariant
            a <= i <= b <= v@.len(),
            d == v@.subrange(a as int, b as int),
            all_digits(v@.subrange(a as int, i as int)),
            acc <= 256,
            dec_value(v@.subrange(a as int, i as int)) <= 255 ==> acc == dec_value(
                v@.subrange(a as int, i as int),
            ),
            dec_value(v@.subrange(a as int, i as int)) > 255 ==> acc == 256,
        decreases b - i,
    {
        let c = v[i];
        if !digit_char(c) {
            proof {
                assert(d[i - a] == c);
                assert(!all_digits(d));
            }
            return None;
        }
        let dv = digit_of(c);
        let mut next: u32 = acc * 10 + dv as u32;
        if next > 256 {
            next = 256;
        }
        proof {
            let p = v@.subrange(a as int, i as int);
            let q = v@.subrange(a as int, i as int + 1);
            assert(q =~= p.push(c));
            lemma_dec_value_grows(p, c);
        }
        acc = next;
        i = i + 1;
    }
    proof {
        assert(v@.subrange(a as int, b as int) == d);
    }
    if acc <= 255 {
        Some(acc as u8)
    } else {
        proof {
            assert(dec_value(d) > 255);
        }
        None
    }
}

/// The characters of `s`, in order.
pub(crate) fn to_chars(s: &str) -> (r: Vec<char>)
    ensures
        r@ == s@,
{
    let n = s.unicode_len();
    let mut r: Vec<char> = Vec::new();
    let mut i: usize = 0;
    while i < n
        invariant
            n == s@.len(),
            i <= n,
            r@ == s@.subrange(0, i as int),
        decreases n - i,
    {
        r.push(s.get_char(i));
        proof {
            assert(r@ =~= s@.subrange(0, i as int + 1));
        }
        i = i + 1;
    }
    proof {
        assert(r@ =~= s@);
    }
    r
}

/// Relies on `String`'s `FromIterator` impl for characters: collecting an
/// iterator of characters builds the string holding exactly those
/// characters in order.
#[verifier::external_body]
pub(crate) fn chars_to_string(v: &Vec<char>) -> (r: String)
    ensures
        r@ == v@,
{
    v.iter().collect()
}

/// Append every character of the literal `lit` to `out`.
pub(crate) fn push_lit(out: &mut Vec<char>, lit: &str)
    ensures
        final(out)@ == old(out)@ + lit@,
{
    let n = lit.unicode_len();
    let mut i: usize = 0;
    while i < n
        invariant
            n == lit@.len(),
            i <= n,
            out@ == old(out)@ + lit@.subrange(0, i as int),
        decreases n - i,
    {
        out.push(lit.get_char(i));
        proof {
            assert(out@ =~= old(out)@ + lit@.subrange(0, i as int + 1));
        }
        i = i + 1;
    }
    proof {
        assert(out@ =~= old(out)@ + lit@);
    }
}

/// Whether the characters `v` are exactly the literal `lit`.
pub(crate) fn eq_lit(v: &Vec<char>, lit: &str) -> (r: bool)
    ensures
        r == (v@ == lit@),
{
    let n = lit.unicode_len();
    if v.len() != n {
        return false;
    }
    let mut i: usize = 0;
    while i < n
        invariant
            n == lit@.len(),
            v@.len() == n,
            i <= n,
            forall|j: int| 0 <= j < i ==> v@[j] == lit@[j],
        decreases n - i,
    {
        if v[i] != lit.get_char(i) {
            return false;
        }
        i = i + 1;
    }
    proof {
        assert(v@ =~= lit@);
    }
    true
}

/// Whether the characters `v` start with the literal `lit`.
pub(crate) fn has_prefix(v: &Vec<char>, lit: &str) -> (r: bool)
    ensures
        r == (v@.len() >= lit@.len() && v@.subrange(0, lit@.len() as int) == lit@),
{
    let n = lit.unicode_len();
    if v.len() < n {
        return false;
    }
    let mut i: usize = 0;
    while i < n
        invariant
            n == lit@.len(),
            v@.len() >= n,
            i <= n,
            forall|j: int| 0 <= j < i ==> v@[j] == lit@[j],
        decreases n - i,
    {
        if v[i] != lit.get_char(i) {
            proof {
                assert(v@.subrange(0, lit@.len() as int)[i as int] != lit@[i as int]);
            }
            return false;
        }
        i = i + 1;
    }
    proof {
        assert(v@.subrange(0, lit@.len() as int) =~= lit@);
    }
    true
}

} // verus!

//! Byte- and string-level helpers shared by the parser, the renderer and the connection code.

use vstd::prelude::*;
use vstd::string::*;
use vstd::utf8::*;

verus! {

broadcast use encode_utf8_valid_utf8, encode_utf8_decode_utf8;

/// In a valid UTF-8 sequence, a position that is the end of the sequence, or that directly
/// follows an ASCII byte, or that holds an ASCII byte, starts a character.
pub proof fn lemma_ascii_boundary(s: Seq<u8>, p: int)
    requires
        valid_utf8(s),
        0 <= p <= s.len(),
        p == 0 || p == s.len() || s[p - 1] < 0x80 || s[p] < 0x80,
    ensures
        is_char_boundary(s, p),
{
    is_char_boundary_start_end_of_seq(s);
    if p == 0 || p == s.len() {
    } else if s[p] < 0x80 {
        is_char_boundary_iff_not_is_continuation_byte(s, p);
    } else {
        is_char_boundary_iff_not_is_continuation_byte(s, p - 1);
        valid_utf8_split(s, p - 1);
        let t = s.subrange(p - 1, s.len() as int);
        assert(t[0] == s[p - 1]);
        assert(valid_utf8(t));
        assert(length_of_first_scalar(t) == 1);
        assert(pop_first_scalar(t) =~= s.subrange(p, s.len() as int));
        let u = s.subrange(p, s.len() as int);
        assert(valid_utf8(u));
        assert(u.len() > 0);
        assert(valid_first_scalar(u));
        assert(u[0] == s[p]);
        is_char_boundary_iff_not_is_continuation_byte(s, p);
    }
}

/// A run of ASCII bytes is valid UTF-8.
pub proof fn lemma_ascii_valid(s: Seq<u8>)
    requires
        forall|i: int| 0 <= i < s.len() ==> s[i] < 0x80,
    ensures
        valid_utf8(s),
    decreases s.len(),
{
    if s.len() > 0 {
        assert(pop_first_scalar(s) =~= s.subrange(1, s.len() as int));
        lemma_ascii_valid(s.subrange(1, s.len() as int));
    }
}

/// The part of `s` between the byte positions `from` and `to`, both of which start a character.
pub fn substr<'a>(s: &'a str, from: usize, to: usize) -> (r: &'a str)
    requires
        from <= to <= s.spec_bytes().len(),
        is_char_boundary(s.spec_bytes(), from as int),
        is_char_boundary(s.spec_bytes(), to as int),
    ensures
        r.spec_bytes() == s.spec_bytes().subrange(from as int, to as int),
        r@ == decode_utf8(s.spec_bytes().subrange(from as int, to as int)),
{
    let ghost b = s.spec_bytes();
    let (_, rest) = s.split_at(from);
    proof {
        assert(rest.spec_bytes() == b.subrange(from as int, b.len() as int));
        let k = (to - from) as int;
        if k < rest.spec_bytes().len() && k > 0 {
            is_char_boundary_iff_not_is_continuation_byte(b, to as int);
            is_char_boundary_iff_not_is_continuation_byte(rest.spec_bytes(), k);
            assert(rest.spec_bytes()[k] == b[to as int]);
        }
        is_char_boundary_start_end_of_seq(rest.spec_bytes());
    }
    let (mid, _) = rest.split_at(to - from);
    proof {
        assert(mid.spec_bytes() =~= b.subrange(from as int, to as int));
        assert(decode_utf8(encode_utf8(mid@)) == mid@);
    }
    mid
}

/// Compares two strings for equality.
pub fn str_eq(a: &str, b: &str) -> (r: bool)
    ensures
        r == (a@ == b@),
{
    let x = a.as_bytes();
    let y = b.as_bytes();
    if x.len() != y.len() {
        proof {
            if a@ == b@ {
                assert(x@ == y@);
            }
        }
        return false;
    }
    let n = x.len();
    for k in 0..n
        invariant
            n == x@.len(),
            n == y@.len(),
            x@ == a.spec_bytes(),
            y@ == b.spec_bytes(),
            forall|i: int| 0 <= i < k ==> x@[i] == y@[i],
    {
        if x[k] != y[k] {
            proof {
                if a@ == b@ {
                    assert(x@ == y@);
                }
            }
            return false;
        }
    }
    proof {
        assert(x@ =~= y@);
        assert(decode_utf8(encode_utf8(a@)) == a@);
        assert(decode_utf8(encode_utf8(b@)) == b@);
    }
    true
}

/// Whether a character has the Unicode property White_Space.
pub open spec fn is_white_space(c: char) -> bool {
    let n = c as u32;
    (0x09 <= n <= 0x0d) || n == 0x20 || n == 0x85 || n == 0xa0 || n == 0x1680 || (0x2000 <= n
        <= 0x200a) || n == 0x2028 || n == 0x2029 || n == 0x202f || n == 0x205f || n == 0x3000
}

/// The characters without the white space at their start.
pub open spec fn trim_start(s: Seq<char>) -> Seq<char>
    decreases s.len(),
{
    if s.len() > 0 && is_white_space(s[0]) {
        trim_start(s.drop_first())
    } else {
        s
    }
}

/// The characters without the white space at their end.
pub open spec fn trim_end(s: Seq<char>) -> Seq<char>
    decreases s.len(),
{
    if s.len() > 0 && is_white_space(s.last()) {
        trim_end(s.drop_last())
    } else {
        s
    }
}

/// The characters without the white space at either end.
pub open spec fn trimmed(s: Seq<char>) -> Seq<char> {
    trim_end(trim_start(s))
}

/// `str::trim`: the part of `s` without leading and trailing white space (the characters with the
/// Unicode property White_Space), as std documents it.
#[verifier::external_body]
pub(crate) fn trim(s: &str) -> (r: &str)
    ensures
        r@ == trimmed(s@),
{
    s.trim()
}

/// What `{:?}` writes for a string: the string quoted, with some characters escaped.
pub uninterp spec fn str_debug(s: Seq<char>) -> Seq<char>;

/// `<str as Debug>::fmt`, through `format!`: the debug text of `s`, which depends on `s` alone.
#[verifier::external_body]
pub(crate) fn debug_str(s: &str) -> (r: String)
    ensures
        r@ == str_debug(s@),
{
    format!("{:?}", s)
}

/// `String::push`: `c` added at the end.
#[verifier::external_body]
pub(crate) fn push_char(s: &mut String, c: char)
    ensures
        final(s)@ == old(s)@.push(c),
{
    s.push(c)
}

/// The decimal digits of `n`.
pub open spec fn decimal(n: nat) -> Seq<char>
    decreases n,
{
    if n < 10 {
        seq![digit(n)]
    } else {
        decimal(n / 10).push(digit(n % 10))
    }
}

/// The character of a decimal digit.
pub open spec fn digit(d: nat) -> char {
    ((d + 48) as u32) as char
}

fn digit_char(d: u8) -> (r: char)
    requires
        d < 10,
    ensures
        r == digit(d as nat),
{
    (d + 48) as char
}

/// Appends the decimal digits of a byte.
pub fn push_decimal(out: &mut String, n: u8)
    ensures
        final(out)@ == old(out)@ + decimal(n as nat),
{
    proof {
        reveal_with_fuel(decimal, 3);
    }
    if n >= 100 {
        push_char(out, digit_char(n / 100));
    }
    if n >= 10 {
        push_char(out, digit_char((n / 10) % 10));
    }
    push_char(out, digit_char(n % 10));
    proof {
        if n >= 100 {
            assert(decimal(n as nat) =~= seq![digit((n / 100) as nat), digit(((n / 10) % 10) as nat), digit((n % 10) as nat)]);
        } else if n >= 10 {
            assert(decimal(n as nat) =~= seq![digit((n / 10) as nat), digit((n % 10) as nat)]);
        }
    }
}

} // verus!

//! The parser for Varlink IDL.
//!
//! Each reader here implements the reader of the same name in `grammar`, on a string and its
//! bytes, from a byte position: it returns the value read and the position after it, the
//! position where it failed, or that reading panics there.

use vstd::prelude::*;
use vstd::string::StringSliceAdditionalSpecFns;
use vstd::utf8::encode_utf8_valid_utf8;
use super::comment::{comments_model, Comment};
use super::enum_variant::EnumVariant;
use super::grammar::{
    comment_at, lemma_ws_end_after_ascii, dotted_end, alnum_run_end, segment_end, lemma_segment_end, dot_segment_at, interface_at, interface_name_end, DOT, after_members, lemma_after_members, lemma_after_members_none, lemma_after_members_none_right, members_at, MembersModel, relay, member_at, member_field, member_variant, members_tail, type_def_at, MemberModel, error_at, keyword_at, method_at, params_at, params_tail, array_at, dict_at, inline_at, non_optional_at, optional_at, type_at, after, enum_at, enum_names, field_at, field_name_end, fields_at, fields_tail, lemma_after_push,
    names_tail, plain_variant, struct_at, type_name_end, element_at, byte_at, comments_at, has_token, in_class, is_alnum, is_alpha, is_upper, lemma_run_end,
    line_end, run_end, text, token_bytes, ws_end, ByteClass, Outcome, Token, COLON, COMMA, CR,
    DASH, FF, HASH, LF, LPAREN, RPAREN, SPACE, TAB, UNDERSCORE,
};
use super::list::List;
use super::interface::{custom_types_model, errors_model, methods_model, Interface};
use super::custom_object::CustomObject;
use super::custom_enum::CustomEnum;
use super::custom_type::CustomType;
use super::method::Method;
use super::error::Error as ErrorDef;
use super::model::{CustomTypeModel, FieldModel, TypeModel, VariantModel};
use super::types::{fields_model, variants_model, Field, Type, TypeRef};
use crate::text::{debug_str, decimal, lemma_ascii_boundary, push_decimal, str_debug, substr, trim, trimmed};
use crate::error::Error;
use vstd::string::StringExecFns;
use vstd::utf8::{encode_utf8, is_char_boundary, is_char_boundary_start_end_of_seq};

verus! {

broadcast use encode_utf8_valid_utf8;

/// The input of the readers: a string and its bytes.
pub open spec fn source(s: &str, b: &[u8]) -> bool {
    b@ == s.spec_bytes()
}

/// What a reader returned agrees with what the grammar says it reads.
pub open spec fn agrees<T: View>(r: Result<(T, usize), usize>, o: Outcome<T::V>, p: int, n: int) -> bool {
    match r {
        Ok((v, q)) => o == Outcome::Parsed(v@, q as int) && p <= q <= n,
        Err(x) => o == Outcome::<T::V>::Failed(x as int) && p <= x <= n,
    }
}

/// Why a reader stopped without a value: it failed at a position, or reading panics there.
enum Stop {
    /// It failed, leaving the input at the given position.
    Failed(usize),
    /// Reading panics.
    Panicked,
}

/// What a reader returned, or where it stopped, agrees with what the grammar says it reads.
spec fn reads<T: View>(r: Result<(T, usize), Stop>, o: Outcome<T::V>, p: int, n: int) -> bool {
    match r {
        Ok((v, q)) => o == Outcome::Parsed(v@, q as int) && p <= q <= n,
        Err(Stop::Failed(x)) => o == Outcome::<T::V>::Failed(x as int) && p <= x <= n,
        Err(Stop::Panicked) => o is Panicked,
    }
}

/// The bytes of a token.
fn token(t: Token) -> (r: &'static [u8])
    ensures
        r@ == token_bytes(t),
{
    let r: &'static [u8] = match t {
        Token::Question => &[0x3fu8],
        Token::Brackets => &[0x5bu8, 0x5d],
        Token::StringKey => &[0x5bu8, 0x73, 0x74, 0x72, 0x69, 0x6e, 0x67, 0x5d],
        Token::Bool => &[0x62u8, 0x6f, 0x6f, 0x6c],
        Token::Int => &[0x69u8, 0x6e, 0x74],
        Token::Float => &[0x66u8, 0x6c, 0x6f, 0x61, 0x74],
        Token::Str => &[0x73u8, 0x74, 0x72, 0x69, 0x6e, 0x67],
        Token::Object => &[0x6fu8, 0x62, 0x6a, 0x65, 0x63, 0x74],
        Token::Arrow => &[0x2du8, 0x3e],
        Token::Method => &[0x6du8, 0x65, 0x74, 0x68, 0x6f, 0x64],
        Token::Error => &[0x65u8, 0x72, 0x72, 0x6f, 0x72],
        Token::Type => &[0x74u8, 0x79, 0x70, 0x65],
        Token::Interface => &[0x69u8, 0x6e, 0x74, 0x65, 0x72, 0x66, 0x61, 0x63, 0x65],
    };
    assert(r@ =~= token_bytes(t));
    r
}

/// Whether the bytes hold token `t` at position `p`.
fn at_token(b: &[u8], p: usize, t: Token) -> (r: bool)
    ensures
        r == has_token(b@, p as int, t),
{
    let w = token(t);
    if p > b.len() || w.len() > b.len() - p {
        return false;
    }
    let n = w.len();
    for i in 0..n
        invariant
            n == w@.len(),
            w@ == token_bytes(t),
            p + n <= b.len(),
            forall|j: int| 0 <= j < i ==> b@[p + j] == w@[j],
    {
        if b[p + i] != w[i] {
            proof {
                assert(b@.subrange(p as int, p + n)[i as int] != w@[i as int]);
            }
            return false;
        }
    }
    assert(b@.subrange(p as int, p + n) =~= w@);
    true
}

/// Whether the bytes hold byte `c` at position `p`.
fn at_byte(b: &[u8], p: usize, c: u8) -> (r: bool)
    ensures
        r == byte_at(b@, p as int, c),
{
    p < b.len() && b[p] == c
}

fn is_alpha_byte(c: u8) -> (r: bool)
    ensures
        r == is_alpha(c),
{
    (0x41 <= c && c <= 0x5a) || (0x61 <= c && c <= 0x7a)
}

fn is_upper_byte(c: u8) -> (r: bool)
    ensures
        r == is_upper(c),
{
    0x41 <= c && c <= 0x5a
}

fn is_alnum_byte(c: u8) -> (r: bool)
    ensures
        r == is_alnum(c),
{
    is_alpha_byte(c) || (0x30 <= c && c <= 0x39)
}

/// Whether byte `c` is of class `k`.
fn in_class_byte(c: u8, k: ByteClass) -> (r: bool)
    ensures
        r == in_class(c, k),
{
    match k {
        ByteClass::Multispace => c == SPACE || c == TAB || c == CR || c == LF,
        ByteClass::AsciiWhitespace => c == SPACE || c == TAB || c == LF || c == FF || c == CR,
        ByteClass::Blank => c == SPACE || c == TAB,
        ByteClass::Alnum => is_alnum_byte(c),
        ByteClass::NameChar => is_alnum_byte(c) || c == UNDERSCORE,
        ByteClass::SegmentChar => is_alnum_byte(c) || c == DASH,
        ByteClass::NotLf => c != LF,
        ByteClass::NotEol => c != LF && c != CR,
        ByteClass::NotRParen => c != RPAREN,
        ByteClass::NotColon => c != COLON,
    }
}

/// The end of the run of bytes of class `k` from `p`.
fn run(b: &[u8], p: usize, k: ByteClass) -> (r: usize)
    requires
        p <= b.len(),
    ensures
        r == run_end(b@, p as int, k),
        p <= r <= b.len(),
{
    let mut i = p;
    while i < b.len() && in_class_byte(b[i], k)
        invariant
            p <= i <= b.len(),
            run_end(b@, i as int, k) == run_end(b@, p as int, k),
        decreases b.len() - i,
    {
        i = i + 1;
    }
    i
}

/// Where a comment that runs up to `p` ends.
fn skip_line(b: &[u8], p: usize) -> (r: usize)
    requires
        p <= b.len(),
    ensures
        r == line_end(b@, p as int),
        p <= r <= b.len(),
{
    let e = run(b, p, ByteClass::NotEol);
    if e >= b.len() {
        e
    } else if b[e] == CR && at_byte(b, e + 1, LF) {
        e + 2
    } else {
        e + 1
    }
}

/// Passes over whitespace and `#` comments.
pub fn skip_ws(b: &[u8], p: usize) -> (r: usize)
    requires
        p <= b.len(),
    ensures
        r == ws_end(b@, p as int),
        p <= r <= b.len(),
{
    let mut q = p;
    loop
        invariant
            p <= q <= b.len(),
            ws_end(b@, q as int) == ws_end(b@, p as int),
        decreases b.len() - q,
    {
        let m = run(b, q, ByteClass::Multispace);
        if m < b.len() && b[m] == HASH {
            q = skip_line(b, m + 1);
        } else {
            return m;
        }
    }
}

/// The text of `s` between two byte positions that lie next to ASCII bytes or at the ends.
fn cut<'a>(s: &'a str, b: &[u8], p: usize, q: usize) -> (r: &'a str)
    requires
        source(s, b),
        p <= q <= b.len(),
        p == 0 || p == b.len() || b@[p - 1] < 0x80 || b@[p as int] < 0x80,
        q == 0 || q == b.len() || b@[q - 1] < 0x80 || b@[q as int] < 0x80,
    ensures
        r@ == text(b@, p as int, q as int),
{
    proof {
        lemma_ascii_boundary(b@, p as int);
        lemma_ascii_boundary(b@, q as int);
    }
    substr(s, p, q)
}

/// The comments before an item, and where the item starts.
fn comments<'a>(s: &'a str, b: &[u8], p: usize) -> (r: (Vec<Comment<'a>>, usize))
    requires
        source(s, b),
        p <= b.len(),
    ensures
        comments_model(r.0@) == comments_at(b@, p as int).0,
        r.1 == comments_at(b@, p as int).1,
        p <= r.1 <= b.len(),
{
    let mut acc: Vec<Comment<'a>> = Vec::new();
    let mut q = p;
    loop
        invariant
            source(s, b),
            p <= q <= b.len(),
            comments_at(b@, p as int).0 == comments_model(acc@) + comments_at(b@, q as int).0,
            comments_at(b@, p as int).1 == comments_at(b@, q as int).1,
        decreases b.len() - q,
    {
        if q >= b.len() {
            assert(comments_model(acc@) + seq![] =~= comments_model(acc@));
            return (acc, q);
        }
        let m = run(b, q, ByteClass::Multispace);
        if m >= b.len() {
            assert(comments_model(acc@) + seq![] =~= comments_model(acc@));
            return (acc, m);
        }
        if b[m] != HASH {
            assert(comments_model(acc@) + seq![] =~= comments_model(acc@));
            return (acc, q);
        }
        let t = run(b, m + 1, ByteClass::Blank);
        let e = run(b, t, ByteClass::NotLf);
        proof {
            lemma_run_end(b@, m + 1, ByteClass::Blank);
            lemma_run_end(b@, t as int, ByteClass::NotLf);
            if t > m + 1 {
                assert(in_class(b@[t - 1], ByteClass::Blank));
            }
        }
        let c = Comment::new(cut(s, b, t, e));
        let ghost before = acc@;
        acc.push(c);
        proof {
            assert(comments_model(acc@) =~= comments_model(before).push(c@));
            assert(comments_model(acc@) + comments_at(b@, run_end(b@, e as int, ByteClass::Multispace)).0
                =~= comments_model(before) + (seq![text(b@, t as int, e as int)]
                + comments_at(b@, run_end(b@, e as int, ByteClass::Multispace)).0));
        }
        q = run(b, e, ByteClass::Multispace);
    }
}

/// The end of a field name at `p`: a letter, then letters, digits and underscores.
fn field_name(b: &[u8], p: usize) -> (r: Option<usize>)
    requires
        p <= b.len(),
    ensures
        r matches Some(e) ==> field_name_end(b@, p as int) == Some(e as int) && p < e <= b.len(),
        r is None ==> field_name_end(b@, p as int) is None,
{
    if p < b.len() && is_alpha_byte(b[p]) {
        Some(run(b, p + 1, ByteClass::NameChar))
    } else {
        None
    }
}

/// The end of a type name at `p`: an upper-case letter, then letters and digits.
fn type_ident(b: &[u8], p: usize) -> (r: Option<usize>)
    requires
        p <= b.len(),
    ensures
        r matches Some(e) ==> type_name_end(b@, p as int) == Some(e as int) && p < e <= b.len(),
        r is None ==> type_name_end(b@, p as int) is None,
{
    if p < b.len() && is_upper_byte(b[p]) {
        Some(run(b, p + 1, ByteClass::Alnum))
    } else {
        None
    }
}

/// A name's text: it starts with a letter and ends before a byte that is not part of it.
fn name_text<'a>(s: &'a str, b: &[u8], p: usize, e: usize) -> (r: &'a str)
    requires
        source(s, b),
        p < e <= b.len(),
        is_alpha(b@[p as int]),
        forall|i: int| p < i < e ==> is_alnum(#[trigger] b@[i]) || b@[i] == UNDERSCORE,
    ensures
        r@ == text(b@, p as int, e as int),
{
    proof {
        if e - 1 > p {
            assert(is_alnum(b@[e - 1]) || b@[e - 1] == UNDERSCORE);
        }
    }
    cut(s, b, p, e)
}

/// A primitive type at `p`.
fn primitive_type<'a>(b: &[u8], p: usize) -> (r: Option<(Type<'a>, usize)>)
    requires
        p <= b.len(),
    ensures
        r matches Some((t, q)) ==> element_at(b@, p as int) == Outcome::Parsed(t@, q as int) && p
            <= q <= b.len(),
        r is None ==> !has_token(b@, p as int, Token::Bool) && !has_token(b@, p as int, Token::Int)
            && !has_token(b@, p as int, Token::Float) && !has_token(b@, p as int, Token::Str)
            && !has_token(b@, p as int, Token::Object),
{
    if at_token(b, p, Token::Bool) {
        Some((Type::Bool, p + 4))
    } else if at_token(b, p, Token::Int) {
        Some((Type::Int, p + 3))
    } else if at_token(b, p, Token::Float) {
        Some((Type::Float, p + 5))
    } else if at_token(b, p, Token::Str) {
        Some((Type::String, p + 6))
    } else if at_token(b, p, Token::Object) {
        Some((Type::ForeignObject, p + 6))
    } else {
        None
    }
}

/// A field with its comments, its name and its type.
fn field<'a>(s: &'a str, b: &[u8], p: usize) -> (r: Result<(Field<'a>, usize), Stop>)
    requires
        source(s, b),
        p <= b.len(),
    ensures
        reads(r, field_at(b@, p as int), p as int, b.len() as int),
        r matches Ok((_, q)) ==> p < q,
    decreases b.len() - p, 1int,
{
    let (cs, p1) = comments(s, b, p);
    let e = match field_name(b, p1) {
        Some(e) => e,
        None => return Err(Stop::Failed(p1)),
    };
    let p2 = skip_ws(b, e);
    if !at_byte(b, p2, COLON) {
        return Err(Stop::Failed(p2));
    }
    let p3 = skip_ws(b, p2 + 1);
    proof {
        lemma_run_end(b@, p1 + 1, ByteClass::NameChar);
    }
    let name = name_text(s, b, p1, e);
    match varlink_type(s, b, p3) {
        Ok((t, p4)) => Ok((Field::new_owned(name, t, cs), p4)),
        Err(x) => Err(x),
    }
}

/// Fields separated by commas; possibly none.
fn fields<'a>(s: &'a str, b: &[u8], p: usize) -> (r: Result<(Vec<Field<'a>>, usize), Stop>)
    requires
        source(s, b),
        p <= b.len(),
    ensures
        match r {
            Ok((fs, q)) => fields_at(b@, p as int) == Outcome::Parsed(fields_model(fs@), q as int)
                && p <= q <= b.len(),
            Err(x) => x is Panicked && fields_at(b@, p as int) is Panicked,
        },
    decreases b.len() - p, 2int,
{
    let mut acc: Vec<Field<'a>> = Vec::new();
    let mut q = match field(s, b, p) {
        Ok((f, q)) => {
            acc.push(f);
            q
        },
        Err(Stop::Failed(_)) => {
            assert(fields_model(acc@) =~= seq![]);
            return Ok((acc, p));
        },
        Err(Stop::Panicked) => return Err(Stop::Panicked),
    };
    assert(fields_model(acc@) =~= seq![acc@[0]@]);
    loop
        invariant
            source(s, b),
            p < q <= b.len(),
            fields_at(b@, p as int) == after(fields_model(acc@), fields_tail(b@, q as int)),
        decreases b.len() - q,
    {
        let s1 = skip_ws(b, q);
        if !at_byte(b, s1, COMMA) {
            assert(fields_model(acc@) + seq![] =~= fields_model(acc@));
            return Ok((acc, q));
        }
        let s2 = skip_ws(b, s1 + 1);
        match field(s, b, s2) {
            Ok((f, r)) => {
                let ghost before = acc@;
                acc.push(f);
                proof {
                    assert(fields_model(acc@) =~= fields_model(before).push(f@));
                    lemma_after_push(fields_model(before), f@, fields_tail(b@, r as int));
                }
                q = r;
            },
            Err(Stop::Failed(_)) => {
                assert(fields_model(acc@) + seq![] =~= fields_model(acc@));
                return Ok((acc, q));
            },
            Err(Stop::Panicked) => return Err(Stop::Panicked),
        }
    }
}

/// An inline struct: fields between parentheses.
fn struct_type<'a>(s: &'a str, b: &[u8], p: usize) -> (r: Result<(Type<'a>, usize), Stop>)
    requires
        source(s, b),
        p <= b.len(),
    ensures
        reads(r, struct_at(b@, p as int), p as int, b.len() as int),
    decreases b.len() - p, 3int,
{
    if !at_byte(b, p, LPAREN) {
        return Err(Stop::Failed(p));
    }
    let p1 = skip_ws(b, p + 1);
    let (fs, p2) = fields(s, b, p1)?;
    let p3 = skip_ws(b, p2);
    if at_byte(b, p3, RPAREN) {
        Ok((Type::Object(fs), p3 + 1))
    } else {
        Err(Stop::Failed(p3))
    }
}

/// A variant with the given name and no comments.
fn plain_enum_variant<'a>(name: &'a str) -> (r: EnumVariant<'a>)
    ensures
        r@ == plain_variant(name@),
{
    let r = EnumVariant::new_owned(name, Vec::new());
    assert(comments_model(r.spec_comments()) =~= seq![]);
    r
}

/// An inline enum: names between parentheses, separated by commas.
fn enum_type_at<'a>(s: &'a str, b: &[u8], p: usize) -> (r: Result<(Type<'a>, usize), usize>)
    requires
        source(s, b),
        p <= b.len(),
    ensures
        agrees(r, enum_at(b@, p as int), p as int, b.len() as int),
{
    if !at_byte(b, p, LPAREN) {
        return Err(p);
    }
    let p1 = skip_ws(b, p + 1);
    let mut acc: Vec<EnumVariant<'a>> = Vec::new();
    let ghost mut names: Seq<Seq<char>> = seq![];
    let mut q = p1;
    if let Some(e) = field_name(b, p1) {
        proof {
            lemma_run_end(b@, p1 + 1, ByteClass::NameChar);
        }
        let name = name_text(s, b, p1, e);
        acc.push(plain_enum_variant(name));
        proof {
            names = seq![name@];
        }
        q = e;
        loop
            invariant
                source(s, b),
                p1 < q <= b.len(),
                acc@.len() == names.len(),
                forall|i: int| 0 <= i < names.len() ==> #[trigger] acc@[i]@ == plain_variant(names[i]),
                enum_names(b@, p1 as int) == (names + names_tail(b@, q as int).0, names_tail(b@, q as int).1),
            ensures
                acc@.len() == names.len(),
                forall|i: int| 0 <= i < names.len() ==> #[trigger] acc@[i]@ == plain_variant(names[i]),
                enum_names(b@, p1 as int) == (names, q as int),
                p1 < q <= b.len(),
            decreases b.len() - q,
        {
            let s1 = skip_ws(b, q);
            if !at_byte(b, s1, COMMA) {
                assert(names + names_tail(b@, q as int).0 =~= names);
                break;
            }
            let s2 = skip_ws(b, s1 + 1);
            match field_name(b, s2) {
                Some(e) => {
                    proof {
                        lemma_run_end(b@, s2 + 1, ByteClass::NameChar);
                        assert(names + names_tail(b@, q as int).0 =~= names.push(text(b@, s2 as int, e as int)) + names_tail(b@, e as int).0);
                    }
                    let name = name_text(s, b, s2, e);
                    acc.push(plain_enum_variant(name));
                    proof {
                        names = names.push(name@);
                    }
                    q = e;
                },
                None => {
                    assert(names + names_tail(b@, q as int).0 =~= names);
                    break;
                },
            }
        }
    }
    let p3 = skip_ws(b, q);
    if at_byte(b, p3, RPAREN) {
        let t = Type::Enum(List::Owned(acc));
        proof {
            assert(variants_model(acc@) =~= names.map_values(|n: Seq<char>| plain_variant(n)));
        }
        Ok((t, p3 + 1))
    } else {
        Err(p3)
    }
}

/// An inline struct or enum, told apart by a colon before the first closing parenthesis.
fn inline_type<'a>(s: &'a str, b: &[u8], p: usize) -> (r: Result<(Type<'a>, usize), Stop>)
    requires
        source(s, b),
        p <= b.len(),
    ensures
        reads(r, inline_at(b@, p as int), p as int, b.len() as int),
    decreases b.len() - p, 4int,
{
    let q = run(b, p, ByteClass::NotRParen);
    if q >= b.len() {
        return Err(Stop::Failed(p));
    }
    if q == p {
        return Err(Stop::Panicked);
    }
    let c = run(b, p + 1, ByteClass::NotColon);
    if c < q {
        struct_type(s, b, p)
    } else {
        match enum_type_at(s, b, p) {
            Ok(v) => Ok(v),
            Err(x) => Err(Stop::Failed(x)),
        }
    }
}

/// A primitive type, a custom type name, or an inline type.
fn element_type<'a>(s: &'a str, b: &[u8], p: usize) -> (r: Result<(Type<'a>, usize), Stop>)
    requires
        source(s, b),
        p <= b.len(),
    ensures
        reads(r, element_at(b@, p as int), p as int, b.len() as int),
    decreases b.len() - p, 5int,
{
    if let Some((t, q)) = primitive_type(b, p) {
        return Ok((t, q));
    }
    match type_ident(b, p) {
        Some(e) => {
            proof {
                lemma_run_end(b@, p + 1, ByteClass::Alnum);
                if e - 1 > p {
                    assert(in_class(b@[e - 1], ByteClass::Alnum));
                }
            }
            let name = cut(s, b, p, e);
            Ok((Type::Custom(name), e))
        },
        None => inline_type(s, b, p),
    }
}

/// A map type: `[string]` and the value type.
fn map_type<'a>(s: &'a str, b: &[u8], p: usize) -> (r: Result<(Type<'a>, usize), Stop>)
    requires
        source(s, b),
        p <= b.len(),
    ensures
        reads(r, dict_at(b@, p as int), p as int, b.len() as int),
    decreases b.len() - p, 6int,
{
    if !at_token(b, p, Token::StringKey) {
        return Err(Stop::Failed(p));
    }
    match varlink_type(s, b, p + 8) {
        Ok((t, q)) => Ok((Type::Dict(TypeRef::new_owned(t)), q)),
        Err(x) => Err(x),
    }
}

/// An array type: `[]` and the element type.
fn array_type<'a>(s: &'a str, b: &[u8], p: usize) -> (r: Result<(Type<'a>, usize), Stop>)
    requires
        source(s, b),
        p <= b.len(),
    ensures
        reads(r, array_at(b@, p as int), p as int, b.len() as int),
    decreases b.len() - p, 7int,
{
    if !at_token(b, p, Token::Brackets) {
        return Err(Stop::Failed(p));
    }
    match varlink_type(s, b, p + 2) {
        Ok((t, q)) => Ok((Type::Array(TypeRef::new_owned(t)), q)),
        Err(x) => Err(x),
    }
}

/// An optional type: `?` and a type that is not itself optional.
fn optional_type<'a>(s: &'a str, b: &[u8], p: usize) -> (r: Result<(Type<'a>, usize), Stop>)
    requires
        source(s, b),
        p <= b.len(),
    ensures
        reads(r, optional_at(b@, p as int), p as int, b.len() as int),
    decreases b.len() - p, 8int,
{
    if !at_token(b, p, Token::Question) {
        return Err(Stop::Failed(p));
    }
    match non_optional_type(s, b, p + 1) {
        Ok((t, q)) => Ok((Type::Optional(TypeRef::new_owned(t)), q)),
        Err(x) => Err(x),
    }
}

/// An array, map or element type.
fn non_optional_type<'a>(s: &'a str, b: &[u8], p: usize) -> (r: Result<(Type<'a>, usize), Stop>)
    requires
        source(s, b),
        p <= b.len(),
    ensures
        reads(r, non_optional_at(b@, p as int), p as int, b.len() as int),
    decreases b.len() - p, 9int,
{
    match array_type(s, b, p) {
        Err(Stop::Failed(_)) => {},
        r => return r,
    }
    match map_type(s, b, p) {
        Err(Stop::Failed(_)) => {},
        r => return r,
    }
    element_type(s, b, p)
}

/// Any Varlink type.
fn varlink_type<'a>(s: &'a str, b: &[u8], p: usize) -> (r: Result<(Type<'a>, usize), Stop>)
    requires
        source(s, b),
        p <= b.len(),
    ensures
        reads(r, type_at(b@, p as int), p as int, b.len() as int),
    decreases b.len() - p, 10int,
{
    match optional_type(s, b, p) {
        Err(Stop::Failed(_)) => {},
        r => return r,
    }
    match array_type(s, b, p) {
        Err(Stop::Failed(_)) => {},
        r => return r,
    }
    match map_type(s, b, p) {
        Err(Stop::Failed(_)) => {},
        r => return r,
    }
    element_type(s, b, p)
}

/// A parameter list: fields between parentheses, separated by commas.
fn parameter_list<'a>(s: &'a str, b: &[u8], p: usize) -> (r: Result<(Vec<Field<'a>>, usize), Stop>)
    requires
        source(s, b),
        p <= b.len(),
    ensures
        match r {
            Ok((fs, q)) => params_at(b@, p as int) == Outcome::Parsed(fields_model(fs@), q as int)
                && p <= q <= b.len(),
            Err(Stop::Failed(x)) => params_at(b@, p as int) == Outcome::<Seq<FieldModel>>::Failed(
                x as int,
            ) && p <= x <= b.len(),
            Err(Stop::Panicked) => params_at(b@, p as int) is Panicked,
        },
{
    proof {
        reveal(params_at);
    }
    if !at_byte(b, p, LPAREN) {
        return Err(Stop::Failed(p));
    }
    let p1 = run(b, p + 1, ByteClass::Multispace);
    let mut acc: Vec<Field<'a>> = Vec::new();
    if at_byte(b, p1, RPAREN) {
        assert(fields_model(acc@) =~= seq![]);
        return Ok((acc, p1 + 1));
    }
    let mut q = p1;
    assert(fields_model(acc@) + seq![] =~= seq![]);
    loop
        invariant
            source(s, b),
            p < q <= b.len(),
            params_at(b@, p as int) == after(fields_model(acc@), params_tail(b@, q as int)),
        decreases b.len() - q,
    {
        let (f, r) = match field(s, b, q) {
            Ok(v) => v,
            Err(x) => return Err(x),
        };
        let t = run(b, r, ByteClass::Multispace);
        if at_byte(b, t, COMMA) {
            let u = run(b, t + 1, ByteClass::Multispace);
            let ghost before = acc@;
            acc.push(f);
            proof {
                assert(fields_model(acc@) =~= fields_model(before).push(f@));
                lemma_after_push(fields_model(before), f@, params_tail(b@, u as int));
            }
            q = u;
        } else if at_byte(b, t, RPAREN) {
            let ghost before = acc@;
            acc.push(f);
            assert(fields_model(acc@) =~= fields_model(before) + seq![f@]);
            return Ok((acc, t + 1));
        } else {
            return Err(Stop::Failed(t));
        }
    }
}

/// A keyword followed by at least one byte of ASCII whitespace.
fn keyword(b: &[u8], p: usize, t: Token) -> (r: Result<usize, usize>)
    requires
        p <= b.len(),
    ensures
        match r {
            Ok(e) => keyword_at(b@, p as int, t) == Outcome::Parsed((), e as int) && p < e <= b.len(),
            Err(x) => keyword_at(b@, p as int, t) == Outcome::<()>::Failed(x as int) && p <= x <= b.len(),
        },
{
    if !at_token(b, p, t) {
        return Err(p);
    }
    let q = p + token(t).len();
    let e = run(b, q, ByteClass::AsciiWhitespace);
    if e == q {
        Err(q)
    } else {
        Ok(e)
    }
}

/// A type name's text.
fn type_name_text<'a>(s: &'a str, b: &[u8], p: usize, e: usize) -> (r: &'a str)
    requires
        source(s, b),
        type_name_end(b@, p as int) == Some(e as int),
        p < e <= b.len(),
    ensures
        r@ == text(b@, p as int, e as int),
{
    proof {
        lemma_run_end(b@, p + 1, ByteClass::Alnum);
        if e - 1 > p {
            assert(in_class(b@[e - 1], ByteClass::Alnum));
        }
    }
    cut(s, b, p, e)
}

/// A method definition: comments, `method`, a type name, the inputs, `->` and the outputs.
fn method_def<'a>(s: &'a str, b: &[u8], p: usize) -> (r: Result<(Method<'a>, usize), Stop>)
    requires
        source(s, b),
        p <= b.len(),
    ensures
        reads(r, method_at(b@, p as int), p as int, b.len() as int),
        r matches Ok((_, q)) ==> p < q,
{
    reveal(method_at);
    let (cs, p1) = comments(s, b, p);
    let e = match keyword(b, p1, Token::Method) {
        Ok(e) => e,
        Err(x) => return Err(Stop::Failed(x)),
    };
    let n = match type_ident(b, e) {
        Some(n) => n,
        None => return Err(Stop::Failed(e)),
    };
    let name = type_name_text(s, b, e, n);
    let (ins, p4) = parameter_list(s, b, skip_ws(b, n))?;
    let p5 = skip_ws(b, p4);
    if !at_token(b, p5, Token::Arrow) {
        return Err(Stop::Failed(p5));
    }
    let (outs, p7) = parameter_list(s, b, skip_ws(b, p5 + 2))?;
    Ok((Method::new_owned(name, ins, outs, cs), p7))
}

/// An error definition: comments, `error`, a type name and the fields.
fn error_def<'a>(s: &'a str, b: &[u8], p: usize) -> (r: Result<(ErrorDef<'a>, usize), Stop>)
    requires
        source(s, b),
        p <= b.len(),
    ensures
        reads(r, error_at(b@, p as int), p as int, b.len() as int),
        r matches Ok((_, q)) ==> p < q,
{
    reveal(error_at);
    let (cs, p1) = comments(s, b, p);
    let e = match keyword(b, p1, Token::Error) {
        Ok(e) => e,
        Err(x) => return Err(Stop::Failed(x)),
    };
    let n = match type_ident(b, e) {
        Some(n) => n,
        None => return Err(Stop::Failed(e)),
    };
    let name = type_name_text(s, b, e, n);
    let (fs, q) = parameter_list(s, b, skip_ws(b, n))?;
    Ok((ErrorDef::new_owned(name, fs, cs), q))
}

/// A member of a named type definition, as read.
enum Entry<'a> {
    /// A member with a type: a field.
    Typed(Field<'a>),
    /// A member without a type: a variant.
    Untyped(EnumVariant<'a>),
}

impl<'a> Entry<'a> {
    spec fn model(self) -> MemberModel {
        match self {
            Entry::Typed(f) => MemberModel { name: f@.name, ty: Some(f@.ty), comments: f@.comments },
            Entry::Untyped(v) => MemberModel { name: v@.name, ty: None, comments: v@.comments },
        }
    }
}

/// One member of a named type definition.
fn member<'a>(s: &'a str, b: &[u8], q: usize) -> (r: Result<(Entry<'a>, usize), Stop>)
    requires
        source(s, b),
        q <= b.len(),
    ensures
        match r {
            Ok((m, e)) => member_at(b@, q as int) == Outcome::Parsed(m.model(), e as int) && q < e
                <= b.len(),
            Err(Stop::Failed(x)) => member_at(b@, q as int) == Outcome::<MemberModel>::Failed(
                x as int,
            ) && q <= x <= b.len(),
            Err(Stop::Panicked) => member_at(b@, q as int) is Panicked,
        },
{
    reveal(member_at);
    let (cs, q1) = comments(s, b, q);
    let e = match field_name(b, q1) {
        Some(e) => e,
        None => return Err(Stop::Failed(q1)),
    };
    proof {
        lemma_run_end(b@, q1 + 1, ByteClass::NameChar);
    }
    let name = name_text(s, b, q1, e);
    let q2 = run(b, e, ByteClass::Multispace);
    if at_byte(b, q2, COLON) {
        match varlink_type(s, b, run(b, q2 + 1, ByteClass::Multispace)) {
            Ok((t, q4)) => Ok((Entry::Typed(Field::new_owned(name, t, cs)), q4)),
            Err(x) => Err(x),
        }
    } else {
        Ok((Entry::Untyped(EnumVariant::new_owned(name, cs)), q2))
    }
}

/// A named type definition: comments, `type`, a type name, and members between parentheses.
fn type_def<'a>(s: &'a str, b: &[u8], p: usize) -> (r: Result<(CustomType<'a>, usize), Stop>)
    requires
        source(s, b),
        p <= b.len(),
    ensures
        reads(r, type_def_at(b@, p as int), p as int, b.len() as int),
        r matches Ok((_, q)) ==> p < q,
{
    reveal(type_def_at);
    let (cs, p1) = comments(s, b, p);
    let e = match keyword(b, p1, Token::Type) {
        Ok(e) => e,
        Err(x) => return Err(Stop::Failed(x)),
    };
    let n = match type_ident(b, e) {
        Some(n) => n,
        None => return Err(Stop::Failed(e)),
    };
    let name = type_name_text(s, b, e, n);
    let p3 = skip_ws(b, n);
    if !at_byte(b, p3, LPAREN) {
        return Err(Stop::Failed(p3));
    }
    let p4 = run(b, p3 + 1, ByteClass::Multispace);
    let mut fields: Vec<Field<'a>> = Vec::new();
    let mut variants: Vec<EnumVariant<'a>> = Vec::new();
    if at_byte(b, p4, RPAREN) {
        let o = CustomObject::new_owned(name, fields, cs);
        assert(fields_model(o.spec_fields()) =~= seq![]);
        return Ok((CustomType::Object(o), p4 + 1));
    }
    let mut has_typed = false;
    let mut has_untyped = false;
    let ghost mut ms: Seq<MemberModel> = seq![];
    let mut q = p4;
    let mut end = p4;
    assert(ms + seq![] =~= ms);
    assert(!(members_tail(b@, p4 as int) is Parsed) ==> type_def_at(b@, p as int) == relay::<Seq<MemberModel>, CustomTypeModel>(members_tail(b@, p4 as int)));
    loop
        invariant_except_break
            members_tail(b@, p4 as int) == after(ms, members_tail(b@, q as int)),
        invariant
            source(s, b),
            p <= p4 <= q <= b.len(),
            !(members_tail(b@, p4 as int) is Parsed) ==> type_def_at(b@, p as int) == relay::<Seq<MemberModel>, CustomTypeModel>(members_tail(b@, p4 as int)),
            has_typed == exists|i: int| 0 <= i < ms.len() && (#[trigger] ms[i]).ty is Some,
            has_untyped == exists|i: int| 0 <= i < ms.len() && (#[trigger] ms[i]).ty is None,
            !has_untyped ==> fields_model(fields@) == ms.map_values(|m: MemberModel| member_field(m)),
            !has_typed ==> variants_model(variants@) == ms.map_values(|m: MemberModel| member_variant(m)),
        ensures
            members_tail(b@, p4 as int) == Outcome::Parsed(ms, end as int),
            p4 < end <= b.len(),
            has_typed == exists|i: int| 0 <= i < ms.len() && (#[trigger] ms[i]).ty is Some,
            has_untyped == exists|i: int| 0 <= i < ms.len() && (#[trigger] ms[i]).ty is None,
            !has_untyped ==> fields_model(fields@) == ms.map_values(|m: MemberModel| member_field(m)),
            !has_typed ==> variants_model(variants@) == ms.map_values(|m: MemberModel| member_variant(m)),
        decreases b.len() - q,
    {
        let (m, r) = match member(s, b, q) {
            Ok(v) => v,
            Err(x) => return Err(x),
        };
        let ghost mm = m.model();
        let ghost before = ms;
        let ghost fields_before = fields@;
        let ghost variants_before = variants@;
        match m {
            Entry::Typed(f) => {
                fields.push(f);
                has_typed = true;
            },
            Entry::Untyped(v) => {
                variants.push(v);
                has_untyped = true;
            },
        }
        proof {
            ms = ms.push(mm);
            assert(ms[ms.len() - 1] == mm);
            assert(forall|i: int| 0 <= i < before.len() ==> ms[i] == before[i]);
            if !has_untyped {
                assert(fields_model(fields@) =~= fields_model(fields_before).push(member_field(mm)));
                assert(ms.map_values(|m: MemberModel| member_field(m)) =~= before.map_values(
                    |m: MemberModel| member_field(m),
                ).push(member_field(mm)));
            }
            if !has_typed {
                assert(variants_model(variants@) =~= variants_model(variants_before).push(
                    member_variant(mm),
                ));
                assert(ms.map_values(|m: MemberModel| member_variant(m)) =~= before.map_values(
                    |m: MemberModel| member_variant(m),
                ).push(member_variant(mm)));
            }
        }
        let t = run(b, r, ByteClass::Multispace);
        if at_byte(b, t, COMMA) {
            let u = run(b, t + 1, ByteClass::Multispace);
            proof {
                lemma_after_push(before, mm, members_tail(b@, u as int));
            }
            q = u;
        } else if at_byte(b, t, RPAREN) {
            assert(before + seq![mm] =~= ms);
            end = t + 1;
            break;
        } else {
            return Err(Stop::Failed(t));
        }
    }
    if has_typed && has_untyped {
        return Err(Stop::Failed(end));
    }
    if has_typed {
        let o = CustomObject::new_owned(name, fields, cs);
        Ok((CustomType::Object(o), end))
    } else {
        let v = CustomEnum::new_owned(name, variants, cs);
        Ok((CustomType::Enum(v), end))
    }
}

/// The members of an interface: type definitions, methods and errors, in any order, up to the end
/// of the input or to where none can be read.
fn members<'a>(s: &'a str, b: &[u8], p: usize) -> (r: Result<
    (Vec<Method<'a>>, Vec<CustomType<'a>>, Vec<ErrorDef<'a>>, usize),
    Stop,
>)
    requires
        source(s, b),
        p <= b.len(),
    ensures
        match r {
            Ok((ms, ts, es, q)) => members_at(b@, p as int) == Outcome::Parsed(
                MembersModel {
                    methods: methods_model(ms@),
                    custom_types: custom_types_model(ts@),
                    errors: errors_model(es@),
                },
                q as int,
            ) && p <= q <= b.len(),
            Err(x) => x is Panicked && members_at(b@, p as int) is Panicked,
        },
{
    let mut methods: Vec<Method<'a>> = Vec::new();
    let mut custom_types: Vec<CustomType<'a>> = Vec::new();
    let mut errors: Vec<ErrorDef<'a>> = Vec::new();
    let mut q = p;
    let ghost none = MembersModel { methods: seq![], custom_types: seq![], errors: seq![] };
    proof {
        assert(methods_model(methods@) =~= seq![]);
        assert(custom_types_model(custom_types@) =~= seq![]);
        assert(errors_model(errors@) =~= seq![]);
        lemma_after_members_none(members_at(b@, p as int));
    }
    loop
        invariant
            source(s, b),
            p <= q <= b.len(),
            members_at(b@, p as int) == after_members(
                MembersModel {
                    methods: methods_model(methods@),
                    custom_types: custom_types_model(custom_types@),
                    errors: errors_model(errors@),
                },
                members_at(b@, q as int),
            ),
        decreases b.len() - q,
    {
        let ghost acc = MembersModel {
            methods: methods_model(methods@),
            custom_types: custom_types_model(custom_types@),
            errors: errors_model(errors@),
        };
        proof {
            lemma_after_members_none_right(acc);
        }
        if q >= b.len() {
            return Ok((methods, custom_types, errors, q));
        }
        let q1 = run(b, q, ByteClass::Multispace);
        if q1 >= b.len() {
            return Ok((methods, custom_types, errors, q1));
        }
        match type_def(s, b, q1) {
            Ok((t, r)) => {
                let ghost one = MembersModel { methods: seq![], custom_types: seq![t@], errors: seq![] };
                let ghost before = custom_types@;
                custom_types.push(t);
                proof {
                    lemma_after_members(acc, one, members_at(b@, r as int));
                    assert(custom_types_model(custom_types@) =~= custom_types_model(before) + seq![t@]);
                    assert(acc.methods + one.methods =~= acc.methods);
                    assert(acc.errors + one.errors =~= acc.errors);
                }
                q = r;
            },
            Err(Stop::Panicked) => return Err(Stop::Panicked),
            Err(Stop::Failed(_)) => match method_def(s, b, q1) {
                Ok((m, r)) => {
                    let ghost one = MembersModel { methods: seq![m@], custom_types: seq![], errors: seq![] };
                    let ghost before = methods@;
                    methods.push(m);
                    proof {
                        lemma_after_members(acc, one, members_at(b@, r as int));
                        assert(methods_model(methods@) =~= methods_model(before) + seq![m@]);
                        assert(acc.custom_types + one.custom_types =~= acc.custom_types);
                        assert(acc.errors + one.errors =~= acc.errors);
                    }
                    q = r;
                },
                Err(Stop::Panicked) => return Err(Stop::Panicked),
                Err(Stop::Failed(_)) => match error_def(s, b, q1) {
                    Ok((e, r)) => {
                        let ghost one = MembersModel { methods: seq![], custom_types: seq![], errors: seq![e@] };
                        let ghost before = errors@;
                        errors.push(e);
                        proof {
                            lemma_after_members(acc, one, members_at(b@, r as int));
                            assert(errors_model(errors@) =~= errors_model(before) + seq![e@]);
                            assert(acc.custom_types + one.custom_types =~= acc.custom_types);
                            assert(acc.methods + one.methods =~= acc.methods);
                        }
                        q = r;
                    },
                    Err(Stop::Failed(x)) => {
                        return Ok((methods, custom_types, errors, x));
                    },
                    Err(Stop::Panicked) => return Err(Stop::Panicked),
                },
            },
        }
    }
}

/// The end of the rest of a name segment from `s`: the run of letters, digits and dashes there,
/// without the dashes at its end.
fn segment(b: &[u8], s: usize) -> (r: usize)
    requires
        s <= b.len(),
    ensures
        r == segment_end(b@, s as int),
        s <= r <= b.len(),
        r == s || is_alnum(b@[r - 1]),
{
    proof {
        lemma_segment_end(b@, s as int);
    }
    let mut r = run(b, s, ByteClass::SegmentChar);
    while r > s && !is_alnum_byte(b[r - 1])
        invariant
            s <= r <= b.len(),
            alnum_run_end(b@, s as int, r as int) == segment_end(b@, s as int),
        decreases r,
    {
        r = r - 1;
    }
    r
}

/// Whether a dot at `q` starts another segment of an interface name.
fn at_dot_segment(b: &[u8], q: usize) -> (r: bool)
    requires
        q <= b.len(),
    ensures
        r == dot_segment_at(b@, q as int),
{
    at_byte(b, q, DOT) && q + 1 < b.len() && is_alnum_byte(b[q + 1])
}

/// The end of an interface name at `p`.
fn read_interface_name(b: &[u8], p: usize) -> (r: Option<usize>)
    requires
        p <= b.len(),
    ensures
        r matches Some(e) ==> interface_name_end(b@, p as int) == Some(e as int) && p < e <= b.len()
            && b@[e - 1] < 0x80 && b@[p as int] < 0x80,
        r is None ==> interface_name_end(b@, p as int) is None,
{
    if !(p < b.len() && is_alpha_byte(b[p])) {
        return None;
    }
    let e = segment(b, p + 1);
    if !at_dot_segment(b, e) {
        return None;
    }
    let mut pos = e;
    loop
        invariant
            p < e <= pos <= b.len(),
            dotted_end(b@, pos as int) == dotted_end(b@, e as int),
            interface_name_end(b@, p as int) == Some(dotted_end(b@, e as int)),
            b@[pos - 1] < 0x80,
            b@[p as int] < 0x80,
        decreases b.len() - pos,
    {
        if !at_dot_segment(b, pos) {
            return Some(pos);
        }
        pos = segment(b, pos + 2);
    }
}

/// An interface definition: comments, `interface`, its name, and its members.
fn interface_def<'a>(s: &'a str, b: &[u8], p: usize) -> (r: Result<(Interface<'a>, usize), Stop>)
    requires
        source(s, b),
        p <= b.len(),
    ensures
        reads(r, interface_at(b@, p as int), p as int, b.len() as int),
{
    let (cs, p1) = comments(s, b, p);
    let e = match keyword(b, p1, Token::Interface) {
        Ok(e) => e,
        Err(x) => return Err(Stop::Failed(x)),
    };
    let n = match read_interface_name(b, e) {
        Some(n) => n,
        None => return Err(Stop::Failed(e)),
    };
    let name = cut(s, b, e, n);
    let (methods, custom_types, errors, end) = members(s, b, run(b, n, ByteClass::Multispace))?;
    Ok((Interface::new_owned(name, methods, custom_types, errors, cs), end))
}

/// The bytes that the parser reads of a text: the text without white space at either end.
pub open spec fn idl_bytes(input: Seq<char>) -> Seq<u8> {
    encode_utf8(trimmed(input))
}

/// The message for an input that holds nothing but white space.
pub open spec fn empty_input_message() -> Seq<char> {
    "Input is empty"@
}

/// The message for input left over after a complete definition.
pub open spec fn remaining_input_message(rest: Seq<char>) -> Seq<char> {
    "Unexpected remaining input: "@ + str_debug(rest)
}

/// The message for a definition that could not be read: the bytes from where reading failed.
pub open spec fn failure_message(rest: Seq<u8>) -> Seq<char> {
    "Parse error: Parsing Error: InputError { input: "@ + bytes_debug(rest) + " }"@
}

/// The decimal numbers of some bytes, separated by a comma and a space.
pub open spec fn decimal_list(bs: Seq<u8>) -> Seq<char>
    decreases bs.len(),
{
    if bs.len() == 0 {
        seq![]
    } else if bs.len() == 1 {
        decimal(bs[0] as nat)
    } else {
        decimal_list(bs.drop_last()) + ", "@ + decimal(bs.last() as nat)
    }
}

/// What `{:?}` writes for a byte slice: its bytes in decimal, in square brackets.
pub open spec fn bytes_debug(bs: Seq<u8>) -> Seq<char> {
    "["@ + decimal_list(bs) + "]"@
}

/// The text that follows position `r`, or a placeholder where `r` does not start a character.
pub open spec fn rest_text(b: Seq<u8>, r: int) -> Seq<char> {
    if is_char_boundary(b, r) {
        text(b, r, b.len() as int)
    } else {
        "<invalid UTF-8>"@
    }
}

/// What parsing a whole text gives: the definition that its reader reads from the start, when
/// nothing but whitespace and comments follows it, or the message of the error.
pub open spec fn parse_result<T>(b: Seq<u8>, o: Outcome<T>) -> Result<T, Seq<char>> {
    if b.len() == 0 {
        Err(empty_input_message())
    } else {
        match o {
            Outcome::Parsed(v, q) => {
                let r = ws_end(b, q);
                if r == b.len() {
                    Ok(v)
                } else {
                    Err(remaining_input_message(rest_text(b, r)))
                }
            },
            Outcome::Failed(x) => Err(failure_message(b.subrange(x, b.len() as int))),
            Outcome::Panicked => Err(seq![]),
        }
    }
}

/// A parse result agrees with what parsing should give.
pub open spec fn parsed_as<T: View>(r: Result<T, Error>, e: Result<T::V, Seq<char>>) -> bool {
    match (r, e) {
        (Ok(v), Ok(m)) => v@ == m,
        (Err(Error::IdlParse(msg)), Err(t)) => msg@ == t,
        _ => false,
    }
}

/// The debug text of the bytes of `b` from position `from`.
fn debug_bytes(b: &[u8], from: usize) -> (r: String)
    requires
        from <= b.len(),
    ensures
        r@ == bytes_debug(b@.subrange(from as int, b.len() as int)),
{
    let mut out = String::from_str("[");
    let mut i = from;
    while i < b.len()
        invariant
            from <= i <= b.len(),
            out@ == "["@ + decimal_list(b@.subrange(from as int, i as int)),
        decreases b.len() - i,
    {
        let ghost before = out@;
        if i > from {
            out.append(", ");
        }
        push_decimal(&mut out, b[i]);
        proof {
            let t = b@.subrange(from as int, i + 1);
            assert(t.drop_last() =~= b@.subrange(from as int, i as int));
            assert(t.last() == b@[i as int]);
            if i == from {
                assert(before == "["@ + seq![]);
            }
        }
        i = i + 1;
    }
    out.append("]");
    out
}

/// Finishes parsing a whole text: only whitespace and comments may follow the definition read.
fn finish<'a, T: View>(
    s: &'a str,
    b: &[u8],
    r: Result<(T, usize), Stop>,
    Ghost(o): Ghost<Outcome<T::V>>,
) -> (out: Result<T, Error>)
    requires
        source(s, b),
        b.len() > 0,
        reads(r, o, 0, b.len() as int),
    ensures
        parsed_as(out, parse_result(b@, o)),
{
    match r {
        Ok((v, q)) => {
            let e = skip_ws(b, q);
            if e == b.len() {
                Ok(v)
            } else {
                let rest = if s.is_char_boundary(e) {
                    proof {
                        is_char_boundary_start_end_of_seq(b@);
                    }
                    substr(s, e, b.len())
                } else {
                    "<invalid UTF-8>"
                };
                let mut msg = String::from_str("Unexpected remaining input: ");
                let d = debug_str(rest);
                msg.append(d.as_str());
                Err(Error::IdlParse(msg))
            }
        },
        Err(Stop::Panicked) => Err(Error::IdlParse(String::new())),
        Err(Stop::Failed(x)) => {
            let mut msg = String::from_str("Parse error: Parsing Error: InputError { input: ");
            let d = debug_bytes(b, x);
            msg.append(d.as_str());
            msg.append(" }");
            Err(Error::IdlParse(msg))
        },
    }
}

/// Parses an interface definition.
///
/// White space at either end of `input` is ignored. After the interface, whitespace and comments
/// may follow; reading members stops at the first text that is no member.
pub fn parse_interface(input: &str) -> (r: Result<Interface<'_>, Error>)
    requires
        !(interface_at(idl_bytes(input@), 0) is Panicked),
    ensures
        parsed_as(r, parse_result(idl_bytes(input@), interface_at(idl_bytes(input@), 0))),
{
    let t = trim(input);
    let b = t.as_bytes();
    if b.len() == 0 {
        return Err(Error::IdlParse(String::from_str("Input is empty")));
    }
    let r = interface_def(t, b, 0);
    finish(t, b, r, Ghost(interface_at(b@, 0)))
}

/// Parses a Varlink type.
pub fn parse_type(input: &str) -> (r: Result<Type<'_>, Error>)
    requires
        !(type_at(idl_bytes(input@), 0) is Panicked),
    ensures
        parsed_as(r, parse_result(idl_bytes(input@), type_at(idl_bytes(input@), 0))),
{
    let t = trim(input);
    let b = t.as_bytes();
    if b.len() == 0 {
        return Err(Error::IdlParse(String::from_str("Input is empty")));
    }
    let r = varlink_type(t, b, 0);
    finish(t, b, r, Ghost(type_at(b@, 0)))
}

/// Parses a method definition.
pub fn parse_method(input: &str) -> (r: Result<Method<'_>, Error>)
    requires
        !(method_at(idl_bytes(input@), 0) is Panicked),
    ensures
        parsed_as(r, parse_result(idl_bytes(input@), method_at(idl_bytes(input@), 0))),
{
    let t = trim(input);
    let b = t.as_bytes();
    if b.len() == 0 {
        return Err(Error::IdlParse(String::from_str("Input is empty")));
    }
    let r = method_def(t, b, 0);
    finish(t, b, r, Ghost(method_at(b@, 0)))
}

/// Parses an error definition.
pub fn parse_error(input: &str) -> (r: Result<ErrorDef<'_>, Error>)
    requires
        !(error_at(idl_bytes(input@), 0) is Panicked),
    ensures
        parsed_as(r, parse_result(idl_bytes(input@), error_at(idl_bytes(input@), 0))),
{
    let t = trim(input);
    let b = t.as_bytes();
    if b.len() == 0 {
        return Err(Error::IdlParse(String::from_str("Input is empty")));
    }
    let r = error_def(t, b, 0);
    finish(t, b, r, Ghost(error_at(b@, 0)))
}

/// Parses a named type definition.
pub fn parse_custom_type(input: &str) -> (r: Result<CustomType<'_>, Error>)
    requires
        !(type_def_at(idl_bytes(input@), 0) is Panicked),
    ensures
        parsed_as(r, parse_result(idl_bytes(input@), type_def_at(idl_bytes(input@), 0))),
{
    let t = trim(input);
    let b = t.as_bytes();
    if b.len() == 0 {
        return Err(Error::IdlParse(String::from_str("Input is empty")));
    }
    let r = type_def(t, b, 0);
    finish(t, b, r, Ghost(type_def_at(b@, 0)))
}

/// Parses a field (or parameter) with its comments.
pub fn parse_field(input: &str) -> (r: Result<Field<'_>, Error>)
    requires
        !(field_at(idl_bytes(input@), 0) is Panicked),
    ensures
        parsed_as(r, parse_result(idl_bytes(input@), field_at(idl_bytes(input@), 0))),
{
    let t = trim(input);
    let b = t.as_bytes();
    if b.len() == 0 {
        return Err(Error::IdlParse(String::from_str("Input is empty")));
    }
    let r = field(t, b, 0);
    finish(t, b, r, Ghost(field_at(b@, 0)))
}

/// Whether reading `input` as a interface panics: on such input `parse_interface` must not be
/// called.
pub fn parse_interface_panics(input: &str) -> (r: bool)
    ensures
        r == (interface_at(idl_bytes(input@), 0) is Panicked),
{
    let t = trim(input);
    let b = t.as_bytes();
    matches!(interface_def(t, b, 0), Err(Stop::Panicked))
}

/// Whether reading `input` as a Varlink type panics: on such input `parse_type` must not be
/// called.
pub fn parse_type_panics(input: &str) -> (r: bool)
    ensures
        r == (type_at(idl_bytes(input@), 0) is Panicked),
{
    let t = trim(input);
    let b = t.as_bytes();
    matches!(varlink_type(t, b, 0), Err(Stop::Panicked))
}

/// Whether reading `input` as a method definition panics: on such input `parse_method` must not be
/// called.
pub fn parse_method_panics(input: &str) -> (r: bool)
    ensures
        r == (method_at(idl_bytes(input@), 0) is Panicked),
{
    let t = trim(input);
    let b = t.as_bytes();
    matches!(method_def(t, b, 0), Err(Stop::Panicked))
}

/// Whether reading `input` as a error definition panics: on such input `parse_error` must not be
/// called.
pub fn parse_error_panics(input: &str) -> (r: bool)
    ensures
        r == (error_at(idl_bytes(input@), 0) is Panicked),
{
    let t = trim(input);
    let b = t.as_bytes();
    matches!(error_def(t, b, 0), Err(Stop::Panicked))
}

/// Whether reading `input` as a named type definition panics: on such input `parse_custom_type` must not be
/// called.
pub fn parse_custom_type_panics(input: &str) -> (r: bool)
    ensures
        r == (type_def_at(idl_bytes(input@), 0) is Panicked),
{
    let t = trim(input);
    let b = t.as_bytes();
    matches!(type_def(t, b, 0), Err(Stop::Panicked))
}

/// Whether reading `input` as a field panics: on such input `parse_field` must not be
/// called.
pub fn parse_field_panics(input: &str) -> (r: bool)
    ensures
        r == (field_at(idl_bytes(input@), 0) is Panicked),
{
    let t = trim(input);
    let b = t.as_bytes();
    matches!(field(t, b, 0), Err(Stop::Panicked))
}

/// Passes over the whitespace and `#` comments at the start of `input`.
pub fn ws<'a>(input: &mut &'a str)
    ensures
        final(input)@ == text(
            old(input).spec_bytes(),
            ws_end(old(input).spec_bytes(), 0),
            old(input).spec_bytes().len() as int,
        ),
{
    let s: &'a str = *input;
    let b = s.as_bytes();
    let e = skip_ws(b, 0);
    proof {
        lemma_ws_end_after_ascii(b@, 0);
    }
    *input = cut(s, b, e, b.len());
}

/// Reads a comment at the start of `input`: `#`, blanks, and the text up to the next line feed,
/// which stays in `input`. Without a `#` there, `input` stays as it is.
pub fn comment_def<'a>(input: &mut &'a str) -> (r: Result<Comment<'a>, usize>)
    ensures
        match comment_at(old(input).spec_bytes(), 0) {
            Outcome::Parsed(t, q) => r matches Ok(c) && c@ == t && final(input)@ == text(
                old(input).spec_bytes(),
                q,
                old(input).spec_bytes().len() as int,
            ),
            _ => r == Err::<Comment<'a>, usize>(0) && *final(input) == *old(input),
        },
{
    let s: &'a str = *input;
    let b = s.as_bytes();
    if !at_byte(b, 0, HASH) {
        return Err(0);
    }
    let t = run(b, 1, ByteClass::Blank);
    let e = run(b, t, ByteClass::NotLf);
    proof {
        lemma_run_end(b@, 1, ByteClass::Blank);
        lemma_run_end(b@, t as int, ByteClass::NotLf);
        if t > 1 {
            assert(in_class(b@[t - 1], ByteClass::Blank));
        }
    }
    let c = Comment::new(cut(s, b, t, e));
    *input = cut(s, b, e, b.len());
    Ok(c)
}

/// Reads an interface name in reverse-domain notation at the start of `input`, such as
/// `org.example.test`. Without one there, `input` stays as it is.
pub fn interface_name<'a>(input: &mut &'a str) -> (r: Result<&'a str, usize>)
    ensures
        match interface_name_end(old(input).spec_bytes(), 0) {
            Some(e) => r matches Ok(n) && n@ == text(old(input).spec_bytes(), 0, e) && final(input)@
                == text(old(input).spec_bytes(), e, old(input).spec_bytes().len() as int),
            None => r == Err::<&'a str, usize>(0) && *final(input) == *old(input),
        },
{
    let s: &'a str = *input;
    let b = s.as_bytes();
    match read_interface_name(b, 0) {
        Some(e) => {
            let n = cut(s, b, 0, e);
            *input = cut(s, b, e, b.len());
            Ok(n)
        },
        None => Err(0),
    }
}

/// Reads an inline enum type at the start of `input`: names between parentheses, separated by
/// commas. On failure `input` stays as it is.
pub fn enum_type<'a>(input: &mut &'a str) -> (r: Result<Type<'a>, usize>)
    ensures
        match enum_at(old(input).spec_bytes(), 0) {
            Outcome::Parsed(t, q) => r matches Ok(v) && v@ == t && final(input)@ == text(
                old(input).spec_bytes(),
                q,
                old(input).spec_bytes().len() as int,
            ),
            Outcome::Failed(x) => r == Err::<Type<'a>, usize>(x as usize) && *final(input) == *old(
                input,
            ),
            Outcome::Panicked => false,
        },
{
    let s: &'a str = *input;
    let b = s.as_bytes();
    match enum_type_at(s, b, 0) {
        Ok((t, q)) => {
            *input = cut(s, b, q, b.len());
            Ok(t)
        },
        Err(x) => Err(x),
    }
}

} // verus!

//! The Varlink IDL grammar, as this library reads it, stated as functions on bytes.
//!
//! Every reader takes the whole input `b` and a position `p` in it, and says what it reads there:
//! a value and the position after it, a failure at some position, or that reading panics. The
//! failure position matters: where a member of an interface fails to parse, reading stops there
//! and the rest of the input is judged from that point.

use vstd::prelude::*;
use vstd::utf8::decode_utf8;
use super::model::{
    CustomTypeModel, EnumModel, ErrorModel, FieldModel, InterfaceModel, MethodModel, ObjectModel,
    TypeModel, VariantModel,
};

verus! {

/// What a reader does at a position.
pub enum Outcome<T> {
    /// It read a value and stopped at the given position.
    Parsed(T, int),
    /// It failed, leaving the input at the given position.
    Failed(int),
    /// Reading panics.
    Panicked,
}

/// A list read after the items `acc`: all of them, where it is read.
pub open spec fn after<T>(acc: Seq<T>, o: Outcome<Seq<T>>) -> Outcome<Seq<T>> {
    match o {
        Outcome::Parsed(xs, e) => Outcome::Parsed(acc + xs, e),
        _ => o,
    }
}

pub proof fn lemma_after_push<T>(acc: Seq<T>, x: T, o: Outcome<Seq<T>>)
    ensures
        after(acc, after(seq![x], o)) == after(acc.push(x), o),
{
    if let Outcome::Parsed(xs, e) = o {
        assert(acc + (seq![x] + xs) =~= acc.push(x) + xs);
    }
}

/// Passes a failure or a panic on, with another value type.
pub open spec fn relay<T, U>(o: Outcome<T>) -> Outcome<U> {
    match o {
        Outcome::Failed(x) => Outcome::Failed(x),
        _ => Outcome::Panicked,
    }
}

pub const HASH: u8 = 0x23;

pub const LF: u8 = 0x0a;

pub const CR: u8 = 0x0d;

pub const TAB: u8 = 0x09;

pub const FF: u8 = 0x0c;

pub const SPACE: u8 = 0x20;

pub const LPAREN: u8 = 0x28;

pub const RPAREN: u8 = 0x29;

pub const COLON: u8 = 0x3a;

pub const COMMA: u8 = 0x2c;

pub const DOT: u8 = 0x2e;

pub const DASH: u8 = 0x2d;

pub const UNDERSCORE: u8 = 0x5f;

/// The multi-byte words of the grammar.
#[derive(Clone, Copy)]
pub enum Token {
    Question,
    Brackets,
    StringKey,
    Bool,
    Int,
    Float,
    Str,
    Object,
    Arrow,
    Method,
    Error,
    Type,
    Interface,
}

/// The bytes of a token.
pub open spec fn token_bytes(t: Token) -> Seq<u8> {
    match t {
        Token::Question => seq![0x3fu8],
        Token::Brackets => seq![0x5bu8, 0x5d],
        Token::StringKey => seq![0x5bu8, 0x73, 0x74, 0x72, 0x69, 0x6e, 0x67, 0x5d],
        Token::Bool => seq![0x62u8, 0x6f, 0x6f, 0x6c],
        Token::Int => seq![0x69u8, 0x6e, 0x74],
        Token::Float => seq![0x66u8, 0x6c, 0x6f, 0x61, 0x74],
        Token::Str => seq![0x73u8, 0x74, 0x72, 0x69, 0x6e, 0x67],
        Token::Object => seq![0x6fu8, 0x62, 0x6a, 0x65, 0x63, 0x74],
        Token::Arrow => seq![0x2du8, 0x3e],
        Token::Method => seq![0x6du8, 0x65, 0x74, 0x68, 0x6f, 0x64],
        Token::Error => seq![0x65u8, 0x72, 0x72, 0x6f, 0x72],
        Token::Type => seq![0x74u8, 0x79, 0x70, 0x65],
        Token::Interface => seq![0x69u8, 0x6e, 0x74, 0x65, 0x72, 0x66, 0x61, 0x63, 0x65],
    }
}

/// The input holds token `t` at position `p`.
pub open spec fn has_token(b: Seq<u8>, p: int, t: Token) -> bool {
    0 <= p && p + token_bytes(t).len() <= b.len() && b.subrange(p, p + token_bytes(t).len())
        =~= token_bytes(t)
}

/// The input holds byte `c` at position `p`.
pub open spec fn byte_at(b: Seq<u8>, p: int, c: u8) -> bool {
    0 <= p < b.len() && b[p] == c
}

pub open spec fn is_alpha(c: u8) -> bool {
    (0x41 <= c <= 0x5a) || (0x61 <= c <= 0x7a)
}

pub open spec fn is_upper(c: u8) -> bool {
    0x41 <= c <= 0x5a
}

pub open spec fn is_alnum(c: u8) -> bool {
    is_alpha(c) || (0x30 <= c <= 0x39)
}

/// Classes of bytes that the grammar skips or collects in runs.
#[derive(Clone, Copy)]
pub enum ByteClass {
    /// Space, tab, carriage return, line feed.
    Multispace,
    /// ASCII whitespace: space, tab, line feed, form feed, carriage return.
    AsciiWhitespace,
    /// Space and tab.
    Blank,
    /// Letters and digits.
    Alnum,
    /// Letters, digits and the underscore.
    NameChar,
    /// Letters, digits and the dash.
    SegmentChar,
    /// Anything but a line feed.
    NotLf,
    /// Anything but a line feed or a carriage return.
    NotEol,
    /// Anything but a closing parenthesis.
    NotRParen,
    /// Anything but a colon.
    NotColon,
}

pub open spec fn in_class(c: u8, k: ByteClass) -> bool {
    match k {
        ByteClass::Multispace => c == SPACE || c == TAB || c == CR || c == LF,
        ByteClass::AsciiWhitespace => c == SPACE || c == TAB || c == LF || c == FF || c == CR,
        ByteClass::Blank => c == SPACE || c == TAB,
        ByteClass::Alnum => is_alnum(c),
        ByteClass::NameChar => is_alnum(c) || c == UNDERSCORE,
        ByteClass::SegmentChar => is_alnum(c) || c == DASH,
        ByteClass::NotLf => c != LF,
        ByteClass::NotEol => c != LF && c != CR,
        ByteClass::NotRParen => c != RPAREN,
        ByteClass::NotColon => c != COLON,
    }
}

/// The end of the run of bytes of class `k` that starts at `p`.
pub open spec fn run_end(b: Seq<u8>, p: int, k: ByteClass) -> int
    decreases b.len() - p,
{
    if 0 <= p < b.len() && in_class(b[p], k) {
        run_end(b, p + 1, k)
    } else {
        p
    }
}

pub proof fn lemma_run_end(b: Seq<u8>, p: int, k: ByteClass)
    requires
        0 <= p <= b.len(),
    ensures
        p <= run_end(b, p, k) <= b.len(),
        forall|i: int| p <= i < run_end(b, p, k) ==> in_class(#[trigger] b[i], k),
        run_end(b, p, k) == b.len() || !in_class(b[run_end(b, p, k)], k),
    decreases b.len() - p,
{
    if p < b.len() && in_class(b[p], k) {
        lemma_run_end(b, p + 1, k);
    }
}

/// The text between two byte positions.
pub open spec fn text(b: Seq<u8>, p: int, q: int) -> Seq<char> {
    decode_utf8(b.subrange(p, q))
}

/// Where a comment that runs up to `p` ends: after the line feed, carriage return, or pair of
/// them that closes its line, or at the end of the input.
pub open spec fn line_end(b: Seq<u8>, p: int) -> int {
    let e = run_end(b, p, ByteClass::NotEol);
    if e >= b.len() {
        e
    } else if b[e] == CR && byte_at(b, e + 1, LF) {
        e + 2
    } else {
        e + 1
    }
}

pub proof fn lemma_line_end(b: Seq<u8>, p: int)
    requires
        0 <= p <= b.len(),
    ensures
        p <= line_end(b, p) <= b.len(),
{
    lemma_run_end(b, p, ByteClass::NotEol);
}

/// The end of the whitespace and `#` comments that start at `p`.
pub open spec fn ws_end(b: Seq<u8>, p: int) -> int
    decreases b.len() - p,
{
    let q = run_end(b, p, ByteClass::Multispace);
    if 0 <= p <= b.len() && byte_at(b, q, HASH) {
        proof {
            lemma_run_end(b, p, ByteClass::Multispace);
            lemma_line_end(b, q + 1);
        }
        ws_end(b, line_end(b, q + 1))
    } else {
        q
    }
}

pub proof fn lemma_ws_end(b: Seq<u8>, p: int)
    requires
        0 <= p <= b.len(),
    ensures
        p <= ws_end(b, p) <= b.len(),
    decreases b.len() - p,
{
    let q = run_end(b, p, ByteClass::Multispace);
    lemma_run_end(b, p, ByteClass::Multispace);
    if byte_at(b, q, HASH) {
        lemma_line_end(b, q + 1);
        lemma_ws_end(b, line_end(b, q + 1));
    }
}

/// The whitespace of the grammar is space, tab, carriage return and line feed: a run of
/// whitespace, and a run of whitespace and comments, from any of these bytes ends where it ends
/// from the byte after it; so text with CR LF line ends reads as it does with LF alone. No other
/// byte is whitespace: a run of whitespace from any other byte is empty.
pub proof fn law_multispace(b: Seq<u8>, p: int)
    requires
        0 <= p < b.len(),
    ensures
        (b[p] == SPACE || b[p] == TAB || b[p] == CR || b[p] == LF) ==> {
            &&& run_end(b, p, ByteClass::Multispace) == run_end(b, p + 1, ByteClass::Multispace)
            &&& ws_end(b, p) == ws_end(b, p + 1)
        },
        !(b[p] == SPACE || b[p] == TAB || b[p] == CR || b[p] == LF) ==> run_end(
            b,
            p,
            ByteClass::Multispace,
        ) == p,
{
    if b[p] == SPACE || b[p] == TAB || b[p] == CR || b[p] == LF {
        assert(run_end(b, p, ByteClass::Multispace) == run_end(b, p + 1, ByteClass::Multispace));
        lemma_run_end(b, p + 1, ByteClass::Multispace);
        let q = run_end(b, p + 1, ByteClass::Multispace);
        if byte_at(b, q, HASH) {
            assert(ws_end(b, p) == ws_end(b, line_end(b, q + 1)));
        }
    }
}

/// Whitespace and comments end at their start, at the end of the input, or after an ASCII byte.
pub proof fn lemma_ws_end_after_ascii(b: Seq<u8>, p: int)
    requires
        0 <= p <= b.len(),
    ensures
        ws_end(b, p) == p || ws_end(b, p) == b.len() || b[ws_end(b, p) - 1] < 0x80,
    decreases b.len() - p,
{
    let q = run_end(b, p, ByteClass::Multispace);
    lemma_run_end(b, p, ByteClass::Multispace);
    if byte_at(b, q, HASH) {
        let l = line_end(b, q + 1);
        lemma_line_end(b, q + 1);
        lemma_run_end(b, q + 1, ByteClass::NotEol);
        lemma_ws_end(b, l);
        lemma_ws_end_after_ascii(b, l);
        if ws_end(b, l) == l && l < b.len() {
            let e = run_end(b, q + 1, ByteClass::NotEol);
            assert(b[e] == LF || b[e] == CR);
        }
    } else if q > p {
        assert(in_class(b[q - 1], ByteClass::Multispace));
    }
}

/// A comment at `p`: `#`, blanks, and the text up to the next line feed.
pub open spec fn comment_at(b: Seq<u8>, p: int) -> Outcome<Seq<char>> {
    if byte_at(b, p, HASH) {
        let t = run_end(b, p + 1, ByteClass::Blank);
        let r = run_end(b, t, ByteClass::NotLf);
        Outcome::Parsed(text(b, t, r), r)
    } else {
        Outcome::Failed(p)
    }
}

/// The comments that precede an item at `p`, and where the item starts.
///
/// Each comment is a `#`, blanks, and the text up to the next line feed; whitespace may stand
/// around them. Without a comment the position stays where it was, except that whitespace up to
/// the end of the input is passed over.
pub open spec fn comments_at(b: Seq<u8>, p: int) -> (Seq<Seq<char>>, int)
    decreases b.len() - p,
{
    if !(0 <= p < b.len()) {
        (seq![], p)
    } else {
        let q = run_end(b, p, ByteClass::Multispace);
        if q >= b.len() {
            (seq![], q)
        } else if b[q] == HASH {
            let t = run_end(b, q + 1, ByteClass::Blank);
            let r = run_end(b, t, ByteClass::NotLf);
            let s = run_end(b, r, ByteClass::Multispace);
            proof {
                lemma_run_end(b, p, ByteClass::Multispace);
                lemma_run_end(b, q + 1, ByteClass::Blank);
                lemma_run_end(b, t, ByteClass::NotLf);
                lemma_run_end(b, r, ByteClass::Multispace);
            }
            let rest = comments_at(b, s);
            (seq![text(b, t, r)] + rest.0, rest.1)
        } else {
            (seq![], p)
        }
    }
}

pub proof fn lemma_comments_at(b: Seq<u8>, p: int)
    requires
        0 <= p <= b.len(),
    ensures
        p <= comments_at(b, p).1 <= b.len(),
    decreases b.len() - p,
{
    if p < b.len() {
        let q = run_end(b, p, ByteClass::Multispace);
        lemma_run_end(b, p, ByteClass::Multispace);
        if q < b.len() && b[q] == HASH {
            let t = run_end(b, q + 1, ByteClass::Blank);
            let r = run_end(b, t, ByteClass::NotLf);
            lemma_run_end(b, q + 1, ByteClass::Blank);
            lemma_run_end(b, t, ByteClass::NotLf);
            lemma_run_end(b, r, ByteClass::Multispace);
            lemma_comments_at(b, run_end(b, r, ByteClass::Multispace));
        }
    }
}

/// The end of a field name (a letter, then letters, digits and underscores) at `p`.
pub open spec fn field_name_end(b: Seq<u8>, p: int) -> Option<int> {
    if 0 <= p < b.len() && is_alpha(b[p]) {
        Some(run_end(b, p + 1, ByteClass::NameChar))
    } else {
        None
    }
}

/// The end of a type name (an upper-case letter, then letters and digits) at `p`.
pub open spec fn type_name_end(b: Seq<u8>, p: int) -> Option<int> {
    if 0 <= p < b.len() && is_upper(b[p]) {
        Some(run_end(b, p + 1, ByteClass::Alnum))
    } else {
        None
    }
}

pub proof fn lemma_name_ends(b: Seq<u8>, p: int)
    requires
        0 <= p <= b.len(),
    ensures
        field_name_end(b, p) matches Some(e) ==> p < e <= b.len(),
        type_name_end(b, p) matches Some(e) ==> p < e <= b.len(),
{
    if p < b.len() {
        lemma_run_end(b, p + 1, ByteClass::NameChar);
        lemma_run_end(b, p + 1, ByteClass::Alnum);
    }
}

/// Where the letters and digits of a run of letters, digits and dashes from `s` to `r` end: the
/// run without the dashes at its end.
pub open spec fn alnum_run_end(b: Seq<u8>, s: int, r: int) -> int
    decreases r - s,
{
    if r <= s || !(0 < r <= b.len()) || is_alnum(b[r - 1]) {
        r
    } else {
        alnum_run_end(b, s, r - 1)
    }
}

/// The end of the rest of a name segment from `s`, right after its first letter or digit:
/// dashes and letters or digits, `([-]*[A-Za-z0-9])*`, as far as they go.
pub open spec fn segment_end(b: Seq<u8>, s: int) -> int {
    alnum_run_end(b, s, run_end(b, s, ByteClass::SegmentChar))
}

proof fn lemma_alnum_run_end(b: Seq<u8>, s: int, r: int)
    requires
        0 <= s <= r <= b.len(),
    ensures
        s <= alnum_run_end(b, s, r) <= r,
        alnum_run_end(b, s, r) == s || is_alnum(b[alnum_run_end(b, s, r) - 1]),
    decreases r - s,
{
    if r > s && !is_alnum(b[r - 1]) {
        lemma_alnum_run_end(b, s, r - 1);
    }
}

pub proof fn lemma_segment_end(b: Seq<u8>, s: int)
    requires
        0 <= s <= b.len(),
    ensures
        s <= segment_end(b, s) <= run_end(b, s, ByteClass::SegmentChar) <= b.len(),
        segment_end(b, s) == s || is_alnum(b[segment_end(b, s) - 1]),
        forall|i: int| s <= i < segment_end(b, s) ==> in_class(#[trigger] b[i], ByteClass::SegmentChar),
{
    lemma_run_end(b, s, ByteClass::SegmentChar);
    lemma_alnum_run_end(b, s, run_end(b, s, ByteClass::SegmentChar));
}

/// Whether a dot at `q` starts another segment: a dot, then a letter or digit.
pub open spec fn dot_segment_at(b: Seq<u8>, q: int) -> bool {
    byte_at(b, q, DOT) && q + 1 < b.len() && is_alnum(b[q + 1])
}

/// The end of the dotted segments of an interface name from `q`: each a dot, a letter or digit,
/// and the rest of the segment.
pub open spec fn dotted_end(b: Seq<u8>, q: int) -> int
    decreases b.len() - q,
{
    if dot_segment_at(b, q) && 0 <= q {
        proof {
            lemma_segment_end(b, q + 2);
        }
        dotted_end(b, segment_end(b, q + 2))
    } else {
        q
    }
}

pub proof fn lemma_dotted_end(b: Seq<u8>, q: int)
    requires
        0 <= q <= b.len(),
    ensures
        q <= dotted_end(b, q) <= b.len(),
    decreases b.len() - q,
{
    if dot_segment_at(b, q) {
        lemma_segment_end(b, q + 2);
        lemma_dotted_end(b, segment_end(b, q + 2));
    }
}

/// The end of an interface name in reverse-domain notation at `p`:
/// `[A-Za-z]([-]*[A-Za-z0-9])*(\.[A-Za-z0-9]([-]*[A-Za-z0-9])*)+`, as far as it goes.
pub open spec fn interface_name_end(b: Seq<u8>, p: int) -> Option<int> {
    if 0 <= p < b.len() && is_alpha(b[p]) {
        let e = segment_end(b, p + 1);
        if dot_segment_at(b, e) {
            Some(dotted_end(b, e))
        } else {
            None
        }
    } else {
        None
    }
}

/// A field with its comments, its name and its type.
pub open spec fn field_at(b: Seq<u8>, p: int) -> Outcome<FieldModel>
    decreases b.len() - p, 1int,
{
    if !(0 <= p <= b.len()) {
        Outcome::Failed(p)
    } else {
        let (cs, p1) = comments_at(b, p);
        match field_name_end(b, p1) {
            None => Outcome::Failed(p1),
            Some(e) => {
                let p2 = ws_end(b, e);
                if !byte_at(b, p2, COLON) {
                    Outcome::Failed(p2)
                } else {
                    let p3 = ws_end(b, p2 + 1);
                    proof {
                        lemma_comments_at(b, p);
                        lemma_name_ends(b, p1);
                        lemma_ws_end(b, e);
                        lemma_ws_end(b, p2 + 1);
                    }
                    match type_at(b, p3) {
                        Outcome::Parsed(t, p4) => Outcome::Parsed(
                            FieldModel { name: text(b, p1, e), ty: t, comments: cs },
                            p4,
                        ),
                        o => relay(o),
                    }
                }
            },
        }
    }
}

/// The fields that follow a first one, each after a comma.
pub open spec fn fields_tail(b: Seq<u8>, q: int) -> Outcome<Seq<FieldModel>>
    decreases b.len() - q, 2int,
{
    if !(0 <= q <= b.len()) {
        Outcome::Parsed(seq![], q)
    } else {
        let s1 = ws_end(b, q);
        if !byte_at(b, s1, COMMA) {
            Outcome::Parsed(seq![], q)
        } else {
            let s2 = ws_end(b, s1 + 1);
            proof {
                lemma_ws_end(b, q);
                lemma_ws_end(b, s1 + 1);
            }
            match field_at(b, s2) {
                Outcome::Parsed(f, r) => if q < r <= b.len() {
                    match fields_tail(b, r) {
                        Outcome::Parsed(fs, e) => Outcome::Parsed(seq![f] + fs, e),
                        o => o,
                    }
                } else {
                    Outcome::Panicked
                },
                Outcome::Failed(_) => Outcome::Parsed(seq![], q),
                Outcome::Panicked => Outcome::Panicked,
            }
        }
    }
}

/// Fields separated by commas; possibly none.
pub open spec fn fields_at(b: Seq<u8>, p: int) -> Outcome<Seq<FieldModel>>
    decreases b.len() - p, 2int,
{
    match field_at(b, p) {
        Outcome::Parsed(f, q) => if p < q <= b.len() {
            match fields_tail(b, q) {
                Outcome::Parsed(fs, e) => Outcome::Parsed(seq![f] + fs, e),
                o => o,
            }
        } else {
            Outcome::Panicked
        },
        Outcome::Failed(_) => Outcome::Parsed(seq![], p),
        Outcome::Panicked => Outcome::Panicked,
    }
}

/// An inline struct: fields between parentheses.
pub open spec fn struct_at(b: Seq<u8>, p: int) -> Outcome<TypeModel>
    decreases b.len() - p, 3int,
{
    if !(0 <= p <= b.len()) || !byte_at(b, p, LPAREN) {
        Outcome::Failed(p)
    } else {
        proof {
            lemma_ws_end(b, p + 1);
        }
        match fields_at(b, ws_end(b, p + 1)) {
            Outcome::Parsed(fs, p2) => {
                let p3 = ws_end(b, p2);
                if byte_at(b, p3, RPAREN) {
                    Outcome::Parsed(TypeModel::Object(fs), p3 + 1)
                } else {
                    Outcome::Failed(p3)
                }
            },
            o => relay(o),
        }
    }
}

/// The names that follow a first one, each after a comma.
pub open spec fn names_tail(b: Seq<u8>, q: int) -> (Seq<Seq<char>>, int)
    decreases b.len() - q,
{
    if !(0 <= q <= b.len()) {
        (seq![], q)
    } else {
        let s1 = ws_end(b, q);
        if !byte_at(b, s1, COMMA) {
            (seq![], q)
        } else {
            let s2 = ws_end(b, s1 + 1);
            proof {
                lemma_ws_end(b, q);
                lemma_ws_end(b, s1 + 1);
                lemma_name_ends(b, s2);
            }
            match field_name_end(b, s2) {
                Some(e) => {
                    let rest = names_tail(b, e);
                    (seq![text(b, s2, e)] + rest.0, rest.1)
                },
                None => (seq![], q),
            }
        }
    }
}

/// The variant of an inline enum with the given name.
pub open spec fn plain_variant(name: Seq<char>) -> VariantModel {
    VariantModel { name, comments: seq![] }
}

/// The names of an inline enum, from the first one on.
pub open spec fn enum_names(b: Seq<u8>, p: int) -> (Seq<Seq<char>>, int) {
    match field_name_end(b, p) {
        Some(e) => {
            let rest = names_tail(b, e);
            (seq![text(b, p, e)] + rest.0, rest.1)
        },
        None => (seq![], p),
    }
}

/// An inline enum: names between parentheses.
pub open spec fn enum_at(b: Seq<u8>, p: int) -> Outcome<TypeModel> {
    if !(0 <= p <= b.len()) || !byte_at(b, p, LPAREN) {
        Outcome::Failed(p)
    } else {
        let (names, p2) = enum_names(b, ws_end(b, p + 1));
        let p3 = ws_end(b, p2);
        if byte_at(b, p3, RPAREN) {
            Outcome::Parsed(TypeModel::Enum(names.map_values(|n: Seq<char>| plain_variant(n))), p3 + 1)
        } else {
            Outcome::Failed(p3)
        }
    }
}

/// An inline struct or enum, told apart by a colon before the first closing parenthesis.
pub open spec fn inline_at(b: Seq<u8>, p: int) -> Outcome<TypeModel>
    decreases b.len() - p, 4int,
{
    let q = run_end(b, p, ByteClass::NotRParen);
    if !(0 <= p <= b.len()) || q >= b.len() {
        Outcome::Failed(p)
    } else if q == p {
        Outcome::Panicked
    } else if run_end(b, p + 1, ByteClass::NotColon) < q {
        struct_at(b, p)
    } else {
        enum_at(b, p)
    }
}

/// A primitive type, a custom type name, or an inline type.
pub open spec fn element_at(b: Seq<u8>, p: int) -> Outcome<TypeModel>
    decreases b.len() - p, 5int,
{
    if has_token(b, p, Token::Bool) {
        Outcome::Parsed(TypeModel::Bool, p + 4)
    } else if has_token(b, p, Token::Int) {
        Outcome::Parsed(TypeModel::Int, p + 3)
    } else if has_token(b, p, Token::Float) {
        Outcome::Parsed(TypeModel::Float, p + 5)
    } else if has_token(b, p, Token::Str) {
        Outcome::Parsed(TypeModel::String, p + 6)
    } else if has_token(b, p, Token::Object) {
        Outcome::Parsed(TypeModel::ForeignObject, p + 6)
    } else {
        match type_name_end(b, p) {
            Some(e) => Outcome::Parsed(TypeModel::Custom(text(b, p, e)), e),
            None => inline_at(b, p),
        }
    }
}

/// A map type: `[string]` and the value type.
pub open spec fn dict_at(b: Seq<u8>, p: int) -> Outcome<TypeModel>
    decreases b.len() - p, 6int,
{
    if has_token(b, p, Token::StringKey) {
        match type_at(b, p + 8) {
            Outcome::Parsed(t, q) => Outcome::Parsed(TypeModel::Dict(Box::new(t)), q),
            o => o,
        }
    } else {
        Outcome::Failed(p)
    }
}

/// An array type: `[]` and the element type.
pub open spec fn array_at(b: Seq<u8>, p: int) -> Outcome<TypeModel>
    decreases b.len() - p, 7int,
{
    if has_token(b, p, Token::Brackets) {
        match type_at(b, p + 2) {
            Outcome::Parsed(t, q) => Outcome::Parsed(TypeModel::Array(Box::new(t)), q),
            o => o,
        }
    } else {
        Outcome::Failed(p)
    }
}

/// An optional type: `?` and a type that is not itself optional.
pub open spec fn optional_at(b: Seq<u8>, p: int) -> Outcome<TypeModel>
    decreases b.len() - p, 8int,
{
    if has_token(b, p, Token::Question) {
        match non_optional_at(b, p + 1) {
            Outcome::Parsed(t, q) => Outcome::Parsed(TypeModel::Optional(Box::new(t)), q),
            o => o,
        }
    } else {
        Outcome::Failed(p)
    }
}

/// The first of the given alternatives that does not fail; failing all, the last one's failure.
pub open spec fn first_of(a: Outcome<TypeModel>, rest: Outcome<TypeModel>) -> Outcome<TypeModel> {
    match a {
        Outcome::Failed(_) => rest,
        _ => a,
    }
}

/// An array, map or element type.
pub open spec fn non_optional_at(b: Seq<u8>, p: int) -> Outcome<TypeModel>
    decreases b.len() - p, 9int,
{
    first_of(array_at(b, p), first_of(dict_at(b, p), element_at(b, p)))
}

/// Any Varlink type.
pub open spec fn type_at(b: Seq<u8>, p: int) -> Outcome<TypeModel>
    decreases b.len() - p, 10int,
{
    first_of(optional_at(b, p), first_of(array_at(b, p), first_of(dict_at(b, p), element_at(b, p))))
}

/// Parameters after the opening parenthesis of a list: fields, each followed by a comma or by
/// the closing parenthesis.
pub open spec fn params_tail(b: Seq<u8>, q: int) -> Outcome<Seq<FieldModel>>
    decreases b.len() - q,
{
    match field_at(b, q) {
        Outcome::Parsed(f, r) => {
            let s = run_end(b, r, ByteClass::Multispace);
            if byte_at(b, s, COMMA) {
                let t = run_end(b, s + 1, ByteClass::Multispace);
                if q < t <= b.len() {
                    match params_tail(b, t) {
                        Outcome::Parsed(fs, e) => Outcome::Parsed(seq![f] + fs, e),
                        o => o,
                    }
                } else {
                    Outcome::Panicked
                }
            } else if byte_at(b, s, RPAREN) {
                Outcome::Parsed(seq![f], s + 1)
            } else {
                Outcome::Failed(s)
            }
        },
        o => relay(o),
    }
}

/// A parameter list: fields between parentheses, separated by commas.
#[verifier::opaque]
pub open spec fn params_at(b: Seq<u8>, p: int) -> Outcome<Seq<FieldModel>> {
    if !byte_at(b, p, LPAREN) {
        Outcome::Failed(p)
    } else {
        let p1 = run_end(b, p + 1, ByteClass::Multispace);
        if byte_at(b, p1, RPAREN) {
            Outcome::Parsed(seq![], p1 + 1)
        } else {
            params_tail(b, p1)
        }
    }
}

/// A keyword followed by at least one byte of ASCII whitespace: where the whitespace ends.
pub open spec fn keyword_at(b: Seq<u8>, p: int, t: Token) -> Outcome<()> {
    if !has_token(b, p, t) {
        Outcome::Failed(p)
    } else {
        let q = p + token_bytes(t).len();
        let e = run_end(b, q, ByteClass::AsciiWhitespace);
        if e == q {
            Outcome::Failed(q)
        } else {
            Outcome::Parsed((), e)
        }
    }
}

/// A method definition: comments, `method`, a type name, the inputs, `->` and the outputs.
#[verifier::opaque]
pub open spec fn method_at(b: Seq<u8>, p: int) -> Outcome<MethodModel> {
    let (cs, p1) = comments_at(b, p);
    match keyword_at(b, p1, Token::Method) {
        Outcome::Parsed(_, e) => match type_name_end(b, e) {
            None => Outcome::Failed(e),
            Some(n) => match params_at(b, ws_end(b, n)) {
                Outcome::Parsed(ins, p4) => {
                    let p5 = ws_end(b, p4);
                    if !has_token(b, p5, Token::Arrow) {
                        Outcome::Failed(p5)
                    } else {
                        match params_at(b, ws_end(b, p5 + 2)) {
                            Outcome::Parsed(outs, p7) => Outcome::Parsed(
                                MethodModel {
                                    name: text(b, e, n),
                                    inputs: ins,
                                    outputs: outs,
                                    comments: cs,
                                },
                                p7,
                            ),
                            o => relay(o),
                        }
                    }
                },
                o => relay(o),
            },
        },
        o => relay(o),
    }
}

/// An error definition: comments, `error`, a type name and the fields.
#[verifier::opaque]
pub open spec fn error_at(b: Seq<u8>, p: int) -> Outcome<ErrorModel> {
    let (cs, p1) = comments_at(b, p);
    match keyword_at(b, p1, Token::Error) {
        Outcome::Parsed(_, e) => match type_name_end(b, e) {
            None => Outcome::Failed(e),
            Some(n) => match params_at(b, ws_end(b, n)) {
                Outcome::Parsed(fs, q) => Outcome::Parsed(
                    ErrorModel { name: text(b, e, n), fields: fs, comments: cs },
                    q,
                ),
                o => relay(o),
            },
        },
        o => relay(o),
    }
}

/// A member of a named type definition: a name with a type (a field), or without (a variant).
pub struct MemberModel {
    pub name: Seq<char>,
    pub ty: Option<TypeModel>,
    pub comments: Seq<Seq<char>>,
}

/// One member of a named type definition, up to the byte after it.
#[verifier::opaque]
pub open spec fn member_at(b: Seq<u8>, q: int) -> Outcome<MemberModel> {
    let (cs, q1) = comments_at(b, q);
    match field_name_end(b, q1) {
        None => Outcome::Failed(q1),
        Some(e) => {
            let q2 = run_end(b, e, ByteClass::Multispace);
            if byte_at(b, q2, COLON) {
                match type_at(b, run_end(b, q2 + 1, ByteClass::Multispace)) {
                    Outcome::Parsed(t, q4) => Outcome::Parsed(
                        MemberModel { name: text(b, q1, e), ty: Some(t), comments: cs },
                        q4,
                    ),
                    o => relay(o),
                }
            } else {
                Outcome::Parsed(MemberModel { name: text(b, q1, e), ty: None, comments: cs }, q2)
            }
        },
    }
}

/// The members of a named type definition, each followed by a comma or by the closing
/// parenthesis.
pub open spec fn members_tail(b: Seq<u8>, q: int) -> Outcome<Seq<MemberModel>>
    decreases b.len() - q,
{
    match member_at(b, q) {
        Outcome::Parsed(m, r) => {
            let s = run_end(b, r, ByteClass::Multispace);
            if byte_at(b, s, COMMA) {
                let t = run_end(b, s + 1, ByteClass::Multispace);
                if q < t <= b.len() {
                    match members_tail(b, t) {
                        Outcome::Parsed(ms, e) => Outcome::Parsed(seq![m] + ms, e),
                        o => o,
                    }
                } else {
                    Outcome::Panicked
                }
            } else if byte_at(b, s, RPAREN) {
                Outcome::Parsed(seq![m], s + 1)
            } else {
                Outcome::Failed(s)
            }
        },
        o => relay(o),
    }
}

/// The field that a typed member stands for.
pub open spec fn member_field(m: MemberModel) -> FieldModel {
    FieldModel { name: m.name, ty: m.ty->0, comments: m.comments }
}

/// The variant that an untyped member stands for.
pub open spec fn member_variant(m: MemberModel) -> VariantModel {
    VariantModel { name: m.name, comments: m.comments }
}

/// A named type definition: comments, `type`, a type name, and members between parentheses.
/// With no members, or only typed ones, it is an object; with only untyped ones, an enum; with
/// both, it fails after the closing parenthesis.
#[verifier::opaque]
pub open spec fn type_def_at(b: Seq<u8>, p: int) -> Outcome<CustomTypeModel> {
    let (cs, p1) = comments_at(b, p);
    match keyword_at(b, p1, Token::Type) {
        Outcome::Parsed(_, e) => match type_name_end(b, e) {
            None => Outcome::Failed(e),
            Some(n) => {
                let name = text(b, e, n);
                let p3 = ws_end(b, n);
                if !byte_at(b, p3, LPAREN) {
                    Outcome::Failed(p3)
                } else {
                    let p4 = run_end(b, p3 + 1, ByteClass::Multispace);
                    if byte_at(b, p4, RPAREN) {
                        Outcome::Parsed(
                            CustomTypeModel::Object(
                                ObjectModel { name, fields: seq![], comments: cs },
                            ),
                            p4 + 1,
                        )
                    } else {
                        match members_tail(b, p4) {
                            Outcome::Parsed(ms, end) => {
                                let typed = exists|i: int|
                                    0 <= i < ms.len() && (#[trigger] ms[i]).ty is Some;
                                let untyped = exists|i: int|
                                    0 <= i < ms.len() && (#[trigger] ms[i]).ty is None;
                                if typed && untyped {
                                    Outcome::Failed(end)
                                } else if typed {
                                    Outcome::Parsed(
                                        CustomTypeModel::Object(
                                            ObjectModel {
                                                name,
                                                fields: ms.map_values(
                                                    |m: MemberModel| member_field(m),
                                                ),
                                                comments: cs,
                                            },
                                        ),
                                        end,
                                    )
                                } else {
                                    Outcome::Parsed(
                                        CustomTypeModel::Enum(
                                            EnumModel {
                                                name,
                                                variants: ms.map_values(
                                                    |m: MemberModel| member_variant(m),
                                                ),
                                                comments: cs,
                                            },
                                        ),
                                        end,
                                    )
                                }
                            },
                            o => relay(o),
                        }
                    }
                }
            },
        },
        o => relay(o),
    }
}

/// The members of an interface, by kind, each kind in the order of declaration.
pub struct MembersModel {
    pub methods: Seq<MethodModel>,
    pub custom_types: Seq<CustomTypeModel>,
    pub errors: Seq<ErrorModel>,
}

/// Members read after the members `acc`: all of them, where reading stopped.
pub open spec fn after_members(acc: MembersModel, o: Outcome<MembersModel>) -> Outcome<MembersModel> {
    match o {
        Outcome::Parsed(m, e) => Outcome::Parsed(
            MembersModel {
                methods: acc.methods + m.methods,
                custom_types: acc.custom_types + m.custom_types,
                errors: acc.errors + m.errors,
            },
            e,
        ),
        _ => o,
    }
}

pub proof fn lemma_after_members(acc: MembersModel, one: MembersModel, o: Outcome<MembersModel>)
    ensures
        after_members(acc, after_members(one, o)) == after_members(
            MembersModel {
                methods: acc.methods + one.methods,
                custom_types: acc.custom_types + one.custom_types,
                errors: acc.errors + one.errors,
            },
            o,
        ),
{
    if let Outcome::Parsed(m, e) = o {
        assert(acc.methods + (one.methods + m.methods) =~= acc.methods + one.methods + m.methods);
        assert(acc.custom_types + (one.custom_types + m.custom_types) =~= acc.custom_types
            + one.custom_types + m.custom_types);
        assert(acc.errors + (one.errors + m.errors) =~= acc.errors + one.errors + m.errors);
    }
}

pub proof fn lemma_after_members_none(o: Outcome<MembersModel>)
    ensures
        after_members(MembersModel { methods: seq![], custom_types: seq![], errors: seq![] }, o) == o,
{
    if let Outcome::Parsed(m, e) = o {
        assert(seq![] + m.methods =~= m.methods);
        assert(seq![] + m.custom_types =~= m.custom_types);
        assert(seq![] + m.errors =~= m.errors);
    }
}

pub proof fn lemma_after_members_none_right(acc: MembersModel)
    ensures
        forall|e: int| #[trigger] after_members(acc, Outcome::Parsed(
            MembersModel { methods: seq![], custom_types: seq![], errors: seq![] }, e)) == Outcome::Parsed(acc, e),
{
    assert(acc.methods + seq![] =~= acc.methods);
    assert(acc.custom_types + seq![] =~= acc.custom_types);
    assert(acc.errors + seq![] =~= acc.errors);
}

/// The members of an interface from `q` on. Reading stops at the end of the input, or where no
/// member can be read: then at the position where reading an error definition failed.
pub open spec fn members_at(b: Seq<u8>, q: int) -> Outcome<MembersModel>
    decreases b.len() - q,
{
    let none = MembersModel { methods: seq![], custom_types: seq![], errors: seq![] };
    if !(0 <= q < b.len()) {
        Outcome::Parsed(none, q)
    } else {
        let q1 = run_end(b, q, ByteClass::Multispace);
        if q1 >= b.len() {
            Outcome::Parsed(none, q1)
        } else {
            match type_def_at(b, q1) {
                Outcome::Parsed(t, r) => if q < r <= b.len() {
                    match members_at(b, r) {
                        Outcome::Parsed(m, e) => Outcome::Parsed(
                            MembersModel { custom_types: seq![t] + m.custom_types, ..m },
                            e,
                        ),
                        o => o,
                    }
                } else {
                    Outcome::Panicked
                },
                Outcome::Panicked => Outcome::Panicked,
                Outcome::Failed(_) => match method_at(b, q1) {
                    Outcome::Parsed(x, r) => if q < r <= b.len() {
                        match members_at(b, r) {
                            Outcome::Parsed(m, e) => Outcome::Parsed(
                                MembersModel { methods: seq![x] + m.methods, ..m },
                                e,
                            ),
                            o => o,
                        }
                    } else {
                        Outcome::Panicked
                    },
                    Outcome::Panicked => Outcome::Panicked,
                    Outcome::Failed(_) => match error_at(b, q1) {
                        Outcome::Parsed(x, r) => if q < r <= b.len() {
                            match members_at(b, r) {
                                Outcome::Parsed(m, e) => Outcome::Parsed(
                                    MembersModel { errors: seq![x] + m.errors, ..m },
                                    e,
                                ),
                                o => o,
                            }
                        } else {
                            Outcome::Panicked
                        },
                        Outcome::Panicked => Outcome::Panicked,
                        Outcome::Failed(x) => Outcome::Parsed(none, x),
                    },
                },
            }
        }
    }
}

/// An interface definition: comments, `interface`, its name, and its members.
pub open spec fn interface_at(b: Seq<u8>, p: int) -> Outcome<InterfaceModel> {
    let (cs, p1) = comments_at(b, p);
    match keyword_at(b, p1, Token::Interface) {
        Outcome::Parsed(_, e) => match interface_name_end(b, e) {
            None => Outcome::Failed(e),
            Some(n) => match members_at(b, run_end(b, n, ByteClass::Multispace)) {
                Outcome::Parsed(m, end) => Outcome::Parsed(
                    InterfaceModel {
                        name: text(b, e, n),
                        methods: m.methods,
                        custom_types: m.custom_types,
                        errors: m.errors,
                        comments: cs,
                    },
                    end,
                ),
                o => relay(o),
            },
        },
        o => relay(o),
    }
}

} // verus!

//! Reading back the IDL text of a definition gives the definition.
//!
//! The text that the `to_string` methods of types, fields, methods, errors, named type
//! definitions and interfaces write, given to the matching `parse_*` function, is read as the same
//! definition, wherever that text stands for the definition alone: its names are well formed, it
//! has no comments that its text leaves out, its comments read back from their lines, and it has
//! none of the few shapes whose text reads as something else (an optional optional type, an empty
//! inline object, an empty named enum, a method without outputs, variants with comments).
//! Each `law_*` function states this for one kind of definition, with the exact conditions.

use vstd::prelude::*;
use vstd::utf8::*;
use super::grammar::{
    array_at, byte_at, comments_at, dict_at, dotted_end, element_at, enum_at, enum_names, error_at,
    field_at, field_name_end, fields_at, fields_tail, has_token, in_class, inline_at,
    interface_at, interface_name_end, dot_segment_at, segment_end, lemma_segment_end, is_alnum, is_alpha, is_upper, keyword_at, lemma_run_end,
    member_at, member_field, member_variant, members_at, members_tail, method_at, names_tail,
    non_optional_at, optional_at, params_at, params_tail, plain_variant, run_end, struct_at, text,
    token_bytes, type_at, type_def_at, type_name_end, ws_end, ByteClass, MemberModel,
    MembersModel, Outcome, Token, DOT, HASH, SPACE,
};
use super::model::{
    CustomTypeModel, ErrorModel, FieldModel, InterfaceModel, MethodModel, TypeModel, VariantModel,
};
use super::parse::{idl_bytes, parse_result};
use super::render::{
    any_commented, blocks, comment_lines, custom_type_text, error_text, field_text, field_texts,
    interface_text, joined, method_text, type_text, variant_text, variants_text,
};
use crate::text::{is_white_space, trimmed};

verus! {

broadcast use encode_utf8_valid_utf8, encode_utf8_decode_utf8;

/// Every character of the text is ASCII.
pub open spec fn is_ascii_text(s: Seq<char>) -> bool {
    forall|i: int| 0 <= i < s.len() ==> (#[trigger] s[i] as u32) < 0x80
}

/// The bytes of an ASCII text: one per character.
pub open spec fn ascii_bytes(s: Seq<char>) -> Seq<u8> {
    s.map_values(|c: char| (c as u32) as u8)
}

proof fn lemma_encode_ascii_char(v: u32)
    requires
        v < 0x80,
    ensures
        (v & 0x7F) as u8 == v as u8,
{
    assert((v & 0x7F) as u8 == v as u8) by (bit_vector)
        requires
            v < 0x80,
    ;
}

/// The UTF-8 encoding of an ASCII text is its bytes, one per character.
pub proof fn lemma_encode_ascii(s: Seq<char>)
    requires
        is_ascii_text(s),
    ensures
        encode_utf8(s) == ascii_bytes(s),
    decreases s.len(),
{
    if s.len() > 0 {
        let v = s[0] as u32;
        lemma_encode_ascii_char(v);
        assert(is_ascii_text(s.drop_first()));
        lemma_encode_ascii(s.drop_first());
        assert(encode_scalar(v) =~= seq![v as u8]);
        assert(ascii_bytes(s) =~= seq![v as u8] + ascii_bytes(s.drop_first()));
    } else {
        assert(ascii_bytes(s) =~= Seq::<u8>::empty());
    }
}

/// The bytes of an ASCII text decode to the text.
pub proof fn lemma_decode_ascii(s: Seq<char>)
    requires
        is_ascii_text(s),
    ensures
        decode_utf8(ascii_bytes(s)) == s,
{
    lemma_encode_ascii(s);
}

/// The byte of an ASCII character.
pub open spec fn char_byte(c: char) -> u8 {
    (c as u32) as u8
}

/// The input holds the bytes of the ASCII text `s` at position `p`.
pub open spec fn holds_text(b: Seq<u8>, p: int, s: Seq<char>) -> bool {
    &&& 0 <= p
    &&& p + s.len() <= b.len()
    &&& forall|i: int| 0 <= i < s.len() ==> b[p + i] == char_byte(#[trigger] s[i])
}

proof fn lemma_holds_concat(b: Seq<u8>, p: int, s1: Seq<char>, s2: Seq<char>)
    ensures
        holds_text(b, p, s1 + s2) <==> holds_text(b, p, s1) && holds_text(b, p + s1.len(), s2),
{
    let s = s1 + s2;
    if holds_text(b, p, s) {
        assert forall|i: int| 0 <= i < s1.len() implies b[p + i] == char_byte(#[trigger] s1[i]) by {
            assert(s[i] == s1[i]);
        }
        assert forall|i: int| 0 <= i < s2.len() implies b[p + s1.len() + i] == char_byte(
            #[trigger] s2[i],
        ) by {
            assert(s[s1.len() + i] == s2[i]);
        }
    }
    if holds_text(b, p, s1) && holds_text(b, p + s1.len(), s2) {
        assert forall|i: int| 0 <= i < s.len() implies b[p + i] == char_byte(#[trigger] s[i]) by {
            if i < s1.len() {
                assert(s1[i] == s[i]);
            } else {
                assert(s2[i - s1.len()] == s[i]);
            }
        }
    }
}

/// A run of bytes of a class ends at the first byte outside it.
proof fn lemma_run_to(b: Seq<u8>, p: int, e: int, k: ByteClass)
    requires
        0 <= p <= e <= b.len(),
        forall|i: int| p <= i < e ==> in_class(#[trigger] b[i], k),
        e == b.len() || !in_class(b[e], k),
    ensures
        run_end(b, p, k) == e,
    decreases e - p,
{
    if p < e {
        lemma_run_to(b, p + 1, e, k);
    }
}

/// The bytes between two positions decode to the ASCII text they hold.
proof fn lemma_text_of(b: Seq<u8>, p: int, s: Seq<char>)
    requires
        holds_text(b, p, s),
        is_ascii_text(s),
    ensures
        text(b, p, p + s.len()) == s,
{
    assert(b.subrange(p, p + s.len()) =~= ascii_bytes(s));
    lemma_decode_ascii(s);
}

/// The text of a token.
pub open spec fn token_text(t: Token) -> Seq<char> {
    match t {
        Token::Question => "?"@,
        Token::Brackets => "[]"@,
        Token::StringKey => "[string]"@,
        Token::Bool => "bool"@,
        Token::Int => "int"@,
        Token::Float => "float"@,
        Token::Str => "string"@,
        Token::Object => "object"@,
        Token::Arrow => "->"@,
        Token::Method => "method"@,
        Token::Error => "error"@,
        Token::Type => "type"@,
        Token::Interface => "interface"@,
    }
}

proof fn lemma_token_text(t: Token)
    ensures
        token_text(t).len() == token_bytes(t).len(),
        forall|i: int| 0 <= i < token_bytes(t).len() ==> char_byte(#[trigger] token_text(t)[i]) == token_bytes(t)[i],
        is_ascii_text(token_text(t)),
{
    reveal_strlit("?");
    reveal_strlit("[]");
    reveal_strlit("[string]");
    reveal_strlit("bool");
    reveal_strlit("int");
    reveal_strlit("float");
    reveal_strlit("string");
    reveal_strlit("object");
    reveal_strlit("->");
    reveal_strlit("method");
    reveal_strlit("error");
    reveal_strlit("type");
    reveal_strlit("interface");
}

/// Where the input holds the text of a token, it holds the token.
proof fn lemma_holds_token(b: Seq<u8>, p: int, t: Token)
    requires
        holds_text(b, p, token_text(t)),
    ensures
        has_token(b, p, t),
{
    lemma_token_text(t);
    assert forall|i: int| 0 <= i < token_bytes(t).len() implies b.subrange(
        p,
        p + token_bytes(t).len(),
    )[i] == token_bytes(t)[i] by {
        assert(b[p + i] == char_byte(token_text(t)[i]));
    }
}

/// Where the input holds a token, it holds its first byte.
proof fn lemma_token_first(b: Seq<u8>, p: int, t: Token)
    requires
        has_token(b, p, t),
    ensures
        b[p] == token_bytes(t)[0],
{
    assert(b.subrange(p, p + token_bytes(t).len())[0] == b[p]);
}

/// A field or variant name: an ASCII letter, then ASCII letters, digits and underscores.
pub open spec fn is_field_name(s: Seq<char>) -> bool {
    &&& s.len() > 0
    &&& is_ascii_text(s)
    &&& is_alpha(char_byte(s[0]))
    &&& forall|i: int| 1 <= i < s.len() ==> in_class(char_byte(#[trigger] s[i]), ByteClass::NameChar)
}

/// A type name: an upper-case ASCII letter, then ASCII letters and digits.
pub open spec fn is_type_name(s: Seq<char>) -> bool {
    &&& s.len() > 0
    &&& is_ascii_text(s)
    &&& is_upper(char_byte(s[0]))
    &&& forall|i: int| 1 <= i < s.len() ==> in_class(char_byte(#[trigger] s[i]), ByteClass::Alnum)
}

/// The text of a type stands for it alone: its names are well formed, no optional type is itself
/// optional, no inline object is empty, and no inline enum variant or inline object field has
/// comments.
pub open spec fn reads_back(t: TypeModel) -> bool
    decreases t,
{
    match t {
        TypeModel::Optional(inner) => !(*inner is Optional) && reads_back(*inner),
        TypeModel::Array(inner) => reads_back(*inner),
        TypeModel::Dict(inner) => reads_back(*inner),
        TypeModel::Custom(name) => is_type_name(name),
        TypeModel::Enum(vs) => forall|i: int|
            0 <= i < vs.len() ==> (#[trigger] vs[i]).comments.len() == 0 && is_field_name(vs[i].name),
        TypeModel::Object(fs) => fs.len() > 0 && fields_read_back(fs),
        _ => true,
    }
}

/// The texts of these fields stand for them alone.
pub open spec fn fields_read_back(fs: Seq<FieldModel>) -> bool
    decreases fs,
{
    if fs.len() == 0 {
        true
    } else {
        fields_read_back(fs.subrange(0, fs.len() - 1)) && field_reads_back(fs[fs.len() - 1])
    }
}

/// The text of this field stands for it alone: it has no comments, its name is well formed and
/// the text of its type stands for the type alone.
pub open spec fn field_reads_back(f: FieldModel) -> bool
    decreases f,
{
    f.comments.len() == 0 && is_field_name(f.name) && reads_back(f.ty)
}

proof fn lemma_fields_read_back(fs: Seq<FieldModel>)
    ensures
        fields_read_back(fs) <==> forall|i: int| 0 <= i < fs.len() ==> field_reads_back(#[trigger] fs[i]),
    decreases fs.len(),
{
    if fs.len() > 0 {
        let init = fs.subrange(0, fs.len() - 1);
        lemma_fields_read_back(init);
        if fields_read_back(fs) {
            assert forall|i: int| 0 <= i < fs.len() implies field_reads_back(#[trigger] fs[i]) by {
                if i < fs.len() - 1 {
                    assert(init[i] == fs[i]);
                }
            }
        }
        if forall|i: int| 0 <= i < fs.len() ==> field_reads_back(#[trigger] fs[i]) {
            assert forall|i: int| 0 <= i < init.len() implies field_reads_back(#[trigger] init[i]) by {
                assert(init[i] == fs[i]);
            }
        }
    }
}

/// The parts, each after `sep`.
pub open spec fn tails(parts: Seq<Seq<char>>, sep: Seq<char>) -> Seq<char>
    decreases parts.len(),
{
    if parts.len() == 0 {
        seq![]
    } else {
        sep + parts[0] + tails(parts.drop_first(), sep)
    }
}

proof fn lemma_tails_push(parts: Seq<Seq<char>>, x: Seq<char>, sep: Seq<char>)
    ensures
        tails(parts.push(x), sep) == tails(parts, sep) + sep + x,
    decreases parts.len(),
{
    if parts.len() == 0 {
        assert(parts.push(x).drop_first() =~= Seq::<Seq<char>>::empty());
        assert(parts.push(x)[0] == x);
        assert(tails(Seq::<Seq<char>>::empty(), sep) == Seq::<char>::empty());
        assert(tails(parts.push(x), sep) =~= sep + x);
    } else {
        assert(parts.push(x).drop_first() =~= parts.drop_first().push(x));
        lemma_tails_push(parts.drop_first(), x, sep);
        assert(tails(parts.push(x), sep) =~= tails(parts, sep) + sep + x);
    }
}

/// Parts joined by a separator: the first, then each other after the separator.
proof fn lemma_joined_front(parts: Seq<Seq<char>>, sep: Seq<char>)
    requires
        parts.len() > 0,
    ensures
        joined(parts, sep) == parts[0] + tails(parts.drop_first(), sep),
    decreases parts.len(),
{
    if parts.len() == 1 {
        assert(parts.drop_first() =~= Seq::<Seq<char>>::empty());
        assert(parts[0] + tails(parts.drop_first(), sep) =~= parts[0]);
    } else {
        let init = parts.drop_last();
        lemma_joined_front(init, sep);
        assert(init.drop_first().push(parts.last()) =~= parts.drop_first());
        lemma_tails_push(init.drop_first(), parts.last(), sep);
        assert(init[0] == parts[0]);
        assert(joined(parts, sep) =~= parts[0] + tails(parts.drop_first(), sep));
    }
}

/// The texts of some fields are the text of each.
proof fn lemma_field_texts(fs: Seq<FieldModel>)
    ensures
        field_texts(fs) == fs.map_values(|f: FieldModel| field_text(f)),
    decreases fs.len(),
{
    if fs.len() > 0 {
        lemma_field_texts(fs.subrange(0, fs.len() - 1));
        assert(field_texts(fs) =~= fs.map_values(|f: FieldModel| field_text(f)));
    } else {
        assert(field_texts(fs) =~= fs.map_values(|f: FieldModel| field_text(f)));
    }
}

/// Where no byte of a stretch is outside a class, a run of it goes at least to the stretch's end.
proof fn lemma_run_at_least(b: Seq<u8>, p: int, e: int, k: ByteClass)
    requires
        0 <= p <= e <= b.len(),
        forall|i: int| p <= i < e ==> in_class(#[trigger] b[i], k),
    ensures
        run_end(b, p, k) >= e,
    decreases e - p,
{
    lemma_run_end(b, p, k);
    if p < e {
        lemma_run_at_least(b, p + 1, e, k);
    }
}

/// A run stops at the latest at a byte outside its class.
proof fn lemma_run_at_most(b: Seq<u8>, p: int, j: int, k: ByteClass)
    requires
        0 <= p <= j < b.len(),
        !in_class(b[j], k),
    ensures
        run_end(b, p, k) <= j,
    decreases j - p,
{
    if p < j && in_class(b[p], k) {
        lemma_run_at_most(b, p + 1, j, k);
    }
}

/// Whitespace and comments end where they start, at a byte that is neither.
proof fn lemma_ws_none(b: Seq<u8>, p: int)
    requires
        0 <= p <= b.len(),
        p < b.len() ==> !in_class(b[p], ByteClass::Multispace) && b[p] != HASH,
    ensures
        ws_end(b, p) == p,
{
    lemma_run_to(b, p, p, ByteClass::Multispace);
}

/// Whitespace of one space ends after it, at a byte that is neither whitespace nor a comment.
proof fn lemma_ws_one(b: Seq<u8>, p: int)
    requires
        0 <= p,
        p + 1 < b.len(),
        b[p] == SPACE,
        !in_class(b[p + 1], ByteClass::Multispace) && b[p + 1] != HASH,
    ensures
        ws_end(b, p) == p + 1,
{
    lemma_run_to(b, p, p + 1, ByteClass::Multispace);
}


/// The first byte of the text of a type.
pub open spec fn first_byte(t: TypeModel) -> u8 {
    match t {
        TypeModel::Optional(_) => 0x3f,
        TypeModel::Array(_) => 0x5b,
        TypeModel::Dict(_) => 0x5b,
        TypeModel::Enum(_) => 0x28,
        TypeModel::Object(_) => 0x28,
        TypeModel::Custom(name) => char_byte(name[0]),
        TypeModel::Bool => 0x62,
        TypeModel::Int => 0x69,
        TypeModel::Float => 0x66,
        TypeModel::String => 0x73,
        TypeModel::ForeignObject => 0x6f,
    }
}

/// The names of some enum variants.
pub open spec fn variant_names(vs: Seq<VariantModel>) -> Seq<Seq<char>> {
    vs.map_values(|v: VariantModel| v.name)
}

/// The text of an inline enum whose variants have no comments: their names in parentheses.
proof fn lemma_plain_variants_text(vs: Seq<VariantModel>)
    requires
        forall|i: int| 0 <= i < vs.len() ==> (#[trigger] vs[i]).comments.len() == 0,
    ensures
        variants_text(vs) == "("@ + joined(variant_names(vs), ", "@) + ")"@,
{
    assert(!any_commented(vs));
    assert forall|i: int| 0 <= i < vs.len() implies variant_text(#[trigger] vs[i]) == vs[i].name by {
        assert(vs[i].comments =~= Seq::<Seq<char>>::empty());
        assert(comment_lines(vs[i].comments, ""@) == Seq::<char>::empty());
        assert(Seq::<char>::empty() + vs[i].name =~= vs[i].name);
    }
    assert(vs.map_values(|v: VariantModel| variant_text(v)) =~= variant_names(vs));
}

/// The text of a type is not empty, and it starts with the type's first byte; that of an array
/// or a map goes on with `]` or `s`.
proof fn lemma_type_text_first(t: TypeModel)
    requires
        reads_back(t),
    ensures
        type_text(t).len() > 0,
        char_byte(type_text(t)[0]) == first_byte(t),
        t is Array ==> type_text(t).len() > 1 && char_byte(type_text(t)[1]) == 0x5d,
        t is Dict ==> type_text(t).len() > 1 && char_byte(type_text(t)[1]) == 0x73,
{
    reveal_strlit("?");
    reveal_strlit("[]");
    reveal_strlit("[string]");
    reveal_strlit("(");
    reveal_strlit("bool");
    reveal_strlit("int");
    reveal_strlit("float");
    reveal_strlit("string");
    reveal_strlit("object");
    if let TypeModel::Enum(vs) = t {
        lemma_plain_variants_text(vs);
    }
}

/// None of the bytes of the text is `c`.
pub open spec fn avoids(s: Seq<char>, c: u8) -> bool {
    forall|i: int| 0 <= i < s.len() ==> char_byte(#[trigger] s[i]) != c
}

proof fn lemma_avoids_concat(s1: Seq<char>, s2: Seq<char>, c: u8)
    ensures
        avoids(s1 + s2, c) <==> avoids(s1, c) && avoids(s2, c),
{
    let s = s1 + s2;
    if avoids(s1, c) && avoids(s2, c) {
        assert forall|i: int| 0 <= i < s.len() implies char_byte(#[trigger] s[i]) != c by {
            if i < s1.len() {
                assert(s[i] == s1[i]);
            } else {
                assert(s[i] == s2[i - s1.len()]);
            }
        }
    }
    if avoids(s, c) {
        assert forall|i: int| 0 <= i < s1.len() implies char_byte(#[trigger] s1[i]) != c by {
            assert(s[i] == s1[i]);
        }
        assert forall|i: int| 0 <= i < s2.len() implies char_byte(#[trigger] s2[i]) != c by {
            assert(s[s1.len() + i] == s2[i]);
        }
    }
}

/// A field name holds neither a closing parenthesis nor a colon.
proof fn lemma_name_avoids(s: Seq<char>)
    requires
        is_field_name(s),
    ensures
        avoids(s, 0x29),
        avoids(s, 0x3a),
{
}

/// Names each after a comma and a space hold neither a closing parenthesis nor a colon.
proof fn lemma_tails_avoid(names: Seq<Seq<char>>)
    requires
        forall|i: int| 0 <= i < names.len() ==> is_field_name(#[trigger] names[i]),
    ensures
        avoids(tails(names, ", "@), 0x29),
        avoids(tails(names, ", "@), 0x3a),
    decreases names.len(),
{
    reveal_strlit(", ");
    if names.len() > 0 {
        let rest = names.drop_first();
        assert forall|i: int| 0 <= i < rest.len() implies is_field_name(#[trigger] rest[i]) by {
            assert(rest[i] == names[i + 1]);
        }
        lemma_tails_avoid(rest);
        lemma_name_avoids(names[0]);
        lemma_avoids_concat(", "@, names[0], 0x29);
        lemma_avoids_concat(", "@, names[0], 0x3a);
        lemma_avoids_concat(", "@ + names[0], tails(rest, ", "@), 0x29);
        lemma_avoids_concat(", "@ + names[0], tails(rest, ", "@), 0x3a);
    }
}

/// Where the input holds a token, it holds each of its bytes.
proof fn lemma_token_at(b: Seq<u8>, p: int, t: Token, i: int)
    requires
        has_token(b, p, t),
        0 <= i < token_bytes(t).len(),
    ensures
        b[p + i] == token_bytes(t)[i],
{
    assert(b.subrange(p, p + token_bytes(t).len())[i] == b[p + i]);
}

/// No comment precedes an item that starts with a byte that is neither whitespace nor `#`.
proof fn lemma_comments_none(b: Seq<u8>, p: int)
    requires
        0 <= p < b.len(),
        !in_class(b[p], ByteClass::Multispace),
        b[p] != HASH,
    ensures
        comments_at(b, p) == (Seq::<Seq<char>>::empty(), p),
{
    lemma_run_to(b, p, p, ByteClass::Multispace);
}

/// A field name at `p`, followed by a byte that cannot go on a name, ends there.
proof fn lemma_field_name_end(b: Seq<u8>, p: int, name: Seq<char>)
    requires
        is_field_name(name),
        holds_text(b, p, name),
        p + name.len() < b.len(),
        !in_class(b[p + name.len()], ByteClass::NameChar),
    ensures
        field_name_end(b, p) == Some(p + name.len()),
        text(b, p, p + name.len()) == name,
{
    assert(b[p] == char_byte(name[0]));
    assert forall|i: int| p + 1 <= i < p + name.len() implies in_class(
        #[trigger] b[i],
        ByteClass::NameChar,
    ) by {
        assert(b[p + (i - p)] == char_byte(name[i - p]));
    }
    lemma_run_to(b, p + 1, p + name.len(), ByteClass::NameChar);
    lemma_text_of(b, p, name);
}

/// The names that follow a first one, each after a comma and a space, up to a closing
/// parenthesis, are read as they are written.
#[verifier::spinoff_prover]
#[verifier::rlimit(60)]
proof fn lemma_names_tail(b: Seq<u8>, q: int, names: Seq<Seq<char>>)
    requires
        forall|i: int| 0 <= i < names.len() ==> is_field_name(#[trigger] names[i]),
        holds_text(b, q, tails(names, ", "@)),
        q + tails(names, ", "@).len() < b.len(),
        b[q + tails(names, ", "@).len()] == 0x29,
    ensures
        names_tail(b, q) == (names, q + tails(names, ", "@).len()),
    decreases names.len(),
{
    reveal_strlit(", ");
    if names.len() == 0 {
        lemma_ws_none(b, q);
    } else {
        let n0 = names[0];
        let rest = names.drop_first();
        assert forall|i: int| 0 <= i < rest.len() implies is_field_name(#[trigger] rest[i]) by {
            assert(rest[i] == names[i + 1]);
        }
        lemma_holds_concat(b, q, ", "@ + n0, tails(rest, ", "@));
        lemma_holds_concat(b, q, ", "@, n0);
        assert(b[q] == char_byte(", "@[0]));
        assert(b[q + 1] == char_byte(", "@[1]));
        assert(b[q + 2] == char_byte(n0[0]));
        lemma_ws_none(b, q);
        lemma_ws_one(b, q + 1);
        let e0 = q + 2 + n0.len();
        if rest.len() > 0 {
            assert(b[e0] == char_byte(tails(rest, ", "@)[0]));
        }
        lemma_field_name_end(b, q + 2, n0);
        lemma_names_tail(b, e0, rest);
        assert(seq![n0] + rest =~= names);
    }
}

/// The names of an inline enum, separated by commas and spaces, up to a closing parenthesis, are
/// read as they are written.
#[verifier::spinoff_prover]
#[verifier::rlimit(60)]
proof fn lemma_enum_names(b: Seq<u8>, p: int, names: Seq<Seq<char>>)
    requires
        forall|i: int| 0 <= i < names.len() ==> is_field_name(#[trigger] names[i]),
        holds_text(b, p, joined(names, ", "@)),
        p + joined(names, ", "@).len() < b.len(),
        b[p + joined(names, ", "@).len()] == 0x29,
    ensures
        enum_names(b, p) == (names, p + joined(names, ", "@).len()),
{
    reveal_strlit(", ");
    if names.len() == 0 {
        assert(joined(names, ", "@) == Seq::<char>::empty());
    } else {
        let n0 = names[0];
        let rest = names.drop_first();
        lemma_joined_front(names, ", "@);
        assert forall|i: int| 0 <= i < rest.len() implies is_field_name(#[trigger] rest[i]) by {
            assert(rest[i] == names[i + 1]);
        }
        lemma_holds_concat(b, p, n0, tails(rest, ", "@));
        let e0 = p + n0.len();
        if rest.len() > 0 {
            assert(b[e0] == char_byte(tails(rest, ", "@)[0]));
        }
        lemma_field_name_end(b, p, n0);
        lemma_names_tail(b, e0, rest);
        assert(seq![n0] + rest =~= names);
    }
}

/// The end of the input, or a byte that cannot go on a type name.
pub open spec fn stops(b: Seq<u8>, e: int) -> bool {
    e == b.len() || (0 <= e < b.len() && !in_class(b[e], ByteClass::Alnum))
}

/// Where the input does not start a token with the given byte, it does not hold the token.
proof fn lemma_not_token(b: Seq<u8>, p: int, t: Token)
    requires
        0 <= p < b.len(),
        b[p] != token_bytes(t)[0],
    ensures
        !has_token(b, p, t),
{
    if has_token(b, p, t) {
        lemma_token_first(b, p, t);
    }
}

/// The first byte of a type's text is neither whitespace nor `#`.
proof fn lemma_first_byte_plain(t: TypeModel)
    requires
        reads_back(t),
    ensures
        !in_class(first_byte(t), ByteClass::Multispace),
        first_byte(t) != HASH,
{
}

/// At a byte that starts no type token, none of the readers of a type's first token reads.
proof fn lemma_no_type_token(b: Seq<u8>, p: int)
    requires
        0 <= p < b.len(),
        b[p] != 0x3f && b[p] != 0x5b && b[p] != 0x62 && b[p] != 0x69 && b[p] != 0x66 && b[p] != 0x73
            && b[p] != 0x6f,
    ensures
        optional_at(b, p) == Outcome::<TypeModel>::Failed(p),
        array_at(b, p) == Outcome::<TypeModel>::Failed(p),
        dict_at(b, p) == Outcome::<TypeModel>::Failed(p),
        !has_token(b, p, Token::Bool),
        !has_token(b, p, Token::Int),
        !has_token(b, p, Token::Float),
        !has_token(b, p, Token::Str),
        !has_token(b, p, Token::Object),
{
    lemma_not_token(b, p, Token::Question);
    lemma_not_token(b, p, Token::Brackets);
    lemma_not_token(b, p, Token::StringKey);
    lemma_not_token(b, p, Token::Bool);
    lemma_not_token(b, p, Token::Int);
    lemma_not_token(b, p, Token::Float);
    lemma_not_token(b, p, Token::Str);
    lemma_not_token(b, p, Token::Object);
}

/// The text of a type, followed by a byte that stops it, is read as the type.
#[verifier::spinoff_prover]
#[verifier::rlimit(60)]
proof fn lemma_type_at(b: Seq<u8>, p: int, t: TypeModel)
    requires
        reads_back(t),
        holds_text(b, p, type_text(t)),
        stops(b, p + type_text(t).len()),
    ensures
        type_at(b, p) == Outcome::Parsed(t, p + type_text(t).len()),
    decreases t, 0int,
{
    lemma_type_text_first(t);
    let tt = type_text(t);
    let e = p + tt.len();
    assert(b[p] == char_byte(tt[0]));
    reveal_strlit("?");
    reveal_strlit("[]");
    reveal_strlit("[string]");
    reveal_strlit("(");
    reveal_strlit(")");
    reveal_strlit("bool");
    reveal_strlit("int");
    reveal_strlit("float");
    reveal_strlit("string");
    reveal_strlit("object");
    match t {
        TypeModel::Optional(inner) => {
            lemma_holds_concat(b, p, "?"@, type_text(*inner));
            lemma_holds_token(b, p, Token::Question);
            lemma_type_at(b, p + 1, *inner);
            lemma_type_text_first(*inner);
            assert(b[p + 1] == char_byte(type_text(*inner)[0]));
            lemma_not_token(b, p + 1, Token::Question);
            assert(optional_at(b, p + 1) == Outcome::<TypeModel>::Failed(p + 1));
            assert(non_optional_at(b, p + 1) == type_at(b, p + 1));
        },
        TypeModel::Array(inner) => {
            lemma_holds_concat(b, p, "[]"@, type_text(*inner));
            lemma_holds_token(b, p, Token::Brackets);
            lemma_not_token(b, p, Token::Question);
            lemma_type_at(b, p + 2, *inner);
        },
        TypeModel::Dict(inner) => {
            lemma_holds_concat(b, p, "[string]"@, type_text(*inner));
            lemma_holds_token(b, p, Token::StringKey);
            lemma_not_token(b, p, Token::Question);
            assert(b[p + 1] == char_byte(tt[1]));
            if has_token(b, p, Token::Brackets) {
                lemma_token_at(b, p, Token::Brackets, 1);
            }
            lemma_type_at(b, p + 8, *inner);
        },
        TypeModel::Bool => {
            lemma_holds_token(b, p, Token::Bool);
            lemma_no_type_token_but(b, p);
        },
        TypeModel::Int => {
            lemma_holds_token(b, p, Token::Int);
            lemma_no_type_token_but(b, p);
            lemma_not_token(b, p, Token::Bool);
        },
        TypeModel::Float => {
            lemma_holds_token(b, p, Token::Float);
            lemma_no_type_token_but(b, p);
            lemma_not_token(b, p, Token::Bool);
            lemma_not_token(b, p, Token::Int);
        },
        TypeModel::String => {
            lemma_holds_token(b, p, Token::Str);
            lemma_no_type_token_but(b, p);
            lemma_not_token(b, p, Token::Bool);
            lemma_not_token(b, p, Token::Int);
            lemma_not_token(b, p, Token::Float);
        },
        TypeModel::ForeignObject => {
            lemma_holds_token(b, p, Token::Object);
            lemma_no_type_token_but(b, p);
            lemma_not_token(b, p, Token::Bool);
            lemma_not_token(b, p, Token::Int);
            lemma_not_token(b, p, Token::Float);
            lemma_not_token(b, p, Token::Str);
        },
        TypeModel::Custom(name) => {
            lemma_no_type_token(b, p);
            assert forall|i: int| p + 1 <= i < e implies in_class(#[trigger] b[i], ByteClass::Alnum) by {
                assert(b[p + (i - p)] == char_byte(name[i - p]));
            }
            lemma_run_to(b, p + 1, e, ByteClass::Alnum);
            lemma_text_of(b, p, name);
        },
        TypeModel::Enum(vs) => {
            lemma_enum_at(b, p, vs);
        },
        TypeModel::Object(fs) => {
            lemma_object_at(b, p, fs);
        },
    }
}

/// The text of an inline enum, followed by a byte that stops it, is read as the enum.
#[verifier::spinoff_prover]
#[verifier::rlimit(60)]
proof fn lemma_enum_at(b: Seq<u8>, p: int, vs: Seq<VariantModel>)
    requires
        reads_back(TypeModel::Enum(vs)),
        holds_text(b, p, type_text(TypeModel::Enum(vs))),
        stops(b, p + type_text(TypeModel::Enum(vs)).len()),
    ensures
        type_at(b, p) == Outcome::Parsed(TypeModel::Enum(vs), p + type_text(TypeModel::Enum(vs)).len()),
{
    let t = TypeModel::Enum(vs);
    lemma_type_text_first(t);
    let tt = type_text(t);
    let e = p + tt.len();
    assert(b[p] == char_byte(tt[0]));
    reveal_strlit("(");
    reveal_strlit(")");
    lemma_no_type_token(b, p);
    lemma_plain_variants_text(vs);
    let names = variant_names(vs);
    let body = joined(names, ", "@);
    assert forall|i: int| 0 <= i < names.len() implies is_field_name(#[trigger] names[i]) by {
        assert(names[i] == vs[i].name);
    }
    lemma_holds_concat(b, p, "("@ + body, ")"@);
    lemma_holds_concat(b, p, "("@, body);
    assert(b[e - 1] == char_byte(tt[tt.len() - 1]));
    // The first closing parenthesis is the last byte, and no colon comes before it.
    if names.len() > 0 {
        lemma_joined_front(names, ", "@);
        lemma_name_avoids(names[0]);
        lemma_tails_avoid(names.drop_first());
        lemma_avoids_concat(names[0], tails(names.drop_first(), ", "@), 0x29);
        lemma_avoids_concat(names[0], tails(names.drop_first(), ", "@), 0x3a);
        assert(b[p + 1] == char_byte(body[0]));
    } else {
        assert(body == Seq::<char>::empty());
    }
    assert forall|i: int| p <= i < e - 1 implies in_class(#[trigger] b[i], ByteClass::NotRParen) by {
        if i > p {
            assert(b[p + 1 + (i - p - 1)] == char_byte(body[i - p - 1]));
        }
    }
    assert forall|i: int| p + 1 <= i < e - 1 implies in_class(#[trigger] b[i], ByteClass::NotColon) by {
        assert(b[p + 1 + (i - p - 1)] == char_byte(body[i - p - 1]));
    }
    lemma_run_to(b, p, e - 1, ByteClass::NotRParen);
    lemma_run_at_least(b, p + 1, e - 1, ByteClass::NotColon);
    lemma_ws_none(b, p + 1);
    lemma_ws_none(b, e - 1);
    lemma_enum_names(b, p + 1, names);
    assert(names.map_values(|n: Seq<char>| plain_variant(n)) =~= vs) by {
        assert forall|i: int| 0 <= i < vs.len() implies plain_variant(names[i]) == vs[i] by {
            assert(vs[i].comments =~= Seq::<Seq<char>>::empty());
        }
    }
    assert(run_end(b, p, ByteClass::NotRParen) == e - 1);
    assert(inline_at(b, p) == enum_at(b, p));
    assert(enum_names(b, ws_end(b, p + 1)) == (names, e - 1));
    assert(enum_at(b, p) == Outcome::Parsed(t, e));
    assert(type_name_end(b, p) is None);
    assert(element_at(b, p) == inline_at(b, p));
}

/// The text of an inline object, followed by a byte that stops it, is read as the object.
#[verifier::spinoff_prover]
#[verifier::rlimit(60)]
proof fn lemma_object_at(b: Seq<u8>, p: int, fs: Seq<FieldModel>)
    requires
        reads_back(TypeModel::Object(fs)),
        holds_text(b, p, type_text(TypeModel::Object(fs))),
        stops(b, p + type_text(TypeModel::Object(fs)).len()),
    ensures
        type_at(b, p) == Outcome::Parsed(TypeModel::Object(fs), p + type_text(TypeModel::Object(fs)).len()),
    decreases fs, 2int,
{
    let t = TypeModel::Object(fs);
    lemma_type_text_first(t);
    let tt = type_text(t);
    let e = p + tt.len();
    assert(b[p] == char_byte(tt[0]));
    reveal_strlit("(");
    reveal_strlit(")");
    lemma_no_type_token(b, p);
    lemma_field_texts(fs);
    let fts = field_texts(fs);
    let body = joined(fts, ", "@);
    lemma_fields_read_back(fs);
    lemma_holds_concat(b, p, "("@ + body, ")"@);
    lemma_holds_concat(b, p, "("@, body);
    assert(b[e - 1] == char_byte(tt[tt.len() - 1]));
    lemma_joined_front(fts, ", "@);
    let f0 = fs[0];
    assert(fts[0] == field_text(f0));
    lemma_holds_concat(b, p + 1, field_text(f0), tails(fts.drop_first(), ", "@));
    reveal_strlit(": ");
    lemma_holds_concat(b, p + 1, f0.name + ": "@, type_text(f0.ty));
    lemma_holds_concat(b, p + 1, f0.name, ": "@);
    let c0 = p + 1 + f0.name.len();
    assert(b[c0] == char_byte(": "@[0]));
    // The colon after the first field's name comes before any closing parenthesis.
    assert forall|i: int| p <= i < c0 + 1 implies in_class(#[trigger] b[i], ByteClass::NotRParen) by {
        if p < i < c0 {
            assert(b[p + 1 + (i - p - 1)] == char_byte(f0.name[i - p - 1]));
        }
    }
    assert forall|i: int| p + 1 <= i < c0 implies in_class(#[trigger] b[i], ByteClass::NotColon) by {
        assert(b[p + 1 + (i - p - 1)] == char_byte(f0.name[i - p - 1]));
    }
    lemma_run_at_least(b, p, c0 + 1, ByteClass::NotRParen);
    lemma_run_at_most(b, p, e - 1, ByteClass::NotRParen);
    lemma_run_to(b, p + 1, c0, ByteClass::NotColon);
    assert(b[p + 1] == char_byte(f0.name[0]));
    lemma_ws_none(b, p + 1);
    lemma_ws_none(b, e - 1);
    lemma_fields_at(b, p + 1, fs);
    assert(run_end(b, p + 1, ByteClass::NotColon) == c0);
    assert(run_end(b, p, ByteClass::NotRParen) > c0);
    assert(run_end(b, p, ByteClass::NotRParen) < b.len());
    assert(inline_at(b, p) == struct_at(b, p));
    assert(fields_at(b, ws_end(b, p + 1)) == Outcome::Parsed(fs, e - 1));
    assert(struct_at(b, p) == Outcome::Parsed(t, e));
    assert(type_name_end(b, p) is None);
    assert(element_at(b, p) == inline_at(b, p));
}

/// At the first byte of a literal type's text, no reader of another first token reads.
proof fn lemma_no_type_token_but(b: Seq<u8>, p: int)
    requires
        0 <= p < b.len(),
        b[p] != 0x3f && b[p] != 0x5b,
    ensures
        optional_at(b, p) == Outcome::<TypeModel>::Failed(p),
        array_at(b, p) == Outcome::<TypeModel>::Failed(p),
        dict_at(b, p) == Outcome::<TypeModel>::Failed(p),
{
    lemma_not_token(b, p, Token::Question);
    lemma_not_token(b, p, Token::Brackets);
    lemma_not_token(b, p, Token::StringKey);
}

/// Fields separated by commas and spaces, up to a closing parenthesis, are read as written.
#[verifier::spinoff_prover]
#[verifier::rlimit(60)]
proof fn lemma_fields_at(b: Seq<u8>, p: int, fs: Seq<FieldModel>)
    requires
        fs.len() > 0,
        forall|i: int| 0 <= i < fs.len() ==> field_reads_back(#[trigger] fs[i]),
        holds_text(b, p, joined(field_texts(fs), ", "@)),
        p + joined(field_texts(fs), ", "@).len() < b.len(),
        b[p + joined(field_texts(fs), ", "@).len()] == 0x29,
    ensures
        fields_at(b, p) == Outcome::Parsed(fs, p + joined(field_texts(fs), ", "@).len()),
    decreases fs, 1int,
{
    reveal_strlit(", ");
    lemma_field_texts(fs);
    let fts = field_texts(fs);
    lemma_joined_front(fts, ", "@);
    let f0 = fs[0];
    let rest = fs.drop_first();
    assert(fts[0] == field_text(f0));
    assert(fts.drop_first() =~= rest.map_values(|f: FieldModel| field_text(f)));
    lemma_holds_concat(b, p, field_text(f0), tails(fts.drop_first(), ", "@));
    let q = p + field_text(f0).len();
    if rest.len() > 0 {
        assert(b[q] == char_byte(tails(fts.drop_first(), ", "@)[0]));
    }
    lemma_field_at(b, p, f0);
    assert forall|i: int| 0 <= i < rest.len() implies field_reads_back(#[trigger] rest[i]) by {
        assert(rest[i] == fs[i + 1]);
    }
    lemma_fields_tail(b, q, rest);
    assert(seq![f0] + rest =~= fs);
    let end = p + joined(fts, ", "@).len();
    assert(field_at(b, p) == Outcome::Parsed(f0, q));
    assert(fields_tail(b, q) == Outcome::Parsed(rest, end));
}

/// The fields that follow a first one, each after a comma and a space, up to a closing
/// parenthesis, are read as written.
#[verifier::spinoff_prover]
#[verifier::rlimit(60)]
proof fn lemma_fields_tail(b: Seq<u8>, q: int, fs: Seq<FieldModel>)
    requires
        forall|i: int| 0 <= i < fs.len() ==> field_reads_back(#[trigger] fs[i]),
        holds_text(b, q, tails(fs.map_values(|f: FieldModel| field_text(f)), ", "@)),
        q + tails(fs.map_values(|f: FieldModel| field_text(f)), ", "@).len() < b.len(),
        b[q + tails(fs.map_values(|f: FieldModel| field_text(f)), ", "@).len()] == 0x29,
    ensures
        fields_tail(b, q) == Outcome::Parsed(
            fs,
            q + tails(fs.map_values(|f: FieldModel| field_text(f)), ", "@).len(),
        ),
    decreases fs, 1int,
{
    reveal_strlit(", ");
    let fts = fs.map_values(|f: FieldModel| field_text(f));
    if fs.len() == 0 {
        lemma_ws_none(b, q);
        assert(fs =~= Seq::<FieldModel>::empty());
        assert(tails(fts, ", "@) == Seq::<char>::empty());
    } else {
        let f0 = fs[0];
        let rest = fs.drop_first();
        assert(fts[0] == field_text(f0));
        assert(fts.drop_first() =~= rest.map_values(|f: FieldModel| field_text(f)));
        lemma_holds_concat(b, q, ", "@ + field_text(f0), tails(fts.drop_first(), ", "@));
        lemma_holds_concat(b, q, ", "@, field_text(f0));
        assert(b[q] == char_byte(", "@[0]));
        assert(b[q + 1] == char_byte(", "@[1]));
        reveal_strlit(": ");
        lemma_holds_concat(b, q + 2, f0.name + ": "@, type_text(f0.ty));
        lemma_holds_concat(b, q + 2, f0.name, ": "@);
        assert(b[q + 2] == char_byte(f0.name[0]));
        lemma_ws_none(b, q);
        lemma_ws_one(b, q + 1);
        let r = q + 2 + field_text(f0).len();
        if rest.len() > 0 {
            assert(b[r] == char_byte(tails(fts.drop_first(), ", "@)[0]));
        }
        lemma_field_at(b, q + 2, f0);
        assert forall|i: int| 0 <= i < rest.len() implies field_reads_back(#[trigger] rest[i]) by {
            assert(rest[i] == fs[i + 1]);
        }
        lemma_fields_tail(b, r, rest);
        assert(seq![f0] + rest =~= fs);
        let end = q + tails(fts, ", "@).len();
        assert(tails(fts.drop_first(), ", "@) == tails(rest.map_values(|f: FieldModel| field_text(f)), ", "@));
        assert(end == r + tails(fts.drop_first(), ", "@).len());
        assert(ws_end(b, q) == q);
        assert(ws_end(b, q + 1) == q + 2);
        assert(field_at(b, q + 2) == Outcome::Parsed(f0, r));
        assert(fields_tail(b, r) == Outcome::Parsed(rest, end));
    }
}

/// A field's text, followed by a byte that stops it, is read as the field.
#[verifier::spinoff_prover]
#[verifier::rlimit(60)]
proof fn lemma_field_at(b: Seq<u8>, p: int, f: FieldModel)
    requires
        field_reads_back(f),
        holds_text(b, p, field_text(f)),
        stops(b, p + field_text(f).len()),
    ensures
        field_at(b, p) == Outcome::Parsed(f, p + field_text(f).len()),
    decreases f, 0int,
{
    reveal_strlit(": ");
    lemma_holds_concat(b, p, f.name + ": "@, type_text(f.ty));
    lemma_holds_concat(b, p, f.name, ": "@);
    let e1 = p + f.name.len();
    assert(b[p] == char_byte(f.name[0]));
    assert(b[e1] == char_byte(": "@[0]));
    assert(b[e1 + 1] == char_byte(": "@[1]));
    lemma_comments_none(b, p);
    lemma_field_name_end(b, p, f.name);
    lemma_ws_none(b, e1);
    lemma_type_text_first(f.ty);
    lemma_first_byte_plain(f.ty);
    assert(b[e1 + 2] == char_byte(type_text(f.ty)[0]));
    lemma_ws_one(b, e1 + 1);
    lemma_type_at(b, e1 + 2, f.ty);
    assert(f.comments =~= Seq::<Seq<char>>::empty());
}

proof fn lemma_ascii_concat(s1: Seq<char>, s2: Seq<char>)
    requires
        is_ascii_text(s1),
        is_ascii_text(s2),
    ensures
        is_ascii_text(s1 + s2),
{
    let s = s1 + s2;
    assert forall|i: int| 0 <= i < s.len() implies (#[trigger] s[i] as u32) < 0x80 by {
        if i < s1.len() {
            assert(s[i] == s1[i]);
        } else {
            assert(s[i] == s2[i - s1.len()]);
        }
    }
}

proof fn lemma_tails_ascii(parts: Seq<Seq<char>>, sep: Seq<char>)
    requires
        is_ascii_text(sep),
        forall|i: int| 0 <= i < parts.len() ==> is_ascii_text(#[trigger] parts[i]),
    ensures
        is_ascii_text(tails(parts, sep)),
    decreases parts.len(),
{
    if parts.len() > 0 {
        let rest = parts.drop_first();
        assert forall|i: int| 0 <= i < rest.len() implies is_ascii_text(#[trigger] rest[i]) by {
            assert(rest[i] == parts[i + 1]);
        }
        lemma_tails_ascii(rest, sep);
        lemma_ascii_concat(sep, parts[0]);
        lemma_ascii_concat(sep + parts[0], tails(rest, sep));
    } else {
        assert(tails(parts, sep) == Seq::<char>::empty());
    }
}

proof fn lemma_joined_ascii(parts: Seq<Seq<char>>, sep: Seq<char>)
    requires
        is_ascii_text(sep),
        forall|i: int| 0 <= i < parts.len() ==> is_ascii_text(#[trigger] parts[i]),
    ensures
        is_ascii_text(joined(parts, sep)),
{
    if parts.len() > 0 {
        lemma_joined_front(parts, sep);
        let rest = parts.drop_first();
        assert forall|i: int| 0 <= i < rest.len() implies is_ascii_text(#[trigger] rest[i]) by {
            assert(rest[i] == parts[i + 1]);
        }
        lemma_tails_ascii(rest, sep);
        lemma_ascii_concat(parts[0], tails(rest, sep));
    } else {
        assert(joined(parts, sep) == Seq::<char>::empty());
    }
}

/// The text of a type that stands for it alone is ASCII.
proof fn lemma_type_text_ascii(t: TypeModel)
    requires
        reads_back(t),
    ensures
        is_ascii_text(type_text(t)),
    decreases t, 0int,
{
    reveal_strlit("?");
    reveal_strlit("[]");
    reveal_strlit("[string]");
    reveal_strlit("(");
    reveal_strlit(")");
    reveal_strlit(", ");
    reveal_strlit("bool");
    reveal_strlit("int");
    reveal_strlit("float");
    reveal_strlit("string");
    reveal_strlit("object");
    match t {
        TypeModel::Optional(inner) => {
            lemma_type_text_ascii(*inner);
            lemma_ascii_concat("?"@, type_text(*inner));
        },
        TypeModel::Array(inner) => {
            lemma_type_text_ascii(*inner);
            lemma_ascii_concat("[]"@, type_text(*inner));
        },
        TypeModel::Dict(inner) => {
            lemma_type_text_ascii(*inner);
            lemma_ascii_concat("[string]"@, type_text(*inner));
        },
        TypeModel::Enum(vs) => {
            lemma_plain_variants_text(vs);
            let names = variant_names(vs);
            assert forall|i: int| 0 <= i < names.len() implies is_ascii_text(#[trigger] names[i]) by {
                assert(names[i] == vs[i].name);
            }
            lemma_joined_ascii(names, ", "@);
            lemma_ascii_concat("("@, joined(names, ", "@));
            lemma_ascii_concat("("@ + joined(names, ", "@), ")"@);
        },
        TypeModel::Object(fs) => {
            lemma_field_texts(fs);
            lemma_fields_read_back(fs);
            let fts = field_texts(fs);
            assert forall|i: int| 0 <= i < fts.len() implies is_ascii_text(#[trigger] fts[i]) by {
                lemma_field_text_ascii(fs[i]);
            }
            lemma_joined_ascii(fts, ", "@);
            lemma_ascii_concat("("@, joined(fts, ", "@));
            lemma_ascii_concat("("@ + joined(fts, ", "@), ")"@);
        },
        _ => {},
    }
}

proof fn lemma_field_text_ascii(f: FieldModel)
    requires
        field_reads_back(f),
    ensures
        is_ascii_text(field_text(f)),
    decreases f, 0int,
{
    reveal_strlit(": ");
    lemma_type_text_ascii(f.ty);
    lemma_ascii_concat(f.name, ": "@);
    lemma_ascii_concat(f.name + ": "@, type_text(f.ty));
}

/// The last character of the text of a type is not white space.
proof fn lemma_type_text_last(t: TypeModel)
    requires
        reads_back(t),
    ensures
        type_text(t).len() > 0,
        !is_white_space(type_text(t).last()),
    decreases t,
{
    lemma_type_text_first(t);
    reveal_strlit("?");
    reveal_strlit("[]");
    reveal_strlit("[string]");
    reveal_strlit(")");
    reveal_strlit("bool");
    reveal_strlit("int");
    reveal_strlit("float");
    reveal_strlit("string");
    reveal_strlit("object");
    match t {
        TypeModel::Optional(inner) => {
            lemma_type_text_last(*inner);
        },
        TypeModel::Array(inner) => {
            lemma_type_text_last(*inner);
        },
        TypeModel::Dict(inner) => {
            lemma_type_text_last(*inner);
        },
        TypeModel::Custom(name) => {
            let c = name.last();
            assert((c as u32) < 0x80);
            if name.len() > 1 {
                assert(in_class(char_byte(name[name.len() - 1]), ByteClass::Alnum));
            }
            assert(((c as u32) as u8) as u32 == c as u32);
        },
        TypeModel::Enum(vs) => {
            lemma_plain_variants_text(vs);
        },
        _ => {},
    }
}

/// A text that starts and ends with a character that is not white space is its own trimmed form.
proof fn lemma_trimmed_same(s: Seq<char>)
    requires
        s.len() > 0,
        !is_white_space(s[0]),
        !is_white_space(s.last()),
    ensures
        trimmed(s) == s,
{
}

/// Reading back the IDL text of a type gives the type: `parse_type` of the text that
/// `Type::to_string` writes reads the same type, where that text stands for the type alone (see
/// `reads_back`).
pub proof fn law_type_text_read_back(t: TypeModel)
    requires
        reads_back(t),
    ensures
        type_at(idl_bytes(type_text(t)), 0) == Outcome::Parsed(t, idl_bytes(type_text(t)).len() as int),
        parse_result(idl_bytes(type_text(t)), type_at(idl_bytes(type_text(t)), 0)) == Ok::<
            TypeModel,
            Seq<char>,
        >(t),
{
    let tt = type_text(t);
    lemma_type_text_first(t);
    lemma_type_text_last(t);
    lemma_type_text_ascii(t);
    let c = tt[0];
    assert((c as u32) < 0x80);
    assert(((c as u32) as u8) as u32 == c as u32);
    lemma_trimmed_same(tt);
    lemma_encode_ascii(tt);
    let b = idl_bytes(tt);
    assert(b == ascii_bytes(tt));
    assert(holds_text(b, 0, tt));
    lemma_type_at(b, 0, t);
    lemma_ws_none(b, b.len() as int);
}

/// Reading back the IDL text of a field gives the field: `parse_field` of the text that
/// `Field::to_string` writes reads the same field, where the field has no comments (its text
/// leaves them out), its name is well formed and the text of its type stands for the type alone.
pub proof fn law_field_text_read_back(f: FieldModel)
    requires
        field_reads_back(f),
    ensures
        field_at(idl_bytes(field_text(f)), 0) == Outcome::Parsed(f, idl_bytes(field_text(f)).len() as int),
        parse_result(idl_bytes(field_text(f)), field_at(idl_bytes(field_text(f)), 0)) == Ok::<
            FieldModel,
            Seq<char>,
        >(f),
{
    reveal_strlit(": ");
    let ft = field_text(f);
    lemma_field_text_ascii(f);
    lemma_type_text_last(f.ty);
    assert(ft[0] == f.name[0]);
    assert(ft.last() == type_text(f.ty).last());
    let c = ft[0];
    assert(((c as u32) as u8) as u32 == c as u32);
    lemma_trimmed_same(ft);
    lemma_encode_ascii(ft);
    let b = idl_bytes(ft);
    assert(b == ascii_bytes(ft));
    assert(holds_text(b, 0, ft));
    lemma_field_at(b, 0, f);
    lemma_ws_none(b, b.len() as int);
}

/// Parts after a separator each, where there is one, are the separator and the parts joined.
proof fn lemma_tails_joined(parts: Seq<Seq<char>>, sep: Seq<char>)
    requires
        parts.len() > 0,
    ensures
        tails(parts, sep) == sep + joined(parts, sep),
{
    lemma_joined_front(parts, sep);
    assert(tails(parts, sep) =~= sep + (parts[0] + tails(parts.drop_first(), sep)));
}

/// Parameters separated by commas and spaces, up to and with a closing parenthesis, are read as
/// written.
#[verifier::spinoff_prover]
#[verifier::rlimit(60)]
proof fn lemma_params_tail(b: Seq<u8>, q: int, fs: Seq<FieldModel>)
    requires
        fs.len() > 0,
        forall|i: int| 0 <= i < fs.len() ==> field_reads_back(#[trigger] fs[i]),
        holds_text(b, q, joined(field_texts(fs), ", "@)),
        q + joined(field_texts(fs), ", "@).len() < b.len(),
        b[q + joined(field_texts(fs), ", "@).len()] == 0x29,
    ensures
        params_tail(b, q) == Outcome::Parsed(fs, q + joined(field_texts(fs), ", "@).len() + 1),
    decreases fs.len(),
{
    reveal_strlit(", ");
    lemma_field_texts(fs);
    let fts = field_texts(fs);
    lemma_joined_front(fts, ", "@);
    let f0 = fs[0];
    let rest = fs.drop_first();
    assert(fts[0] == field_text(f0));
    lemma_holds_concat(b, q, field_text(f0), tails(fts.drop_first(), ", "@));
    let r = q + field_text(f0).len();
    let end = q + joined(fts, ", "@).len();
    assert forall|i: int| 0 <= i < rest.len() implies field_reads_back(#[trigger] rest[i]) by {
        assert(rest[i] == fs[i + 1]);
    }
    if rest.len() > 0 {
        lemma_field_texts(rest);
        assert(fts.drop_first() =~= field_texts(rest));
        lemma_tails_joined(field_texts(rest), ", "@);
        lemma_holds_concat(b, r, ", "@, joined(field_texts(rest), ", "@));
        assert(b[r] == char_byte(", "@[0]));
        assert(b[r + 1] == char_byte(", "@[1]));
        lemma_field_at(b, q, f0);
        lemma_run_to(b, r, r, ByteClass::Multispace);
        lemma_field_texts(rest);
        let j0 = joined(field_texts(rest), ", "@);
        lemma_joined_front(field_texts(rest), ", "@);
        assert(field_texts(rest)[0] == field_text(rest[0]));
        reveal_strlit(": ");
        assert(field_text(rest[0]) == rest[0].name + ": "@ + type_text(rest[0].ty));
        assert(b[r + 2] == char_byte(j0[0]));
        assert(j0[0] == rest[0].name[0]);
        lemma_run_to(b, r + 1, r + 2, ByteClass::Multispace);
        lemma_params_tail(b, r + 2, rest);
        assert(seq![f0] + rest =~= fs);
        assert(params_tail(b, r + 2) == Outcome::Parsed(rest, end + 1));
        assert(field_at(b, q) == Outcome::Parsed(f0, r));
    } else {
        assert(tails(fts.drop_first(), ", "@) == Seq::<char>::empty());
        lemma_field_at(b, q, f0);
        lemma_run_to(b, r, r, ByteClass::Multispace);
        assert(fs =~= seq![f0]);
    }
}

/// A parameter list in parentheses, followed by anything, is read as written.
#[verifier::spinoff_prover]
#[verifier::rlimit(60)]
proof fn lemma_params_at(b: Seq<u8>, p: int, fs: Seq<FieldModel>)
    requires
        forall|i: int| 0 <= i < fs.len() ==> field_reads_back(#[trigger] fs[i]),
        holds_text(b, p, "("@ + joined(field_texts(fs), ", "@) + ")"@),
    ensures
        params_at(b, p) == Outcome::Parsed(fs, p + joined(field_texts(fs), ", "@).len() + 2),
{
    reveal_strlit("(");
    reveal_strlit(")");
    reveal(params_at);
    let body = joined(field_texts(fs), ", "@);
    lemma_holds_concat(b, p, "("@ + body, ")"@);
    lemma_holds_concat(b, p, "("@, body);
    assert(b[p] == char_byte("("@[0]));
    let end = p + 1 + body.len();
    assert(b[end] == char_byte(")"@[0]));
    if fs.len() == 0 {
        lemma_field_texts(fs);
        assert(body == Seq::<char>::empty());
        lemma_run_to(b, p + 1, p + 1, ByteClass::Multispace);
        assert(fs =~= Seq::<FieldModel>::empty());
    } else {
        lemma_field_texts(fs);
        lemma_joined_front(field_texts(fs), ", "@);
        assert(field_texts(fs)[0] == field_text(fs[0]));
        reveal_strlit(": ");
        assert(body[0] == fs[0].name[0]);
        assert(b[p + 1] == char_byte(body[0]));
        lemma_run_to(b, p + 1, p + 1, ByteClass::Multispace);
        lemma_params_tail(b, p + 1, fs);
    }
}

/// The text of a method stands for it alone: its name is well formed, it has no comments (its
/// text leaves them out), it has outputs (without them its text has no `->`, which a method
/// definition must have), and the text of each of its parameters stands for the parameter alone.
pub open spec fn method_reads_back(m: MethodModel) -> bool {
    &&& is_type_name(m.name)
    &&& m.comments.len() == 0
    &&& m.outputs.len() > 0
    &&& forall|i: int| 0 <= i < m.inputs.len() ==> field_reads_back(#[trigger] m.inputs[i])
    &&& forall|i: int| 0 <= i < m.outputs.len() ==> field_reads_back(#[trigger] m.outputs[i])
}

/// A parameter list in parentheses is ASCII.
proof fn lemma_params_text_ascii(fs: Seq<FieldModel>)
    requires
        forall|i: int| 0 <= i < fs.len() ==> field_reads_back(#[trigger] fs[i]),
    ensures
        is_ascii_text("("@ + joined(field_texts(fs), ", "@) + ")"@),
{
    reveal_strlit("(");
    reveal_strlit(")");
    reveal_strlit(", ");
    lemma_field_texts(fs);
    let fts = field_texts(fs);
    assert forall|i: int| 0 <= i < fts.len() implies is_ascii_text(#[trigger] fts[i]) by {
        lemma_field_text_ascii(fs[i]);
    }
    lemma_joined_ascii(fts, ", "@);
    lemma_ascii_concat("("@, joined(fts, ", "@));
    lemma_ascii_concat("("@ + joined(fts, ", "@), ")"@);
}

/// The start of a definition: a keyword, a space, and a type name followed by a byte that cannot
/// go on it.
proof fn lemma_definition_head(b: Seq<u8>, p: int, t: Token, name: Seq<char>)
    requires
        is_type_name(name),
        holds_text(b, p, token_text(t) + " "@ + name),
        p + token_text(t).len() + 1 + name.len() < b.len(),
        !in_class(b[p + token_text(t).len() + 1 + name.len()], ByteClass::Alnum),
        is_alpha(token_bytes(t)[0]),
    ensures
        b[p] == token_bytes(t)[0],
        keyword_at(b, p, t) == Outcome::Parsed((), p + token_text(t).len() + 1),
        type_name_end(b, p + token_text(t).len() + 1) == Some(p + token_text(t).len() + 1 + name.len()),
        text(b, p + token_text(t).len() + 1, p + token_text(t).len() + 1 + name.len()) == name,
{
    reveal_strlit(" ");
    lemma_token_text(t);
    let k = token_text(t).len() as int;
    let n = p + k + 1 + name.len();
    lemma_holds_concat(b, p, token_text(t) + " "@, name);
    lemma_holds_concat(b, p, token_text(t), " "@);
    assert(b[p] == char_byte(token_text(t)[0]));
    assert(b[p + k] == char_byte(" "@[0]));
    assert(b[p + k + 1] == char_byte(name[0]));
    lemma_holds_token(b, p, t);
    lemma_run_to(b, p + k, p + k + 1, ByteClass::AsciiWhitespace);
    assert forall|i: int| p + k + 2 <= i < n implies in_class(#[trigger] b[i], ByteClass::Alnum) by {
        assert(b[p + k + 1 + (i - p - k - 1)] == char_byte(name[i - p - k - 1]));
    }
    lemma_run_to(b, p + k + 2, n, ByteClass::Alnum);
    lemma_text_of(b, p + k + 1, name);
}

/// The text of a method is read as the method.
#[verifier::spinoff_prover]
#[verifier::rlimit(60)]
proof fn lemma_method_at(b: Seq<u8>, p: int, m: MethodModel)
    requires
        method_reads_back(m),
        holds_text(b, p, method_text(m)),
    ensures
        method_at(b, p) == Outcome::Parsed(m, p + method_text(m).len()),
{
    reveal_strlit("method ");
    reveal_strlit("method");
    reveal_strlit(" ");
    reveal_strlit("(");
    reveal_strlit(")");
    reveal_strlit(" -> (");
    reveal_strlit("->");
    reveal(method_at);
    let mt = method_text(m);
    let fi = joined(field_texts(m.inputs), ", "@);
    let fo = joined(field_texts(m.outputs), ", "@);
    let ins = "("@ + fi + ")"@;
    let outs = "("@ + fo + ")"@;
    let pre = token_text(Token::Method) + " "@ + m.name;
    assert(mt =~= pre + ins + (" "@ + "->"@ + " "@) + outs);
    lemma_holds_concat(b, p, pre + ins + (" "@ + "->"@ + " "@), outs);
    lemma_holds_concat(b, p, pre + ins, " "@ + "->"@ + " "@);
    lemma_holds_concat(b, p, pre, ins);
    let n: int = p + 7int + m.name.len();
    let p4: int = n + ins.len();
    lemma_holds_concat(b, p4, " "@ + "->"@, " "@);
    lemma_holds_concat(b, p4, " "@, "->"@);
    assert(b[n] == char_byte(ins[0]));
    assert(b[p4] == char_byte(" "@[0]));
    assert(b[p4 + 1] == char_byte("->"@[0]));
    assert(b[p4 + 3] == char_byte(" "@[0]));
    assert(b[p4 + 4] == char_byte(outs[0]));
    lemma_definition_head(b, p, Token::Method, m.name);
    lemma_comments_none(b, p);
    lemma_ws_none(b, n);
    lemma_params_at(b, n, m.inputs);
    lemma_ws_one(b, p4);
    assert(token_text(Token::Arrow) == "->"@);
    lemma_holds_token(b, p4 + 1, Token::Arrow);
    lemma_ws_one(b, p4 + 3);
    lemma_params_at(b, p4 + 4, m.outputs);
    assert(m.comments =~= Seq::<Seq<char>>::empty());
}

/// Reading back the IDL text of a method gives the method: `parse_method` of the text that
/// `Method::to_string` writes reads the same method, where that text stands for the method alone
/// (see `method_reads_back`).
pub proof fn law_method_text_read_back(m: MethodModel)
    requires
        method_reads_back(m),
    ensures
        method_at(idl_bytes(method_text(m)), 0) == Outcome::Parsed(
            m,
            idl_bytes(method_text(m)).len() as int,
        ),
        parse_result(idl_bytes(method_text(m)), method_at(idl_bytes(method_text(m)), 0)) == Ok::<
            MethodModel,
            Seq<char>,
        >(m),
{
    reveal_strlit("method ");
    reveal_strlit("method");
    reveal_strlit(" ");
    reveal_strlit("(");
    reveal_strlit(")");
    reveal_strlit(" -> (");
    reveal_strlit("->");
    let mt = method_text(m);
    let fi = joined(field_texts(m.inputs), ", "@);
    let fo = joined(field_texts(m.outputs), ", "@);
    let ins = "("@ + fi + ")"@;
    let outs = "("@ + fo + ")"@;
    let pre = "method"@ + " "@ + m.name;
    assert(mt =~= pre + ins + (" "@ + "->"@ + " "@) + outs);
    lemma_params_text_ascii(m.inputs);
    lemma_params_text_ascii(m.outputs);
    lemma_ascii_concat("method"@ + " "@, m.name);
    lemma_ascii_concat(pre, ins);
    lemma_ascii_concat(pre + ins, " "@ + "->"@ + " "@);
    lemma_ascii_concat(pre + ins + (" "@ + "->"@ + " "@), outs);
    lemma_trimmed_same(mt);
    lemma_encode_ascii(mt);
    let b = idl_bytes(mt);
    assert(b == ascii_bytes(mt));
    assert(holds_text(b, 0, mt));
    lemma_method_at(b, 0, m);
    lemma_ws_none(b, b.len() as int);
}

/// The encoding of a text is the encodings of its parts, one after the other.
proof fn lemma_encode_concat(a: Seq<char>, c: Seq<char>)
    ensures
        encode_utf8(a + c) == encode_utf8(a) + encode_utf8(c),
    decreases a.len(),
{
    if a.len() == 0 {
        assert(a + c =~= c);
        assert(encode_utf8(a) + encode_utf8(c) =~= encode_utf8(c));
    } else {
        assert((a + c).drop_first() =~= a.drop_first() + c);
        assert((a + c)[0] == a[0]);
        lemma_encode_concat(a.drop_first(), c);
        assert(encode_utf8(a + c) =~= encode_utf8(a) + encode_utf8(c));
    }
}

/// A scalar that is not ASCII is encoded in bytes that all have the high bit set.
proof fn lemma_encode_scalar_high(v: u32)
    requires
        is_scalar(v),
        !has_width_1_encoding(v),
    ensures
        forall|i: int| 0 <= i < encode_scalar(v).len() ==> #[trigger] encode_scalar(v)[i] >= 0x80,
{
    assert(0xC0 | ((v >> 6) & 0x1F) as u8 >= 0x80) by (bit_vector);
    assert(0xE0 | ((v >> 12) & 0x0F) as u8 >= 0x80) by (bit_vector);
    assert(0xF0 | ((v >> 18) & 0x7) as u8 >= 0x80) by (bit_vector);
    assert(0x80 | (v & 0x3F) as u8 >= 0x80) by (bit_vector);
    assert(0x80 | ((v >> 6) & 0x3F) as u8 >= 0x80) by (bit_vector);
    assert(0x80 | ((v >> 12) & 0x3F) as u8 >= 0x80) by (bit_vector);
}

/// The encoding of an ASCII scalar is its one byte.
proof fn lemma_encode_scalar_ascii(v: u32)
    requires
        has_width_1_encoding(v),
    ensures
        encode_scalar(v) == seq![v as u8],
{
    lemma_encode_ascii_char(v);
    assert(encode_scalar(v) =~= seq![v as u8]);
}

/// A text without line feeds is encoded without line feed bytes.
proof fn lemma_encode_no_lf(c: Seq<char>)
    requires
        forall|i: int| 0 <= i < c.len() ==> (#[trigger] c[i] as u32) != 0x0a,
    ensures
        forall|i: int| 0 <= i < encode_utf8(c).len() ==> #[trigger] encode_utf8(c)[i] != 0x0a,
    decreases c.len(),
{
    if c.len() > 0 {
        let v = c[0] as u32;
        char_is_scalar(c[0]);
        let rest = c.drop_first();
        assert forall|i: int| 0 <= i < rest.len() implies (#[trigger] rest[i] as u32) != 0x0a by {
            assert(rest[i] == c[i + 1]);
        }
        lemma_encode_no_lf(rest);
        let h = encode_scalar(v);
        if has_width_1_encoding(v) {
            lemma_encode_scalar_ascii(v);
        } else {
            lemma_encode_scalar_high(v);
        }
        assert forall|i: int| 0 <= i < encode_utf8(c).len() implies #[trigger] encode_utf8(c)[i] != 0x0a by {
            if i < h.len() {
                assert(encode_utf8(c)[i] == h[i]);
            } else {
                assert(encode_utf8(c)[i] == encode_utf8(rest)[i - h.len()]);
            }
        }
    }
}

/// A comment that reads back from its line: it holds no line feed, and does not start with a
/// blank (reading a comment passes over the blanks after `#`).
pub open spec fn is_comment_line(c: Seq<char>) -> bool {
    &&& forall|i: int| 0 <= i < c.len() ==> (#[trigger] c[i] as u32) != 0x0a
    &&& c.len() > 0 ==> (c[0] as u32) != 0x20 && (c[0] as u32) != 0x09
}

/// The encoding of a comment starts with a byte that is not a blank, or is empty.
proof fn lemma_encode_first_not_blank(c: Seq<char>)
    requires
        is_comment_line(c),
        c.len() > 0,
    ensures
        encode_utf8(c).len() > 0,
        !in_class(encode_utf8(c)[0], ByteClass::Blank),
{
    let v = c[0] as u32;
    char_is_scalar(c[0]);
    if has_width_1_encoding(v) {
        lemma_encode_scalar_ascii(v);
        assert((v as u8) as u32 == v);
    } else {
        lemma_encode_scalar_high(v);
        assert(encode_scalar(v).len() > 0);
    }
    assert(encode_utf8(c)[0] == encode_scalar(v)[0]);
}

/// Comment lines, read from the front: the first, then the others.
proof fn lemma_comment_lines_front(cs: Seq<Seq<char>>, indent: Seq<char>)
    requires
        cs.len() > 0,
    ensures
        comment_lines(cs, indent) == indent + "# "@ + cs[0] + "\n"@ + comment_lines(cs.drop_first(), indent),
    decreases cs.len(),
{
    if cs.len() == 1 {
        assert(cs.drop_last() =~= Seq::<Seq<char>>::empty());
        assert(cs.drop_first() =~= Seq::<Seq<char>>::empty());
        assert(comment_lines(cs, indent) =~= indent + "# "@ + cs[0] + "\n"@ + comment_lines(cs.drop_first(), indent));
    } else {
        let init = cs.drop_last();
        lemma_comment_lines_front(init, indent);
        assert(init.drop_first() =~= cs.drop_first().drop_last());
        assert(cs.drop_first().last() == cs.last());
        assert(init[0] == cs[0]);
        assert(comment_lines(cs, indent) =~= indent + "# "@ + cs[0] + "\n"@ + comment_lines(cs.drop_first(), indent));
    }
}

/// Comment lines, each `#`, a space, the comment and a line feed, followed by a byte that is
/// neither whitespace nor `#`, are read as the comments.
#[verifier::spinoff_prover]
#[verifier::rlimit(60)]
proof fn lemma_comments_read(b: Seq<u8>, p: int, cs: Seq<Seq<char>>)
    requires
        forall|i: int| 0 <= i < cs.len() ==> is_comment_line(#[trigger] cs[i]),
        0 <= p,
        p + encode_utf8(comment_lines(cs, ""@)).len() < b.len(),
        b.subrange(p, p + encode_utf8(comment_lines(cs, ""@)).len()) == encode_utf8(comment_lines(cs, ""@)),
        !in_class(b[p + encode_utf8(comment_lines(cs, ""@)).len()], ByteClass::Multispace),
        b[p + encode_utf8(comment_lines(cs, ""@)).len()] != HASH,
    ensures
        comments_at(b, p) == (cs, p + encode_utf8(comment_lines(cs, ""@)).len()),
    decreases cs.len(),
{
    reveal_strlit("");
    reveal_strlit("# ");
    reveal_strlit("\n");
    if cs.len() == 0 {
        assert(comment_lines(cs, ""@) == Seq::<char>::empty());
        lemma_comments_none(b, p);
    } else {
        let c0 = cs[0];
        let rest = cs.drop_first();
        assert forall|i: int| 0 <= i < rest.len() implies is_comment_line(#[trigger] rest[i]) by {
            assert(rest[i] == cs[i + 1]);
        }
        lemma_comment_lines_front(cs, ""@);
        let tail = comment_lines(rest, ""@);
        assert(comment_lines(cs, ""@) =~= "# "@ + c0 + "\n"@ + tail);
        lemma_encode_concat("# "@ + c0 + "\n"@, tail);
        lemma_encode_concat("# "@ + c0, "\n"@);
        lemma_encode_concat("# "@, c0);
        lemma_encode_ascii("# "@);
        lemma_encode_ascii("\n"@);
        let e0 = encode_utf8(c0);
        let k = e0.len() as int;
        let whole = encode_utf8(comment_lines(cs, ""@));
        assert(whole =~= seq![0x23u8, 0x20u8] + e0 + seq![0x0au8] + encode_utf8(tail));
        let sub = b.subrange(p, p + whole.len());
        assert(b[p] == sub[0]);
        assert(b[p + 1] == sub[1]);
        assert(b[p + 2 + k] == sub[2 + k]);
        assert forall|i: int| 0 <= i < k implies b[p + 2 + i] == #[trigger] e0[i] by {
            assert(sub[2 + i] == e0[i]);
        }
        assert(b.subrange(p + 2, p + 2 + k) =~= e0);
        let after = p + 3 + k;
        let tl = encode_utf8(tail).len() as int;
        assert(b.subrange(after, after + tl) =~= encode_utf8(tail)) by {
            assert forall|i: int| 0 <= i < tl implies b.subrange(after, after + tl)[i] == encode_utf8(tail)[i] by {
                assert(sub[3 + k + i] == encode_utf8(tail)[i]);
            }
        }
        // Reading the first comment.
        lemma_run_to(b, p, p, ByteClass::Multispace);
        if k > 0 {
            lemma_encode_first_not_blank(c0);
            assert(b[p + 2] == e0[0]);
        }
        lemma_run_to(b, p + 1, p + 2, ByteClass::Blank);
        lemma_encode_no_lf(c0);
        assert forall|i: int| p + 2 <= i < p + 2 + k implies in_class(#[trigger] b[i], ByteClass::NotLf) by {
            assert(b[p + 2 + (i - p - 2)] == e0[i - p - 2]);
        }
        lemma_run_to(b, p + 2, p + 2 + k, ByteClass::NotLf);
        if rest.len() > 0 {
            lemma_comment_lines_front(rest, ""@);
            assert(tail[0] == '#');
            lemma_encode_concat("# "@, rest[0] + "\n"@ + comment_lines(rest.drop_first(), ""@));
            assert(tail =~= "# "@ + (rest[0] + "\n"@ + comment_lines(rest.drop_first(), ""@)));
            assert(encode_utf8(tail)[0] == 0x23u8);
            assert(b[after] == sub[3 + k]);
        } else {
            assert(tail == Seq::<char>::empty());
        }
        lemma_run_to(b, p + 2 + k, after, ByteClass::Multispace);
        assert(text(b, p + 2, p + 2 + k) == c0);
        lemma_comments_read(b, after, rest);
        assert(seq![c0] + rest =~= cs);
    }
}

/// The text of an error stands for it alone: its name is well formed, each of its comments
/// reads back from its line, and the text of each of its fields stands for the field alone.
pub open spec fn error_reads_back(e: ErrorModel) -> bool {
    &&& is_type_name(e.name)
    &&& forall|i: int| 0 <= i < e.comments.len() ==> is_comment_line(#[trigger] e.comments[i])
    &&& forall|i: int| 0 <= i < e.fields.len() ==> field_reads_back(#[trigger] e.fields[i])
}

/// The text of an error after its comment lines: `error`, its name and its fields.
pub open spec fn error_head_text(e: ErrorModel) -> Seq<char> {
    "error"@ + " "@ + e.name + " "@ + ("("@ + joined(field_texts(e.fields), ", "@) + ")"@)
}

proof fn lemma_error_text_parts(e: ErrorModel)
    ensures
        error_text(e) == comment_lines(e.comments, ""@) + error_head_text(e),
{
    reveal_strlit("error ");
    reveal_strlit("error");
    reveal_strlit(" ");
    reveal_strlit(" (");
    reveal_strlit("(");
    assert(error_text(e) =~= comment_lines(e.comments, ""@) + error_head_text(e));
}

/// The text of an error is read as the error.
#[verifier::spinoff_prover]
#[verifier::rlimit(60)]
proof fn lemma_error_at(b: Seq<u8>, p: int, e: ErrorModel)
    requires
        error_reads_back(e),
        0 <= p,
        p + encode_utf8(comment_lines(e.comments, ""@)).len() <= b.len(),
        b.subrange(p, p + encode_utf8(comment_lines(e.comments, ""@)).len()) == encode_utf8(
            comment_lines(e.comments, ""@),
        ),
        holds_text(b, p + encode_utf8(comment_lines(e.comments, ""@)).len(), error_head_text(e)),
    ensures
        error_at(b, p) == Outcome::Parsed(
            e,
            p + encode_utf8(comment_lines(e.comments, ""@)).len() + error_head_text(e).len(),
        ),
{
    reveal_strlit(" ");
    reveal_strlit("(");
    reveal_strlit(")");
    reveal(error_at);
    reveal_strlit("error");
    lemma_token_text(Token::Error);
    let cl = comment_lines(e.comments, ""@);
    let head = error_head_text(e);
    let big_p = p + encode_utf8(cl).len();
    let fi = joined(field_texts(e.fields), ", "@);
    let params = "("@ + fi + ")"@;
    let pre = token_text(Token::Error) + " "@ + e.name;
    assert(head =~= pre + " "@ + params);
    lemma_holds_concat(b, big_p, pre + " "@, params);
    lemma_holds_concat(b, big_p, pre, " "@);
    let n = big_p + 6 + e.name.len();
    assert(b[n] == char_byte(" "@[0]));
    assert(b[n + 1] == char_byte(params[0]));
    assert(b[big_p] == char_byte(head[0]));
    lemma_comments_read(b, p, e.comments);
    lemma_definition_head(b, big_p, Token::Error, e.name);
    lemma_ws_one(b, n);
    lemma_params_at(b, n + 1, e.fields);
}

/// Reading back the IDL text of an error gives the error: `parse_error` of the text that
/// `Error::to_string` writes reads the same error, where that text stands for the error alone
/// (see `error_reads_back`).
pub proof fn law_error_text_read_back(e: ErrorModel)
    requires
        error_reads_back(e),
    ensures
        error_at(idl_bytes(error_text(e)), 0) == Outcome::Parsed(
            e,
            idl_bytes(error_text(e)).len() as int,
        ),
        parse_result(idl_bytes(error_text(e)), error_at(idl_bytes(error_text(e)), 0)) == Ok::<
            ErrorModel,
            Seq<char>,
        >(e),
{
    reveal_strlit("error");
    reveal_strlit(" ");
    reveal_strlit("(");
    reveal_strlit(")");
    reveal_strlit("# ");
    reveal_strlit("");
    let et = error_text(e);
    let cl = comment_lines(e.comments, ""@);
    let head = error_head_text(e);
    lemma_error_text_parts(e);
    let fi = joined(field_texts(e.fields), ", "@);
    lemma_params_text_ascii(e.fields);
    lemma_ascii_concat("error"@ + " "@, e.name);
    lemma_ascii_concat("error"@ + " "@ + e.name, " "@);
    lemma_ascii_concat("error"@ + " "@ + e.name + " "@, "("@ + fi + ")"@);
    if e.comments.len() > 0 {
        lemma_comment_lines_front(e.comments, ""@);
        assert(et[0] == '#');
    } else {
        assert(cl == Seq::<char>::empty());
        assert(et[0] == 'e');
    }
    assert(et.last() == ')');
    lemma_trimmed_same(et);
    lemma_encode_concat(cl, head);
    lemma_encode_ascii(head);
    let b = idl_bytes(et);
    assert(b.subrange(0, encode_utf8(cl).len() as int) =~= encode_utf8(cl));
    assert(holds_text(b, encode_utf8(cl).len() as int, head)) by {
        assert forall|i: int| 0 <= i < head.len() implies b[encode_utf8(cl).len() + i] == char_byte(
            #[trigger] head[i],
        ) by {
            assert(b[encode_utf8(cl).len() + i] == ascii_bytes(head)[i]);
        }
    }
    lemma_error_at(b, 0, e);
    lemma_ws_none(b, b.len() as int);
}

/// The member that a field's text is read as.
pub open spec fn field_member(f: FieldModel) -> MemberModel {
    MemberModel { name: f.name, ty: Some(f.ty), comments: f.comments }
}

/// The member that a variant name's text is read as.
pub open spec fn name_member(n: Seq<char>) -> MemberModel {
    MemberModel { name: n, ty: None, comments: seq![] }
}

/// Fields of a named object type, separated by commas and spaces, up to and with the closing
/// parenthesis, are read as typed members.
#[verifier::spinoff_prover]
#[verifier::rlimit(60)]
proof fn lemma_members_fields(b: Seq<u8>, q: int, fs: Seq<FieldModel>)
    requires
        fs.len() > 0,
        forall|i: int| 0 <= i < fs.len() ==> field_reads_back(#[trigger] fs[i]),
        holds_text(b, q, joined(field_texts(fs), ", "@)),
        q + joined(field_texts(fs), ", "@).len() < b.len(),
        b[q + joined(field_texts(fs), ", "@).len()] == 0x29,
    ensures
        members_tail(b, q) == Outcome::Parsed(
            fs.map_values(|f: FieldModel| field_member(f)),
            q + joined(field_texts(fs), ", "@).len() + 1,
        ),
    decreases fs.len(),
{
    reveal_strlit(", ");
    reveal_strlit(": ");
    reveal(member_at);
    lemma_field_texts(fs);
    let fts = field_texts(fs);
    lemma_joined_front(fts, ", "@);
    let f0 = fs[0];
    let rest = fs.drop_first();
    assert(fts[0] == field_text(f0));
    lemma_holds_concat(b, q, field_text(f0), tails(fts.drop_first(), ", "@));
    let r = q + field_text(f0).len();
    let end = q + joined(fts, ", "@).len();
    // The first member.
    lemma_holds_concat(b, q, f0.name + ": "@, type_text(f0.ty));
    lemma_holds_concat(b, q, f0.name, ": "@);
    let e1 = q + f0.name.len();
    assert(b[q] == char_byte(f0.name[0]));
    assert(b[e1] == char_byte(": "@[0]));
    assert(b[e1 + 1] == char_byte(": "@[1]));
    lemma_type_text_first(f0.ty);
    lemma_first_byte_plain(f0.ty);
    assert(b[e1 + 2] == char_byte(type_text(f0.ty)[0]));
    lemma_comments_none(b, q);
    lemma_field_name_end(b, q, f0.name);
    lemma_run_to(b, e1, e1, ByteClass::Multispace);
    lemma_run_to(b, e1 + 1, e1 + 2, ByteClass::Multispace);
    if rest.len() > 0 {
        assert(b[r] == char_byte(tails(fts.drop_first(), ", "@)[0]));
    }
    lemma_type_at(b, e1 + 2, f0.ty);
    assert(f0.comments =~= Seq::<Seq<char>>::empty());
    assert(member_at(b, q) == Outcome::Parsed(field_member(f0), r));
    lemma_run_to(b, r, r, ByteClass::Multispace);
    assert forall|i: int| 0 <= i < rest.len() implies field_reads_back(#[trigger] rest[i]) by {
        assert(rest[i] == fs[i + 1]);
    }
    if rest.len() > 0 {
        lemma_field_texts(rest);
        assert(fts.drop_first() =~= field_texts(rest));
        lemma_tails_joined(field_texts(rest), ", "@);
        lemma_holds_concat(b, r, ", "@, joined(field_texts(rest), ", "@));
        assert(b[r + 1] == char_byte(", "@[1]));
        let j0 = joined(field_texts(rest), ", "@);
        lemma_joined_front(field_texts(rest), ", "@);
        assert(field_texts(rest)[0] == field_text(rest[0]));
        assert(j0[0] == rest[0].name[0]);
        assert(b[r + 2] == char_byte(j0[0]));
        lemma_run_to(b, r + 1, r + 2, ByteClass::Multispace);
        lemma_members_fields(b, r + 2, rest);
        assert(seq![field_member(f0)] + rest.map_values(|f: FieldModel| field_member(f))
            =~= fs.map_values(|f: FieldModel| field_member(f)));
    } else {
        assert(tails(fts.drop_first(), ", "@) == Seq::<char>::empty());
        assert(seq![field_member(f0)] =~= fs.map_values(|f: FieldModel| field_member(f)));
    }
}

/// Variant names of a named enum type, separated by commas and spaces, up to and with the
/// closing parenthesis, are read as untyped members.
#[verifier::spinoff_prover]
#[verifier::rlimit(60)]
proof fn lemma_members_names(b: Seq<u8>, q: int, names: Seq<Seq<char>>)
    requires
        names.len() > 0,
        forall|i: int| 0 <= i < names.len() ==> is_field_name(#[trigger] names[i]),
        holds_text(b, q, joined(names, ", "@)),
        q + joined(names, ", "@).len() < b.len(),
        b[q + joined(names, ", "@).len()] == 0x29,
    ensures
        members_tail(b, q) == Outcome::Parsed(
            names.map_values(|n: Seq<char>| name_member(n)),
            q + joined(names, ", "@).len() + 1,
        ),
    decreases names.len(),
{
    reveal_strlit(", ");
    reveal(member_at);
    lemma_joined_front(names, ", "@);
    let n0 = names[0];
    let rest = names.drop_first();
    lemma_holds_concat(b, q, n0, tails(rest, ", "@));
    let r = q + n0.len();
    assert(b[q] == char_byte(n0[0]));
    if rest.len() > 0 {
        assert(b[r] == char_byte(tails(rest, ", "@)[0]));
    }
    lemma_comments_none(b, q);
    lemma_field_name_end(b, q, n0);
    lemma_run_to(b, r, r, ByteClass::Multispace);
    assert(member_at(b, q) == Outcome::Parsed(name_member(n0), r));
    assert forall|i: int| 0 <= i < rest.len() implies is_field_name(#[trigger] rest[i]) by {
        assert(rest[i] == names[i + 1]);
    }
    if rest.len() > 0 {
        lemma_tails_joined(rest, ", "@);
        lemma_holds_concat(b, r, ", "@, joined(rest, ", "@));
        assert(b[r + 1] == char_byte(", "@[1]));
        lemma_joined_front(rest, ", "@);
        assert(b[r + 2] == char_byte(joined(rest, ", "@)[0]));
        lemma_run_to(b, r + 1, r + 2, ByteClass::Multispace);
        lemma_members_names(b, r + 2, rest);
        assert(seq![name_member(n0)] + rest.map_values(|n: Seq<char>| name_member(n))
            =~= names.map_values(|n: Seq<char>| name_member(n)));
    } else {
        assert(tails(rest, ", "@) == Seq::<char>::empty());
        assert(seq![name_member(n0)] =~= names.map_values(|n: Seq<char>| name_member(n)));
    }
}

/// The text of a named type definition stands for it alone: its name is well formed, each of
/// its comments reads back from its line, and, for an object, the text of each of its fields
/// stands for the field alone; for an enum, it has variants (a definition without members is
/// read as an object), and they have no comments and well-formed names. (Variants with comments
/// are written one per line without commas, which reads back only for a single variant; that case
/// is left out here.)
pub open spec fn custom_type_reads_back(c: CustomTypeModel) -> bool {
    match c {
        CustomTypeModel::Object(o) => {
            &&& is_type_name(o.name)
            &&& forall|i: int| 0 <= i < o.comments.len() ==> is_comment_line(#[trigger] o.comments[i])
            &&& forall|i: int| 0 <= i < o.fields.len() ==> field_reads_back(#[trigger] o.fields[i])
        },
        CustomTypeModel::Enum(e) => {
            &&& is_type_name(e.name)
            &&& forall|i: int| 0 <= i < e.comments.len() ==> is_comment_line(#[trigger] e.comments[i])
            &&& e.variants.len() > 0
            &&& forall|i: int|
                0 <= i < e.variants.len() ==> (#[trigger] e.variants[i]).comments.len() == 0
                    && is_field_name(e.variants[i].name)
        },
    }
}

/// The name, comments and members' text of a named type definition.
pub open spec fn custom_type_parts(c: CustomTypeModel) -> (Seq<char>, Seq<Seq<char>>, Seq<char>) {
    match c {
        CustomTypeModel::Object(o) => (o.name, o.comments, joined(field_texts(o.fields), ", "@)),
        CustomTypeModel::Enum(e) => (e.name, e.comments, joined(variant_names(e.variants), ", "@)),
    }
}

/// The text of a named type definition after its comment lines: `type`, its name and its
/// members in parentheses.
pub open spec fn definition_head_text(name: Seq<char>, body: Seq<char>) -> Seq<char> {
    "type"@ + " "@ + name + " "@ + ("("@ + body + ")"@)
}

proof fn lemma_custom_type_text_parts(c: CustomTypeModel)
    requires
        custom_type_reads_back(c),
    ensures
        custom_type_text(c) == comment_lines(custom_type_parts(c).1, ""@) + definition_head_text(
            custom_type_parts(c).0,
            custom_type_parts(c).2,
        ),
{
    reveal_strlit("type ");
    reveal_strlit("type");
    reveal_strlit(" ");
    reveal_strlit(" (");
    reveal_strlit("(");
    match c {
        CustomTypeModel::Object(o) => {},
        CustomTypeModel::Enum(e) => {
            lemma_plain_variants_text(e.variants);
        },
    }
    let (name, cs, body) = custom_type_parts(c);
    assert(custom_type_text(c) =~= comment_lines(cs, ""@) + definition_head_text(name, body));
}

/// The text of a named type definition is read as the definition.
#[verifier::spinoff_prover]
#[verifier::rlimit(60)]
proof fn lemma_type_def_at(b: Seq<u8>, p: int, c: CustomTypeModel)
    requires
        custom_type_reads_back(c),
        0 <= p,
        p + encode_utf8(comment_lines(custom_type_parts(c).1, ""@)).len() <= b.len(),
        b.subrange(p, p + encode_utf8(comment_lines(custom_type_parts(c).1, ""@)).len())
            == encode_utf8(comment_lines(custom_type_parts(c).1, ""@)),
        holds_text(
            b,
            p + encode_utf8(comment_lines(custom_type_parts(c).1, ""@)).len(),
            definition_head_text(custom_type_parts(c).0, custom_type_parts(c).2),
        ),
    ensures
        type_def_at(b, p) == Outcome::Parsed(
            c,
            p + encode_utf8(comment_lines(custom_type_parts(c).1, ""@)).len() + definition_head_text(
                custom_type_parts(c).0,
                custom_type_parts(c).2,
            ).len(),
        ),
{
    reveal_strlit(" ");
    reveal_strlit("(");
    reveal_strlit(")");
    reveal_strlit("type");
    reveal(type_def_at);
    lemma_token_text(Token::Type);
    let (name, cs, body) = custom_type_parts(c);
    let cl = comment_lines(cs, ""@);
    let head = definition_head_text(name, body);
    let big_p = p + encode_utf8(cl).len();
    let params = "("@ + body + ")"@;
    let pre = token_text(Token::Type) + " "@ + name;
    assert(head =~= pre + " "@ + params);
    lemma_holds_concat(b, big_p, pre + " "@, params);
    lemma_holds_concat(b, big_p, pre, " "@);
    lemma_holds_concat(b, big_p + pre.len() + 1, "("@ + body, ")"@);
    lemma_holds_concat(b, big_p + pre.len() + 1, "("@, body);
    let n = big_p + 5 + name.len();
    let end = n + 2 + body.len();
    assert(b[n] == char_byte(" "@[0]));
    assert(b[n + 1] == char_byte(params[0]));
    assert(b[end] == char_byte(")"@[0]));
    assert(b[big_p] == char_byte(head[0]));
    match c {
        CustomTypeModel::Object(o) => {
            assert forall|i: int| 0 <= i < cs.len() implies is_comment_line(#[trigger] cs[i]) by {}
        },
        CustomTypeModel::Enum(e) => {
            assert forall|i: int| 0 <= i < cs.len() implies is_comment_line(#[trigger] cs[i]) by {}
        },
    }
    lemma_comments_read(b, p, cs);
    lemma_definition_head(b, big_p, Token::Type, name);
    lemma_ws_one(b, n);
    match c {
        CustomTypeModel::Object(o) => {
            let fs = o.fields;
            if fs.len() == 0 {
                lemma_field_texts(fs);
                assert(body == Seq::<char>::empty());
                lemma_run_to(b, n + 2, n + 2, ByteClass::Multispace);
                assert(fs =~= Seq::<FieldModel>::empty());
            } else {
                lemma_field_texts(fs);
                lemma_joined_front(field_texts(fs), ", "@);
                assert(field_texts(fs)[0] == field_text(fs[0]));
                reveal_strlit(": ");
                assert(body[0] == fs[0].name[0]);
                assert(b[n + 2] == char_byte(body[0]));
                lemma_run_to(b, n + 2, n + 2, ByteClass::Multispace);
                lemma_members_fields(b, n + 2, fs);
                let ms = fs.map_values(|f: FieldModel| field_member(f));
                assert(ms[0].ty is Some);
                assert(!(exists|i: int| 0 <= i < ms.len() && (#[trigger] ms[i]).ty is None));
                assert(ms.map_values(|m: MemberModel| member_field(m)) =~= fs);
            }
        },
        CustomTypeModel::Enum(e) => {
            let vs = e.variants;
            let names = variant_names(vs);
            assert forall|i: int| 0 <= i < names.len() implies is_field_name(#[trigger] names[i]) by {
                assert(names[i] == vs[i].name);
            }
            lemma_joined_front(names, ", "@);
            assert(body[0] == names[0][0]);
            assert(b[n + 2] == char_byte(body[0]));
            lemma_run_to(b, n + 2, n + 2, ByteClass::Multispace);
            lemma_members_names(b, n + 2, names);
            let ms = names.map_values(|x: Seq<char>| name_member(x));
            assert(ms[0].ty is None);
            assert(!(exists|i: int| 0 <= i < ms.len() && (#[trigger] ms[i]).ty is Some));
            assert(ms.map_values(|m: MemberModel| member_variant(m)) =~= vs) by {
                assert forall|i: int| 0 <= i < vs.len() implies member_variant(ms[i]) == vs[i] by {
                    assert(vs[i].comments =~= Seq::<Seq<char>>::empty());
                }
            }
        },
    }
}

/// Reading back the IDL text of a named type definition gives the definition:
/// `parse_custom_type` of the text that `CustomType::to_string` writes reads the same
/// definition, where that text stands for it alone (see `custom_type_reads_back`).
pub proof fn law_custom_type_text_read_back(c: CustomTypeModel)
    requires
        custom_type_reads_back(c),
    ensures
        type_def_at(idl_bytes(custom_type_text(c)), 0) == Outcome::Parsed(
            c,
            idl_bytes(custom_type_text(c)).len() as int,
        ),
        parse_result(idl_bytes(custom_type_text(c)), type_def_at(idl_bytes(custom_type_text(c)), 0))
            == Ok::<CustomTypeModel, Seq<char>>(c),
{
    reveal_strlit("type");
    reveal_strlit(" ");
    reveal_strlit("(");
    reveal_strlit(")");
    reveal_strlit("# ");
    reveal_strlit("");
    reveal_strlit(", ");
    let ct = custom_type_text(c);
    let (name, cs, body) = custom_type_parts(c);
    let cl = comment_lines(cs, ""@);
    let head = definition_head_text(name, body);
    lemma_custom_type_text_parts(c);
    match c {
        CustomTypeModel::Object(o) => {
            lemma_params_text_ascii(o.fields);
        },
        CustomTypeModel::Enum(e) => {
            let names = variant_names(e.variants);
            assert forall|i: int| 0 <= i < names.len() implies is_ascii_text(#[trigger] names[i]) by {
                assert(names[i] == e.variants[i].name);
            }
            lemma_joined_ascii(names, ", "@);
            lemma_ascii_concat("("@, body);
            lemma_ascii_concat("("@ + body, ")"@);
        },
    }
    lemma_ascii_concat("type"@ + " "@, name);
    lemma_ascii_concat("type"@ + " "@ + name, " "@);
    lemma_ascii_concat("type"@ + " "@ + name + " "@, "("@ + body + ")"@);
    if cs.len() > 0 {
        lemma_comment_lines_front(cs, ""@);
        assert(ct[0] == '#');
    } else {
        assert(cl == Seq::<char>::empty());
        assert(ct[0] == 't');
    }
    assert(ct.last() == ')');
    lemma_trimmed_same(ct);
    lemma_encode_concat(cl, head);
    lemma_encode_ascii(head);
    let b = idl_bytes(ct);
    assert(b.subrange(0, encode_utf8(cl).len() as int) =~= encode_utf8(cl));
    assert(holds_text(b, encode_utf8(cl).len() as int, head)) by {
        assert forall|i: int| 0 <= i < head.len() implies b[encode_utf8(cl).len() + i] == char_byte(
            #[trigger] head[i],
        ) by {
            assert(b[encode_utf8(cl).len() + i] == ascii_bytes(head)[i]);
        }
    }
    lemma_type_def_at(b, 0, c);
    lemma_ws_none(b, b.len() as int);
}

/// An interface name in reverse-domain notation: an ASCII letter, then letters, digits, dashes
/// and dots, with at least one dot, each dot between two letters or digits, and a letter or digit
/// at the end.
pub open spec fn is_interface_name(s: Seq<char>) -> bool {
    &&& s.len() > 0
    &&& is_ascii_text(s)
    &&& is_alpha(char_byte(s[0]))
    &&& is_alnum(char_byte(s[s.len() - 1]))
    &&& forall|i: int|
        0 <= i < s.len() ==> in_class(char_byte(#[trigger] s[i]), ByteClass::SegmentChar)
            || char_byte(s[i]) == DOT
    &&& forall|i: int|
        0 <= i < s.len() && char_byte(#[trigger] s[i]) == DOT ==> 0 < i && i + 1 < s.len()
            && is_alnum(char_byte(s[i - 1])) && is_alnum(char_byte(s[i + 1]))
    &&& exists|i: int| 0 <= i < s.len() && char_byte(#[trigger] s[i]) == DOT
}

/// The rest of a segment from `s` ends where the name's segment does: at a dot, or at the end of
/// the name, after a letter or digit.
proof fn lemma_segment_to(b: Seq<u8>, s: int, n: int)
    requires
        0 < s <= n <= b.len(),
        is_alnum(b[s - 1]),
        forall|i: int| s <= i < n ==> in_class(#[trigger] b[i], ByteClass::SegmentChar) || b[i] == DOT,
        forall|i: int| s <= i < n && #[trigger] b[i] == DOT ==> is_alnum(b[i - 1]),
        is_alnum(b[n - 1]),
        n == b.len() || (!in_class(b[n], ByteClass::SegmentChar) && b[n] != DOT),
    ensures
        s <= segment_end(b, s) <= n,
        segment_end(b, s) == n || b[segment_end(b, s)] == DOT,
        segment_end(b, s) == run_end(b, s, ByteClass::SegmentChar),
{
    let r = run_end(b, s, ByteClass::SegmentChar);
    lemma_run_end(b, s, ByteClass::SegmentChar);
    lemma_segment_end(b, s);
    if n < b.len() {
        lemma_run_at_most(b, s, n, ByteClass::SegmentChar);
    }
    assert(r <= n);
    if r < n {
        assert(!in_class(b[r], ByteClass::SegmentChar));
        assert(b[r] == DOT);
    }
    if r > s {
        assert(is_alnum(b[r - 1]));
    }
}

/// The dotted segments from a dot on end where the name does.
proof fn lemma_dotted_to(b: Seq<u8>, q: int, n: int)
    requires
        0 < q < n <= b.len(),
        b[q] == DOT,
        forall|i: int| q <= i < n ==> in_class(#[trigger] b[i], ByteClass::SegmentChar) || b[i] == DOT,
        forall|i: int| q <= i < n && #[trigger] b[i] == DOT ==> i + 1 < n && is_alnum(b[i + 1])
            && is_alnum(b[i - 1]),
        is_alnum(b[n - 1]),
        n == b.len() || (!in_class(b[n], ByteClass::SegmentChar) && b[n] != DOT),
    ensures
        dotted_end(b, q) == n,
    decreases n - q,
{
    assert(q + 1 < n && is_alnum(b[q + 1]));
    assert(dot_segment_at(b, q));
    lemma_segment_to(b, q + 2, n);
    let r = segment_end(b, q + 2);
    assert(dotted_end(b, q) == dotted_end(b, r));
    if r < n {
        assert(b[r] == DOT);
        lemma_dotted_to(b, r, n);
    } else {
        assert(!dot_segment_at(b, n));
    }
}

/// An interface name, followed by a byte that cannot go on it, ends there.
proof fn lemma_interface_name_end(b: Seq<u8>, p: int, name: Seq<char>)
    requires
        is_interface_name(name),
        holds_text(b, p, name),
        p + name.len() == b.len() || (!in_class(b[p + name.len()], ByteClass::SegmentChar) && b[p
            + name.len()] != DOT),
    ensures
        interface_name_end(b, p) == Some(p + name.len()),
        text(b, p, p + name.len()) == name,
{
    let n = p + name.len();
    assert forall|i: int| p <= i < n implies in_class(#[trigger] b[i], ByteClass::SegmentChar) || b[i] == DOT by {
        assert(b[p + (i - p)] == char_byte(name[i - p]));
    }
    assert forall|i: int| p <= i < n && #[trigger] b[i] == DOT implies p < i && i + 1 < n && is_alnum(b[i + 1])
        && is_alnum(b[i - 1]) by {
        assert(b[p + (i - p)] == char_byte(name[i - p]));
        assert(char_byte(name[i - p]) == DOT);
        assert(b[p + (i - p + 1)] == char_byte(name[i - p + 1]));
        assert(b[p + (i - p - 1)] == char_byte(name[i - p - 1]));
    }
    assert(b[p + (name.len() - 1)] == char_byte(name[name.len() - 1]));
    assert(b[p] == char_byte(name[0]));
    lemma_segment_to(b, p + 1, n);
    let e = segment_end(b, p + 1);
    if e == n {
        let d = choose|i: int| 0 <= i < name.len() && char_byte(#[trigger] name[i]) == DOT;
        assert(b[p + d] == char_byte(name[d]));
        assert(d > 0);
        lemma_run_end(b, p + 1, ByteClass::SegmentChar);
        assert(in_class(b[p + d], ByteClass::SegmentChar));
        assert(false);
    }
    assert(b[e] == DOT);
    assert(p <= e < n);
    assert(e + 1 < n && is_alnum(b[e + 1]));
    assert(dot_segment_at(b, e));
    lemma_dotted_to(b, e, n);
    lemma_text_of(b, p, name);
}

/// The bytes of a part of a stretch that holds two parts one after the other.
proof fn lemma_bytes_split(b: Seq<u8>, p: int, x: Seq<u8>, y: Seq<u8>)
    requires
        0 <= p,
        p + x.len() + y.len() <= b.len(),
        b.subrange(p, p + x.len() + y.len()) == x + y,
    ensures
        b.subrange(p, p + x.len()) == x,
        b.subrange(p + x.len(), p + x.len() + y.len()) == y,
{
    assert forall|i: int| 0 <= i < x.len() implies b.subrange(p, p + x.len())[i] == x[i] by {
        assert(b.subrange(p, p + x.len() + y.len())[i] == (x + y)[i]);
    }
    assert forall|i: int| 0 <= i < y.len() implies b.subrange(p + x.len(), p + x.len() + y.len())[i]
        == y[i] by {
        assert(b.subrange(p, p + x.len() + y.len())[x.len() + i] == (x + y)[x.len() + i]);
        assert((x + y)[x.len() + i] == y[i]);
        assert(b.subrange(p, p + x.len() + y.len())[x.len() + i] == b[p + x.len() + i]);
        assert(b.subrange(p + x.len(), p + x.len() + y.len())[i] == b[p + x.len() + i]);
    }
    assert(b.subrange(p, p + x.len()) =~= x);
    assert(b.subrange(p + x.len(), p + x.len() + y.len()) =~= y);
}

/// A stretch that holds the bytes of an ASCII text holds the text.
proof fn lemma_holds_ascii(b: Seq<u8>, p: int, t: Seq<char>)
    requires
        0 <= p,
        p + t.len() <= b.len(),
        b.subrange(p, p + t.len()) == ascii_bytes(t),
    ensures
        holds_text(b, p, t),
{
    assert forall|i: int| 0 <= i < t.len() implies b[p + i] == char_byte(#[trigger] t[i]) by {
        assert(b.subrange(p, p + t.len())[i] == ascii_bytes(t)[i]);
    }
}

/// The text of a named type definition is its comment lines and its head, and the head is ASCII.
proof fn lemma_custom_type_bytes(c: CustomTypeModel)
    requires
        custom_type_reads_back(c),
    ensures
        encode_utf8(custom_type_text(c)) == encode_utf8(comment_lines(custom_type_parts(c).1, ""@))
            + ascii_bytes(definition_head_text(custom_type_parts(c).0, custom_type_parts(c).2)),
        is_ascii_text(definition_head_text(custom_type_parts(c).0, custom_type_parts(c).2)),
{
    reveal_strlit("type");
    reveal_strlit(" ");
    reveal_strlit("(");
    reveal_strlit(")");
    reveal_strlit(", ");
    let (name, cs, body) = custom_type_parts(c);
    let cl = comment_lines(cs, ""@);
    let head = definition_head_text(name, body);
    lemma_custom_type_text_parts(c);
    match c {
        CustomTypeModel::Object(o) => {
            lemma_params_text_ascii(o.fields);
        },
        CustomTypeModel::Enum(e) => {
            let names = variant_names(e.variants);
            assert forall|i: int| 0 <= i < names.len() implies is_ascii_text(#[trigger] names[i]) by {
                assert(names[i] == e.variants[i].name);
            }
            lemma_joined_ascii(names, ", "@);
            lemma_ascii_concat("("@, body);
            lemma_ascii_concat("("@ + body, ")"@);
        },
    }
    lemma_ascii_concat("type"@ + " "@, name);
    lemma_ascii_concat("type"@ + " "@ + name, " "@);
    lemma_ascii_concat("type"@ + " "@ + name + " "@, "("@ + body + ")"@);
    lemma_encode_concat(cl, head);
    lemma_encode_ascii(head);
}

/// The text of an error is its comment lines and its head, and the head is ASCII.
proof fn lemma_error_bytes(e: ErrorModel)
    requires
        error_reads_back(e),
    ensures
        encode_utf8(error_text(e)) == encode_utf8(comment_lines(e.comments, ""@)) + ascii_bytes(
            error_head_text(e),
        ),
        is_ascii_text(error_head_text(e)),
{
    reveal_strlit("error");
    reveal_strlit(" ");
    reveal_strlit("(");
    reveal_strlit(")");
    let cl = comment_lines(e.comments, ""@);
    let head = error_head_text(e);
    lemma_error_text_parts(e);
    let fi = joined(field_texts(e.fields), ", "@);
    lemma_params_text_ascii(e.fields);
    lemma_ascii_concat("error"@ + " "@, e.name);
    lemma_ascii_concat("error"@ + " "@ + e.name, " "@);
    lemma_ascii_concat("error"@ + " "@ + e.name + " "@, "("@ + fi + ")"@);
    lemma_encode_concat(cl, head);
    lemma_encode_ascii(head);
}

/// The text of a method is ASCII.
proof fn lemma_method_text_ascii(m: MethodModel)
    requires
        method_reads_back(m),
    ensures
        is_ascii_text(method_text(m)),
{
    reveal_strlit("method ");
    reveal_strlit("method");
    reveal_strlit(" ");
    reveal_strlit("(");
    reveal_strlit(")");
    reveal_strlit(" -> (");
    reveal_strlit("->");
    let mt = method_text(m);
    let fi = joined(field_texts(m.inputs), ", "@);
    let fo = joined(field_texts(m.outputs), ", "@);
    let ins = "("@ + fi + ")"@;
    let outs = "("@ + fo + ")"@;
    let pre = "method"@ + " "@ + m.name;
    assert(mt =~= pre + ins + (" "@ + "->"@ + " "@) + outs);
    lemma_params_text_ascii(m.inputs);
    lemma_params_text_ascii(m.outputs);
    lemma_ascii_concat("method"@ + " "@, m.name);
    lemma_ascii_concat(pre, ins);
    lemma_ascii_concat(pre + ins, " "@ + "->"@ + " "@);
    lemma_ascii_concat(pre + ins + (" "@ + "->"@ + " "@), outs);
}

/// The first byte of comment lines followed by a head is `#`, or the head's first byte.
proof fn lemma_commented_first(cs: Seq<Seq<char>>, head: Seq<char>)
    requires
        head.len() > 0,
        is_ascii_text(head),
    ensures
        (encode_utf8(comment_lines(cs, ""@)) + ascii_bytes(head)).len() > 0,
        (encode_utf8(comment_lines(cs, ""@)) + ascii_bytes(head))[0] == (if cs.len() > 0 {
            HASH
        } else {
            char_byte(head[0])
        }),
{
    reveal_strlit("");
    reveal_strlit("# ");
    if cs.len() > 0 {
        lemma_comment_lines_front(cs, ""@);
        let rest = cs[0] + "\n"@ + comment_lines(cs.drop_first(), ""@);
        assert(comment_lines(cs, ""@) =~= "# "@ + rest);
        lemma_encode_concat("# "@, rest);
        lemma_encode_ascii("# "@);
    } else {
        assert(comment_lines(cs, ""@) == Seq::<char>::empty());
    }
}

/// Where the input holds the text of a named type definition, it is read as the definition.
proof fn lemma_custom_member(b: Seq<u8>, p: int, c: CustomTypeModel)
    requires
        custom_type_reads_back(c),
        0 <= p,
        p + encode_utf8(custom_type_text(c)).len() <= b.len(),
        b.subrange(p, p + encode_utf8(custom_type_text(c)).len()) == encode_utf8(custom_type_text(c)),
    ensures
        type_def_at(b, p) == Outcome::Parsed(c, p + encode_utf8(custom_type_text(c)).len()),
        encode_utf8(custom_type_text(c)).len() > 0,
        b[p] == HASH || b[p] == 0x74,
{
    reveal_strlit("type");
    let (name, cs, body) = custom_type_parts(c);
    let x = encode_utf8(comment_lines(cs, ""@));
    let head = definition_head_text(name, body);
    lemma_custom_type_bytes(c);
    lemma_bytes_split(b, p, x, ascii_bytes(head));
    lemma_holds_ascii(b, p + x.len(), head);
    lemma_type_def_at(b, p, c);
    lemma_commented_first(cs, head);
    assert(b[p] == b.subrange(p, p + encode_utf8(custom_type_text(c)).len())[0]);
}

/// Where the input holds the text of an error, it is read as the error, and not as a named type
/// definition or a method.
proof fn lemma_error_member(b: Seq<u8>, p: int, e: ErrorModel)
    requires
        error_reads_back(e),
        0 <= p,
        p + encode_utf8(error_text(e)).len() <= b.len(),
        b.subrange(p, p + encode_utf8(error_text(e)).len()) == encode_utf8(error_text(e)),
    ensures
        type_def_at(b, p) is Failed,
        method_at(b, p) is Failed,
        error_at(b, p) == Outcome::Parsed(e, p + encode_utf8(error_text(e)).len()),
        encode_utf8(error_text(e)).len() > 0,
        b[p] == HASH || b[p] == 0x65,
{
    reveal_strlit("error");
    reveal(type_def_at);
    reveal(method_at);
    lemma_token_text(Token::Error);
    let x = encode_utf8(comment_lines(e.comments, ""@));
    let head = error_head_text(e);
    lemma_error_bytes(e);
    lemma_bytes_split(b, p, x, ascii_bytes(head));
    lemma_holds_ascii(b, p + x.len(), head);
    lemma_error_at(b, p, e);
    lemma_commented_first(e.comments, head);
    assert(b[p] == b.subrange(p, p + encode_utf8(error_text(e)).len())[0]);
    // Neither a named type definition nor a method starts where `error` does.
    let q = p + x.len();
    assert(b[q] == char_byte(head[0]));
    assert(b[q] == 0x65);
    lemma_comments_read(b, p, e.comments);
    lemma_not_token(b, q, Token::Type);
    lemma_not_token(b, q, Token::Method);
}

/// Where the input holds the text of a method, it is read as the method, and not as a named type
/// definition.
proof fn lemma_method_member(b: Seq<u8>, p: int, m: MethodModel)
    requires
        method_reads_back(m),
        0 <= p,
        p + encode_utf8(method_text(m)).len() <= b.len(),
        b.subrange(p, p + encode_utf8(method_text(m)).len()) == encode_utf8(method_text(m)),
    ensures
        type_def_at(b, p) is Failed,
        method_at(b, p) == Outcome::Parsed(m, p + encode_utf8(method_text(m)).len()),
        encode_utf8(method_text(m)).len() > 0,
        b[p] == 0x6d,
{
    reveal_strlit("method ");
    reveal(type_def_at);
    let mt = method_text(m);
    lemma_method_text_ascii(m);
    lemma_encode_ascii(mt);
    lemma_holds_ascii(b, p, mt);
    lemma_method_at(b, p, m);
    assert(mt[0] == 'm');
    assert(b[p] == char_byte(mt[0]));
    lemma_comments_none(b, p);
    lemma_not_token(b, p, Token::Type);
}

/// The texts of an interface's members, in the order its text holds them: its named types, then
/// its methods, then its errors.
pub open spec fn member_texts(i: InterfaceModel) -> Seq<Seq<char>> {
    i.custom_types.map_values(|c: CustomTypeModel| custom_type_text(c)) + i.methods.map_values(
        |m: MethodModel| method_text(m),
    ) + i.errors.map_values(|e: ErrorModel| error_text(e))
}

/// The items of a sequence from an index on.
pub open spec fn from_index<T>(s: Seq<T>, k: int) -> Seq<T> {
    if k <= 0 {
        s
    } else if k >= s.len() {
        Seq::empty()
    } else {
        s.subrange(k, s.len() as int)
    }
}

/// The members of an interface from the `k`-th of its member texts on, by kind.
pub open spec fn members_from(i: InterfaceModel, k: int) -> MembersModel {
    let nc = i.custom_types.len() as int;
    let nm = i.methods.len() as int;
    MembersModel {
        methods: from_index(i.methods, k - nc),
        custom_types: from_index(i.custom_types, k),
        errors: from_index(i.errors, k - nc - nm),
    }
}

/// The text of each member of an interface stands for the member alone.
pub open spec fn interface_members_read_back(i: InterfaceModel) -> bool {
    &&& forall|j: int| 0 <= j < i.custom_types.len() ==> custom_type_reads_back(#[trigger] i.custom_types[j])
    &&& forall|j: int| 0 <= j < i.methods.len() ==> method_reads_back(#[trigger] i.methods[j])
    &&& forall|j: int| 0 <= j < i.errors.len() ==> error_reads_back(#[trigger] i.errors[j])
}

/// The member texts of an interface that stand for their members alone start with `#`, `type`,
/// `method` or `error`, and are read as their members.
proof fn lemma_member_text(b: Seq<u8>, p: int, i: InterfaceModel, k: int)
    requires
        interface_members_read_back(i),
        0 <= k < member_texts(i).len(),
        0 <= p,
        p + encode_utf8(member_texts(i)[k]).len() <= b.len(),
        b.subrange(p, p + encode_utf8(member_texts(i)[k]).len()) == encode_utf8(member_texts(i)[k]),
    ensures
        encode_utf8(member_texts(i)[k]).len() > 0,
        !in_class(b[p], ByteClass::Multispace),
        k < i.custom_types.len() ==> type_def_at(b, p) == Outcome::Parsed(
            i.custom_types[k],
            p + encode_utf8(member_texts(i)[k]).len(),
        ),
        i.custom_types.len() <= k < i.custom_types.len() + i.methods.len() ==> type_def_at(b, p) is Failed
            && method_at(b, p) == Outcome::Parsed(
            i.methods[k - i.custom_types.len()],
            p + encode_utf8(member_texts(i)[k]).len(),
        ),
        i.custom_types.len() + i.methods.len() <= k ==> type_def_at(b, p) is Failed && method_at(b, p) is Failed
            && error_at(b, p) == Outcome::Parsed(
            i.errors[k - i.custom_types.len() - i.methods.len()],
            p + encode_utf8(member_texts(i)[k]).len(),
        ),
{
    let nc = i.custom_types.len() as int;
    let nm = i.methods.len() as int;
    let texts = member_texts(i);
    if k < nc {
        assert(texts[k] == custom_type_text(i.custom_types[k]));
        lemma_custom_member(b, p, i.custom_types[k]);
    } else if k < nc + nm {
        assert(texts[k] == method_text(i.methods[k - nc]));
        lemma_method_member(b, p, i.methods[k - nc]);
    } else {
        assert(texts[k] == error_text(i.errors[k - nc - nm]));
        lemma_error_member(b, p, i.errors[k - nc - nm]);
    }
}

/// Member texts, each after an empty line, are read as the members, by kind, in order.
#[verifier::spinoff_prover]
#[verifier::rlimit(60)]
proof fn lemma_members_from(b: Seq<u8>, q: int, s: int, i: InterfaceModel, k: int)
    requires
        interface_members_read_back(i),
        0 <= k <= member_texts(i).len(),
        0 <= q <= s <= b.len(),
        run_end(b, q, ByteClass::Multispace) == s,
        k == member_texts(i).len() ==> s == b.len(),
        k < member_texts(i).len() ==> b.subrange(s, b.len() as int) == encode_utf8(member_texts(i)[k])
            + encode_utf8(tails(member_texts(i).subrange(k + 1, member_texts(i).len() as int), "\n\n"@)),
    ensures
        members_at(b, q) == Outcome::Parsed(members_from(i, k), b.len() as int),
    decreases member_texts(i).len() - k,
{
    reveal_strlit("\n\n");
    let texts = member_texts(i);
    let big_n = texts.len() as int;
    let nc = i.custom_types.len() as int;
    let nm = i.methods.len() as int;
    let none = MembersModel { methods: seq![], custom_types: seq![], errors: seq![] };
    if k == big_n {
        assert(members_from(i, k).methods =~= none.methods);
        assert(members_from(i, k).custom_types =~= none.custom_types);
        assert(members_from(i, k).errors =~= none.errors);
        lemma_run_end(b, q, ByteClass::Multispace);
        if q < b.len() {
            assert(run_end(b, q, ByteClass::Multispace) >= b.len());
        }
    } else {
        let x = encode_utf8(texts[k]);
        let later = tails(texts.subrange(k + 1, big_n), "\n\n"@);
        let rest = encode_utf8(later);
        assert(b.subrange(s, b.len() as int).len() == b.len() - s);
        assert((x + rest).len() == x.len() + rest.len());
        assert(b.len() == s + x.len() + rest.len());
        assert(b.subrange(s, s + x.len() + rest.len()) =~= x + rest);
        lemma_bytes_split(b, s, x, rest);
        lemma_member_text(b, s, i, k);
        let r = s + x.len();
        // Where the next member starts.
        if k + 1 < big_n {
            let y = encode_utf8(texts[k + 1]);
            let later2 = tails(texts.subrange(k + 2, big_n), "\n\n"@);
            assert(texts.subrange(k + 1, big_n).drop_first() =~= texts.subrange(k + 2, big_n));
            assert(texts.subrange(k + 1, big_n)[0] == texts[k + 1]);
            assert(later =~= "\n\n"@ + texts[k + 1] + later2);
            lemma_encode_concat("\n\n"@ + texts[k + 1], later2);
            lemma_encode_concat("\n\n"@, texts[k + 1]);
            lemma_encode_ascii("\n\n"@);
            assert(rest =~= seq![0x0au8, 0x0au8] + y + encode_utf8(later2));
            assert(b[r] == rest[0]) by {
                assert(b.subrange(r, r + rest.len())[0] == rest[0]);
            }
            assert(b[r + 1] == rest[1]) by {
                assert(b.subrange(r, r + rest.len())[1] == rest[1]);
            }
            assert(b.subrange(r + 2, b.len() as int) =~= y + encode_utf8(later2)) by {
                assert forall|j: int| 0 <= j < y.len() + encode_utf8(later2).len() implies b.subrange(
                    r + 2,
                    b.len() as int,
                )[j] == (y + encode_utf8(later2))[j] by {
                    assert(b.subrange(r, r + rest.len())[2 + j] == rest[2 + j]);
                }
            }
            lemma_bytes_split(b, r + 2, y, encode_utf8(later2));
            lemma_member_text(b, r + 2, i, k + 1);
            lemma_run_to(b, r, r + 2, ByteClass::Multispace);
            lemma_members_from(b, r, r + 2, i, k + 1);
        } else {
            assert(texts.subrange(k + 1, big_n) =~= Seq::<Seq<char>>::empty());
            assert(later == Seq::<char>::empty());
            assert(rest =~= Seq::<u8>::empty());
            lemma_run_to(b, r, r, ByteClass::Multispace);
            lemma_members_from(b, r, r, i, k + 1);
        }
        let m = members_from(i, k + 1);
        if k < nc {
            assert(from_index(i.custom_types, k) =~= seq![i.custom_types[k]] + m.custom_types);
            assert(from_index(i.methods, k - nc) =~= m.methods);
            assert(from_index(i.errors, k - nc - nm) =~= m.errors);
        } else if k < nc + nm {
            assert(from_index(i.custom_types, k) =~= m.custom_types);
            assert(from_index(i.methods, k - nc) =~= seq![i.methods[k - nc]] + m.methods);
            assert(from_index(i.errors, k - nc - nm) =~= m.errors);
        } else {
            assert(from_index(i.custom_types, k) =~= m.custom_types);
            assert(from_index(i.methods, k - nc) =~= m.methods);
            assert(from_index(i.errors, k - nc - nm) =~= seq![i.errors[k - nc - nm]] + m.errors);
        }
    }
}

/// Texts each after an empty line are the texts each after the separator of an empty line.
proof fn lemma_blocks_tails(parts: Seq<Seq<char>>)
    ensures
        blocks(parts) == tails(parts, "\n\n"@),
    decreases parts.len(),
{
    if parts.len() > 0 {
        lemma_blocks_tails(parts.drop_last());
        lemma_tails_push(parts.drop_last(), parts.last(), "\n\n"@);
        assert(parts.drop_last().push(parts.last()) =~= parts);
    } else {
        assert(tails(parts, "\n\n"@) == Seq::<char>::empty());
    }
}

proof fn lemma_tails_concat(a: Seq<Seq<char>>, c: Seq<Seq<char>>, sep: Seq<char>)
    ensures
        tails(a + c, sep) == tails(a, sep) + tails(c, sep),
    decreases a.len(),
{
    if a.len() == 0 {
        assert(a + c =~= c);
        assert(tails(a, sep) == Seq::<char>::empty());
        assert(tails(a + c, sep) =~= tails(a, sep) + tails(c, sep));
    } else {
        assert((a + c).drop_first() =~= a.drop_first() + c);
        assert((a + c)[0] == a[0]);
        lemma_tails_concat(a.drop_first(), c, sep);
        assert(tails(a + c, sep) =~= tails(a, sep) + tails(c, sep));
    }
}

/// A member text of an interface ends with a closing parenthesis.
proof fn lemma_member_text_last(i: InterfaceModel, k: int)
    requires
        interface_members_read_back(i),
        0 <= k < member_texts(i).len(),
    ensures
        member_texts(i)[k].len() > 0,
        member_texts(i)[k].last() == ')',
{
    reveal_strlit(")");
    let nc = i.custom_types.len() as int;
    let nm = i.methods.len() as int;
    let texts = member_texts(i);
    if k < nc {
        let c = i.custom_types[k];
        assert(texts[k] == custom_type_text(c));
        lemma_custom_type_text_parts(c);
    } else if k < nc + nm {
        assert(texts[k] == method_text(i.methods[k - nc]));
    } else {
        let e = i.errors[k - nc - nm];
        assert(texts[k] == error_text(e));
        lemma_error_text_parts(e);
    }
}

/// The last character of texts each after a separator is that of the last text.
proof fn lemma_tails_last(parts: Seq<Seq<char>>, sep: Seq<char>)
    requires
        parts.len() > 0,
        parts.last().len() > 0,
    ensures
        tails(parts, sep).len() > 0,
        tails(parts, sep).last() == parts.last().last(),
{
    lemma_tails_push(parts.drop_last(), parts.last(), sep);
    assert(parts.drop_last().push(parts.last()) =~= parts);
}

/// The text of an interface stands for it alone: its name is well formed, it has no comments
/// (its text leaves them out), and the text of each of its members stands for the member alone.
pub open spec fn interface_reads_back(i: InterfaceModel) -> bool {
    &&& is_interface_name(i.name)
    &&& i.comments.len() == 0
    &&& interface_members_read_back(i)
}

/// The members' texts of an interface, each after an empty line, up to the end of the input, are
/// read as its members.
#[verifier::spinoff_prover]
#[verifier::rlimit(60)]
proof fn lemma_interface_members(b: Seq<u8>, n: int, i: InterfaceModel)
    requires
        interface_members_read_back(i),
        0 <= n <= b.len(),
        b.subrange(n, b.len() as int) == encode_utf8(tails(member_texts(i), "\n\n"@)),
    ensures
        members_at(b, run_end(b, n, ByteClass::Multispace)) == Outcome::Parsed(
            members_from(i, 0),
            b.len() as int,
        ),
        n == b.len() || b[n] == 0x0a,
{
    reveal_strlit("\n\n");
    let texts = member_texts(i);
    let big_n = texts.len() as int;
    let body = tails(texts, "\n\n"@);
    let rest = encode_utf8(body);
    if big_n > 0 {
        let y = encode_utf8(texts[0]);
        let later2 = tails(texts.subrange(1, big_n), "\n\n"@);
        assert(texts.drop_first() =~= texts.subrange(1, big_n));
        assert(body =~= "\n\n"@ + texts[0] + later2);
        lemma_encode_concat("\n\n"@ + texts[0], later2);
        lemma_encode_concat("\n\n"@, texts[0]);
        lemma_encode_ascii("\n\n"@);
        assert(rest =~= seq![0x0au8, 0x0au8] + y + encode_utf8(later2));
        assert(b.subrange(n, b.len() as int).len() == b.len() - n);
        assert(b[n] == rest[0]) by {
            assert(b.subrange(n, b.len() as int)[0] == rest[0]);
        }
        assert(b[n + 1] == rest[1]) by {
            assert(b.subrange(n, b.len() as int)[1] == rest[1]);
        }
        assert(b.subrange(n + 2, b.len() as int) =~= y + encode_utf8(later2)) by {
            assert forall|j: int| 0 <= j < b.len() - (n + 2) implies b.subrange(n + 2, b.len() as int)[j]
                == (y + encode_utf8(later2))[j] by {
                assert(b.subrange(n, b.len() as int)[2 + j] == rest[2 + j]);
            }
        }
        assert(b.len() == n + 2 + y.len() + encode_utf8(later2).len());
        lemma_bytes_split(b, n + 2, y, encode_utf8(later2));
        lemma_member_text(b, n + 2, i, 0);
        lemma_run_to(b, n, n + 2, ByteClass::Multispace);
        lemma_run_to(b, n + 2, n + 2, ByteClass::Multispace);
        lemma_members_from(b, n + 2, n + 2, i, 0);
    } else {
        assert(body == Seq::<char>::empty());
        assert(rest =~= Seq::<u8>::empty());
        assert(b.subrange(n, b.len() as int).len() == b.len() - n);
        lemma_run_to(b, n, n, ByteClass::Multispace);
        lemma_members_from(b, n, n, i, 0);
    }
}

/// The text of an interface is read as the interface.
#[verifier::spinoff_prover]
#[verifier::rlimit(60)]
proof fn lemma_interface_at(b: Seq<u8>, i: InterfaceModel)
    requires
        interface_reads_back(i),
        b == ascii_bytes("interface"@ + " "@ + i.name) + encode_utf8(tails(member_texts(i), "\n\n"@)),
    ensures
        interface_at(b, 0) == Outcome::Parsed(i, b.len() as int),
{
    reveal_strlit("interface");
    reveal_strlit(" ");
    let head = "interface"@ + " "@ + i.name;
    let rest = encode_utf8(tails(member_texts(i), "\n\n"@));
    assert(b.subrange(0, head.len() as int) =~= ascii_bytes(head));
    lemma_holds_ascii(b, 0, head);
    lemma_holds_concat(b, 0, "interface"@ + " "@, i.name);
    lemma_holds_concat(b, 0, "interface"@, " "@);
    let n: int = 10int + i.name.len();
    assert(b[0] == char_byte(head[0]));
    assert(b[9] == char_byte(" "@[0]));
    assert(b[10] == char_byte(i.name[0]));
    lemma_comments_none(b, 0);
    assert(token_text(Token::Interface) == "interface"@);
    lemma_holds_token(b, 0, Token::Interface);
    lemma_run_to(b, 9, 10, ByteClass::AsciiWhitespace);
    assert(b.subrange(n, b.len() as int) =~= rest);
    lemma_interface_members(b, n, i);
    lemma_interface_name_end(b, 10, i.name);
    let m = members_from(i, 0);
    assert(m.methods =~= i.methods);
    assert(m.custom_types =~= i.custom_types);
    assert(m.errors =~= i.errors);
    assert(i.comments =~= Seq::<Seq<char>>::empty());
}

/// Reading back the IDL text of an interface gives the interface: `parse_interface` of the text
/// that `Interface::to_string` writes reads the same interface, where that text stands for the
/// interface alone (see `interface_reads_back`).
pub proof fn law_interface_text_read_back(i: InterfaceModel)
    requires
        interface_reads_back(i),
    ensures
        interface_at(idl_bytes(interface_text(i)), 0) == Outcome::Parsed(
            i,
            idl_bytes(interface_text(i)).len() as int,
        ),
        parse_result(idl_bytes(interface_text(i)), interface_at(idl_bytes(interface_text(i)), 0))
            == Ok::<InterfaceModel, Seq<char>>(i),
{
    reveal_strlit("interface ");
    reveal_strlit("interface");
    reveal_strlit(" ");
    reveal_strlit("\n\n");
    let texts = member_texts(i);
    let big_n = texts.len() as int;
    let cts = i.custom_types.map_values(|c: CustomTypeModel| custom_type_text(c));
    let mts = i.methods.map_values(|m: MethodModel| method_text(m));
    let ets = i.errors.map_values(|e: ErrorModel| error_text(e));
    lemma_blocks_tails(cts);
    lemma_blocks_tails(mts);
    lemma_blocks_tails(ets);
    lemma_tails_concat(cts, mts, "\n\n"@);
    lemma_tails_concat(cts + mts, ets, "\n\n"@);
    let head = "interface"@ + " "@ + i.name;
    let body = tails(texts, "\n\n"@);
    let it = interface_text(i);
    assert(it =~= head + body);
    assert(it[0] == 'i');
    if big_n > 0 {
        lemma_member_text_last(i, big_n - 1);
        lemma_tails_last(texts, "\n\n"@);
        assert(it.last() == ')');
    } else {
        assert(body == Seq::<char>::empty());
        let c = i.name.last();
        assert(is_alnum(char_byte(i.name[i.name.len() - 1])));
        assert(((c as u32) as u8) as u32 == c as u32);
        assert(it.last() == c);
    }
    lemma_trimmed_same(it);
    lemma_ascii_concat("interface"@ + " "@, i.name);
    lemma_encode_concat(head, body);
    lemma_encode_ascii(head);
    let b = idl_bytes(it);
    lemma_interface_at(b, i);
    lemma_ws_none(b, b.len() as int);
}

} // verus!

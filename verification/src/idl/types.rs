//! Varlink types, type references and fields.

use vstd::prelude::*;
use vstd::std_specs::cmp::PartialEqSpec;
use vstd::std_specs::iter::IteratorSpec;
use super::comment::{comments_model, lemma_comment_list_eq, Comment};
use super::enum_variant::EnumVariant;
use super::list::List;
use super::model::{FieldModel, TypeModel, VariantModel};
use super::render::{field_text, field_texts, fields_text, joined, type_text, write_variants};
use crate::text::str_eq;
use vstd::string::StringExecFns;

verus! {

broadcast use vstd::std_specs::vec::axiom_vec_decreases_to_view;

/// Represents a type in Varlink IDL.
#[derive(Debug)]
pub enum Type<'a> {
    /// Boolean type.
    Bool,
    /// 64-bit signed integer.
    Int,
    /// 64-bit floating point.
    Float,
    /// UTF-8 string.
    String,
    /// Foreign untyped object.
    ForeignObject,
    /// Optional/nullable type.
    Optional(TypeRef<'a>),
    /// Array type.
    Array(TypeRef<'a>),
    /// Map type with string keys (`[string]T`).
    Dict(TypeRef<'a>),
    /// Custom named type reference.
    Custom(&'a str),
    /// Inline enum type.
    Enum(List<'a, EnumVariant<'a>>),
    /// Inline struct type.
    Object(Vec<Field<'a>>),
}

/// A type reference that can be either borrowed or owned.
#[derive(Debug)]
pub struct TypeRef<'a>(TypeRefInner<'a>);

#[derive(Debug)]
enum TypeRefInner<'a> {
    Borrowed(&'a Type<'a>),
    Owned(Box<Type<'a>>),
}

/// A field in a custom type or method parameter.
#[derive(Debug)]
pub struct Field<'a> {
    /// The name of the field.
    name: &'a str,
    /// The type of the field.
    ty: TypeRef<'a>,
    /// The comments associated with this field.
    comments: List<'a, Comment<'a>>,
}

/// Type alias for method parameters, which have the same structure as fields.
pub type Parameter<'a> = Field<'a>;

impl<'a> TypeRef<'a> {
    /// The type that this reference refers to.
    pub closed spec fn target(self) -> Type<'a> {
        match self.0 {
            TypeRefInner::Borrowed(t) => *t,
            TypeRefInner::Owned(b) => *b,
        }
    }

    /// Creates a new type reference with a borrowed type.
    pub fn new(inner: &'a Type<'a>) -> (r: Self)
        ensures
            r.target() == *inner,
    {
        Self(TypeRefInner::Borrowed(inner))
    }

    /// Creates a new type reference with a borrowed type.
    pub fn borrowed(inner: &'a Type<'a>) -> (r: Self)
        ensures
            r.target() == *inner,
    {
        Self(TypeRefInner::Borrowed(inner))
    }

    /// Creates a new type reference that owns its type.
    pub fn new_owned(inner: Type<'a>) -> (r: Self)
        ensures
            r.target() == inner,
    {
        Self(TypeRefInner::Owned(Box::new(inner)))
    }

    /// Returns a reference to the inner type.
    pub fn inner(&self) -> (r: &Type<'a>)
        ensures
            *r == self.target(),
    {
        match &self.0 {
            TypeRefInner::Borrowed(inner) => inner,
            TypeRefInner::Owned(inner) => inner,
        }
    }
}

impl<'a> core::ops::Deref for TypeRef<'a> {
    type Target = Type<'a>;

    fn deref(&self) -> (r: &Type<'a>)
        ensures
            *r == self.target(),
    {
        self.inner()
    }
}

impl<'a> View for TypeRef<'a> {
    type V = TypeModel;

    open spec fn view(&self) -> TypeModel {
        type_model(self.target())
    }
}

impl<'a> View for Type<'a> {
    type V = TypeModel;

    open spec fn view(&self) -> TypeModel {
        type_model(*self)
    }
}

impl<'a> View for Field<'a> {
    type V = FieldModel;

    open spec fn view(&self) -> FieldModel {
        field_model(*self)
    }
}

/// The model of a type.
pub open spec fn type_model<'a>(t: Type<'a>) -> TypeModel
    decreases t, 0nat,
{
    match t {
        Type::Bool => TypeModel::Bool,
        Type::Int => TypeModel::Int,
        Type::Float => TypeModel::Float,
        Type::String => TypeModel::String,
        Type::ForeignObject => TypeModel::ForeignObject,
        Type::Optional(r) => TypeModel::Optional(Box::new(type_model(r.target()))),
        Type::Array(r) => TypeModel::Array(Box::new(type_model(r.target()))),
        Type::Dict(r) => TypeModel::Dict(Box::new(type_model(r.target()))),
        Type::Custom(n) => TypeModel::Custom(n@),
        Type::Enum(l) => TypeModel::Enum(variants_model(l.items())),
        Type::Object(v) => TypeModel::Object(fields_model(v@)),
    }
}

/// The models of a sequence of fields.
pub open spec fn fields_model<'a>(s: Seq<Field<'a>>) -> Seq<FieldModel>
    decreases s, 1nat,
{
    Seq::new(
        s.len(),
        |i: int|
            if 0 <= i < s.len() {
                field_model(s[i])
            } else {
                FieldModel { name: Seq::empty(), ty: TypeModel::Bool, comments: Seq::empty() }
            },
    )
}

/// The model of a field.
pub open spec fn field_model<'a>(f: Field<'a>) -> FieldModel
    decreases f, 0nat,
{
    FieldModel {
        name: f.spec_name()@,
        ty: type_model(f.spec_ty()),
        comments: comments_model(f.spec_comments()),
    }
}

/// The models of a sequence of enum variants.
pub open spec fn variants_model<'a>(s: Seq<EnumVariant<'a>>) -> Seq<VariantModel> {
    Seq::new(s.len(), |i: int| s[i]@)
}

impl<'a> Field<'a> {
    /// The name of the field.
    pub closed spec fn spec_name(self) -> &'a str {
        self.name
    }

    /// The type of the field.
    pub closed spec fn spec_ty(self) -> Type<'a> {
        self.ty.target()
    }

    /// The comments of the field, in order.
    pub closed spec fn spec_comments(self) -> Seq<Comment<'a>> {
        self.comments.items()
    }
}

impl<'a> Field<'a> {
    /// Creates a new field with the given name, borrowed type and borrowed comments.
    pub fn new(name: &'a str, ty: &'a Type<'a>, comments: &'a [&'a Comment<'a>]) -> (r: Self)
        ensures
            r.spec_name() == name,
            r.spec_ty() == *ty,
            r.spec_comments() == List::<'a, Comment<'a>>::Borrowed(comments).items(),
    {
        Self { name, ty: TypeRef::borrowed(ty), comments: List::Borrowed(comments) }
    }

    /// Same as `new` but takes `ty` and `comments` by value.
    pub fn new_owned(name: &'a str, ty: Type<'a>, comments: Vec<Comment<'a>>) -> (r: Self)
        ensures
            r.spec_name() == name,
            r.spec_ty() == ty,
            r.spec_comments() == comments@,
    {
        Self { name, ty: TypeRef::new_owned(ty), comments: List::Owned(comments) }
    }

    /// Returns the name of the field.
    pub fn name(&self) -> (r: &'a str)
        ensures
            r == self.spec_name(),
    {
        self.name
    }

    /// Returns the type of the field.
    pub fn ty(&self) -> (r: &Type<'a>)
        ensures
            *r == self.spec_ty(),
    {
        self.ty.inner()
    }

    /// Returns an iterator over the comments associated with this field.
    pub fn comments(&self) -> (r: std::vec::IntoIter<&Comment<'a>>)
        ensures
            r.remaining().len() == self.spec_comments().len(),
            forall|i: int|
                0 <= i < r.remaining().len() ==> *r.remaining()[i] == self.spec_comments()[i],
    {
        self.comments.iter()
    }

    /// The comments of the field, as a list.
    pub fn comment_list(&self) -> (r: &List<'a, Comment<'a>>)
        ensures
            r.items() == self.spec_comments(),
    {
        &self.comments
    }
}

impl<'a> Type<'a> {
    /// The child type if this type is optional.
    pub fn as_optional(&self) -> (r: Option<&TypeRef<'a>>)
        ensures
            match *self {
                Type::Optional(t) => r == Some(&t),
                _ => r is None,
            },
    {
        match self {
            Type::Optional(optional) => Some(optional),
            _ => None,
        }
    }

    /// The array element type if this type is an array.
    pub fn as_array(&self) -> (r: Option<&TypeRef<'a>>)
        ensures
            match *self {
                Type::Array(t) => r == Some(&t),
                _ => r is None,
            },
    {
        match self {
            Type::Array(array) => Some(array),
            _ => None,
        }
    }

    /// The map value type if this type is a map.
    pub fn as_map(&self) -> (r: Option<&TypeRef<'a>>)
        ensures
            match *self {
                Type::Dict(t) => r == Some(&t),
                _ => r is None,
            },
    {
        match self {
            Type::Dict(map) => Some(map),
            _ => None,
        }
    }

    /// The custom type name if this type is a custom type.
    pub fn as_custom(&self) -> (r: Option<&'a str>)
        ensures
            match *self {
                Type::Custom(n) => r == Some(n),
                _ => r is None,
            },
    {
        match self {
            Type::Custom(custom) => Some(custom),
            _ => None,
        }
    }

    /// The enum variants if this type is an enum.
    pub fn as_enum(&self) -> (r: Option<&List<'a, EnumVariant<'a>>>)
        ensures
            match *self {
                Type::Enum(l) => r == Some(&l),
                _ => r is None,
            },
    {
        match self {
            Type::Enum(variants) => Some(variants),
            _ => None,
        }
    }

    /// The object fields if this type is an object.
    pub fn as_object(&self) -> (r: Option<&Vec<Field<'a>>>)
        ensures
            match *self {
                Type::Object(v) => r == Some(&v),
                _ => r is None,
            },
    {
        match self {
            Type::Object(fields) => Some(fields),
            _ => None,
        }
    }
}

/// Two sequences of enum variants have equal models exactly when they are equally long and their
/// variants have pairwise equal models.
pub proof fn lemma_variants_model_eq<'a, 'b>(a: Seq<EnumVariant<'a>>, b: Seq<EnumVariant<'b>>)
    ensures
        (variants_model(a) == variants_model(b)) <==> (a.len() == b.len() && forall|i: int|
            0 <= i < a.len() ==> #[trigger] a[i]@ == b[i]@),
{
    if a.len() == b.len() && forall|i: int| 0 <= i < a.len() ==> #[trigger] a[i]@ == b[i]@ {
        assert(variants_model(a) =~= variants_model(b));
    }
    if variants_model(a) == variants_model(b) {
        assert(variants_model(a).len() == a.len());
        assert forall|i: int| 0 <= i < a.len() implies #[trigger] a[i]@ == b[i]@ by {
            assert(variants_model(a)[i] == variants_model(b)[i]);
        }
    }
}

/// Two sequences of fields have equal models exactly when they are equally long and their fields
/// have pairwise equal models.
pub proof fn lemma_fields_model_eq<'a, 'b>(a: Seq<Field<'a>>, b: Seq<Field<'b>>)
    ensures
        (fields_model(a) == fields_model(b)) <==> (a.len() == b.len() && forall|i: int|
            0 <= i < a.len() ==> #[trigger] field_model(a[i]) == field_model(b[i])),
{
    if a.len() == b.len() && forall|i: int|
        0 <= i < a.len() ==> #[trigger] field_model(a[i]) == field_model(b[i]) {
        assert forall|i: int| 0 <= i < a.len() implies fields_model(a)[i] == fields_model(b)[i] by {
            assert(field_model(a[i]) == field_model(b[i]));
        }
        assert(fields_model(a) =~= fields_model(b));
    }
    if fields_model(a) == fields_model(b) {
        assert(fields_model(a).len() == a.len());
        assert forall|i: int| 0 <= i < a.len() implies #[trigger] field_model(a[i]) == field_model(
            b[i],
        ) by {
            assert(fields_model(a)[i] == fields_model(b)[i]);
        }
    }
}

/// Two lists of enum variants are equal exactly when their models are.
pub proof fn lemma_variant_list_eq<'a>(a: List<'a, EnumVariant<'a>>, b: List<'a, EnumVariant<'a>>)
    ensures
        a.eq_spec(&b) == (variants_model(a.items()) == variants_model(b.items())),
{
    let p = a.items();
    let q = b.items();
    lemma_variants_model_eq(p, q);
    if p.len() == q.len() {
        if forall|i: int| 0 <= i < p.len() ==> #[trigger] p[i].eq_spec(&q[i]) {
            assert forall|i: int| 0 <= i < p.len() implies #[trigger] p[i]@ == q[i]@ by {
                assert(p[i].eq_spec(&q[i]));
            }
        }
        if forall|i: int| 0 <= i < p.len() ==> #[trigger] p[i]@ == q[i]@ {
            assert forall|i: int| 0 <= i < p.len() implies #[trigger] p[i].eq_spec(&q[i]) by {
                assert(p[i]@ == q[i]@);
            }
        }
    }
}

/// Two lists of fields are equal exactly when their models are.
pub proof fn lemma_field_list_eq<'a>(a: List<'a, Field<'a>>, b: List<'a, Field<'a>>)
    ensures
        a.eq_spec(&b) == (fields_model(a.items()) == fields_model(b.items())),
{
    let p = a.items();
    let q = b.items();
    lemma_fields_model_eq(p, q);
    if p.len() == q.len() {
        if forall|i: int| 0 <= i < p.len() ==> #[trigger] p[i].eq_spec(&q[i]) {
            assert forall|i: int| 0 <= i < p.len() implies #[trigger] field_model(p[i])
                == field_model(q[i]) by {
                assert(p[i].eq_spec(&q[i]));
            }
        }
        if forall|i: int| 0 <= i < p.len() ==> #[trigger] field_model(p[i]) == field_model(q[i]) {
            assert forall|i: int| 0 <= i < p.len() implies #[trigger] p[i].eq_spec(&q[i]) by {
                assert(field_model(p[i]) == field_model(q[i]));
            }
        }
    }
}

/// Compares two types by their models.
fn type_eq<'a, 'b>(a: &Type<'a>, b: &Type<'b>) -> (r: bool)
    ensures
        r == (type_model(*a) == type_model(*b)),
    decreases *a, 1nat,
{
    match (a, b) {
        (Type::Bool, Type::Bool) => true,
        (Type::Int, Type::Int) => true,
        (Type::Float, Type::Float) => true,
        (Type::String, Type::String) => true,
        (Type::ForeignObject, Type::ForeignObject) => true,
        (Type::Optional(x), Type::Optional(y)) => type_eq(x.inner(), y.inner()),
        (Type::Array(x), Type::Array(y)) => type_eq(x.inner(), y.inner()),
        (Type::Dict(x), Type::Dict(y)) => type_eq(x.inner(), y.inner()),
        (Type::Custom(x), Type::Custom(y)) => str_eq(x, y),
        (Type::Enum(x), Type::Enum(y)) => {
            let r = *x == *y;
            proof {
                lemma_variant_list_eq(*x, *y);
            }
            r
        },
        (Type::Object(x), Type::Object(y)) => {
            proof {
                lemma_fields_model_eq(x@, y@);
            }
            if x.len() != y.len() {
                return false;
            }
            let n = x.len();
            for k in 0..n
                invariant
                    n == x@.len(),
                    n == y@.len(),
                    *a == Type::Object(*x),
                    *b == Type::Object(*y),
                    forall|i: int| 0 <= i < k ==> #[trigger] field_model(x@[i]) == field_model(y@[i]),
            {
                if !field_eq(&x[k], &y[k]) {
                    proof {
                        lemma_fields_model_eq(x@, y@);
                        assert(field_model(x@[k as int]) != field_model(y@[k as int]));
                    }
                    return false;
                }
            }
            proof {
                lemma_fields_model_eq(x@, y@);
            }
            true
        },
        _ => false,
    }
}

/// Compares two fields by their models.
fn field_eq<'a, 'b>(a: &Field<'a>, b: &Field<'b>) -> (r: bool)
    ensures
        r == (field_model(*a) == field_model(*b)),
    decreases *a, 0nat,
{
    if !str_eq(a.name, b.name) {
        return false;
    }
    if !type_eq(a.ty.inner(), b.ty.inner()) {
        return false;
    }
    let r = a.comments == b.comments;
    proof {
        lemma_comment_list_eq(a.comments, b.comments);
    }
    r
}

impl<'a> PartialEq for Type<'a> {
    fn eq(&self, other: &Self) -> (r: bool) {
        type_eq(self, other)
    }
}

impl<'a> vstd::std_specs::cmp::PartialEqSpecImpl for Type<'a> {
    open spec fn obeys_eq_spec() -> bool {
        true
    }

    open spec fn eq_spec(&self, other: &Self) -> bool {
        self@ == other@
    }
}

impl<'a> Eq for Type<'a> {
}

impl<'a> PartialEq for TypeRef<'a> {
    fn eq(&self, other: &Self) -> (r: bool) {
        type_eq(self.inner(), other.inner())
    }
}

impl<'a> vstd::std_specs::cmp::PartialEqSpecImpl for TypeRef<'a> {
    open spec fn obeys_eq_spec() -> bool {
        true
    }

    open spec fn eq_spec(&self, other: &Self) -> bool {
        self@ == other@
    }
}

impl<'a> Eq for TypeRef<'a> {
}

impl<'a> PartialEq<Type<'a>> for TypeRef<'a> {
    fn eq(&self, other: &Type<'a>) -> (r: bool) {
        type_eq(self.inner(), other)
    }
}

impl<'a> vstd::std_specs::cmp::PartialEqSpecImpl<Type<'a>> for TypeRef<'a> {
    open spec fn obeys_eq_spec() -> bool {
        true
    }

    open spec fn eq_spec(&self, other: &Type<'a>) -> bool {
        self@ == other@
    }
}

impl<'a> PartialEq<TypeRef<'a>> for Type<'a> {
    fn eq(&self, other: &TypeRef<'a>) -> (r: bool) {
        type_eq(self, other.inner())
    }
}

impl<'a> vstd::std_specs::cmp::PartialEqSpecImpl<TypeRef<'a>> for Type<'a> {
    open spec fn obeys_eq_spec() -> bool {
        true
    }

    open spec fn eq_spec(&self, other: &TypeRef<'a>) -> bool {
        self@ == other@
    }
}

impl<'a> PartialEq for Field<'a> {
    fn eq(&self, other: &Self) -> (r: bool) {
        if !str_eq(self.name, other.name) {
            return false;
        }
        if !type_eq(self.ty.inner(), other.ty.inner()) {
            return false;
        }
        let r = self.comments == other.comments;
        proof {
            lemma_comment_list_eq(self.comments, other.comments);
        }
        r
    }
}

impl<'a> vstd::std_specs::cmp::PartialEqSpecImpl for Field<'a> {
    open spec fn obeys_eq_spec() -> bool {
        true
    }

    open spec fn eq_spec(&self, other: &Self) -> bool {
        self@ == other@
    }
}

/// Fields are equal exactly when they have the same name, the same type and the same comments;
/// types are equal exactly when they are the same Varlink type, whether held borrowed or owned.
pub proof fn law_field_and_type_eq<'a>(a: Field<'a>, b: Field<'a>, s: Type<'a>, t: Type<'a>)
    ensures
        a.eq_spec(&b) <==> (a@.name == b@.name && a@.ty == b@.ty && a@.comments == b@.comments),
        s.eq_spec(&t) <==> s@ == t@,
{
}

impl<'a> Eq for Field<'a> {
}

/// A size of a type, greater than the sizes of the types and fields in it.
pub open spec fn type_size<'a>(t: Type<'a>) -> nat
    decreases t, 0nat,
{
    match t {
        Type::Optional(r) => 1 + type_size(r.target()),
        Type::Array(r) => 1 + type_size(r.target()),
        Type::Dict(r) => 1 + type_size(r.target()),
        Type::Object(v) => 1 + fields_size(v@),
        _ => 1,
    }
}

/// The sum of the sizes of some fields.
pub open spec fn fields_size<'a>(s: Seq<Field<'a>>) -> nat
    decreases s, 1nat,
{
    if s.len() == 0 {
        0
    } else {
        fields_size(s.subrange(0, s.len() - 1)) + field_size(s[s.len() - 1])
    }
}

/// A size of a field, greater than that of its type.
pub open spec fn field_size<'a>(f: Field<'a>) -> nat
    decreases f, 0nat,
{
    1 + type_size(f.spec_ty())
}

/// A field's size is at most the sum of the sizes of the fields it is among.
pub proof fn lemma_field_size_in<'a>(s: Seq<Field<'a>>, k: int)
    requires
        0 <= k < s.len(),
    ensures
        field_size(s[k]) <= fields_size(s),
    decreases s.len(),
{
    if k < s.len() - 1 {
        let t = s.subrange(0, s.len() - 1);
        assert(t[k] == s[k]);
        lemma_field_size_in(t, k);
    }
}

/// Writes the text of a type.
pub fn write_type(t: &Type<'_>, out: &mut String)
    ensures
        final(out)@ == old(out)@ + type_text(type_model(*t)),
    decreases type_size(*t),
{
    proof {
        reveal_with_fuel(type_text, 2);
    }
    match t {
        Type::Bool => {
            assert(type_model(*t) == TypeModel::Bool);
            assert(type_text(TypeModel::Bool) == "bool"@);
            out.append("bool");
        },
        Type::Int => out.append("int"),
        Type::Float => out.append("float"),
        Type::String => out.append("string"),
        Type::ForeignObject => out.append("object"),
        Type::Optional(x) => {
            out.append("?");
            write_type(x.inner(), out);
        },
        Type::Array(x) => {
            out.append("[]");
            write_type(x.inner(), out);
        },
        Type::Dict(x) => {
            out.append("[string]");
            write_type(x.inner(), out);
        },
        Type::Custom(name) => out.append(name),
        Type::Enum(variants) => write_variants(variants, out),
        Type::Object(fields) => {
            let ghost start = out@;
            let ghost fs = fields_model(fields@);
            out.append("(");
            let n = fields.len();
            for k in 0..n
                invariant
                    n == fields@.len(),
                    fs == fields_model(fields@),
                    fs.len() == n,
                    type_size(*t) == 1 + fields_size(fields@),
                    out@ == start + "("@ + joined(field_texts(fs.subrange(0, k as int)), ", "@),
            {
                if k > 0 {
                    out.append(", ");
                }
                proof {
                    lemma_field_size_in(fields@, k as int);
                }
                write_field(&fields[k], out);
                proof {
                    let u = fs.subrange(0, k + 1);
                    assert(u.subrange(0, u.len() - 1) =~= fs.subrange(0, k as int));
                    assert(u[u.len() - 1] == field_model(fields@[k as int]));
                    let parts = field_texts(u);
                    assert(parts.drop_last() =~= field_texts(fs.subrange(0, k as int)));
                }
            }
            proof {
                assert(fs.subrange(0, n as int) =~= fs);
            }
            out.append(")");
        },
    }
}

/// Writes the text of a field: its name, a colon and its type.
pub fn write_field(f: &Field<'_>, out: &mut String)
    ensures
        final(out)@ == old(out)@ + field_text(field_model(*f)),
    decreases field_size(*f),
{
    out.append(f.name);
    out.append(": ");
    write_type(f.ty.inner(), out);
}

/// Writes the texts of some fields, separated by commas.
pub fn write_fields(fields: &List<'_, Field<'_>>, out: &mut String)
    ensures
        final(out)@ == old(out)@ + fields_text(fields_model(fields.items())),
{
    let items = fields.refs();
    let ghost start = out@;
    let ghost fs = fields_model(fields.items());
    let n = items.len();
    for k in 0..n
        invariant
            n == items@.len(),
            n == fs.len(),
            forall|i: int| 0 <= i < n ==> field_model(*items@[i]) == fs[i],
            out@ == start + joined(field_texts(fs.subrange(0, k as int)), ", "@),
    {
        if k > 0 {
            out.append(", ");
        }
        write_field(items[k], out);
        proof {
            let u = fs.subrange(0, k + 1);
            assert(u.subrange(0, u.len() - 1) =~= fs.subrange(0, k as int));
            assert(u[u.len() - 1] == fs[k as int]);
            let parts = field_texts(u);
            assert(parts.drop_last() =~= field_texts(fs.subrange(0, k as int)));
        }
    }
    proof {
        assert(fs.subrange(0, n as int) =~= fs);
    }
}

impl<'a> Type<'a> {
    /// The IDL text of the type.
    pub fn to_string(&self) -> (r: String)
        ensures
            r@ == type_text(self@),
    {
        let mut out = String::new();
        write_type(self, &mut out);
        out
    }
}

impl<'a> TypeRef<'a> {
    /// The IDL text of the type referred to.
    pub fn to_string(&self) -> (r: String)
        ensures
            r@ == type_text(self@),
    {
        self.inner().to_string()
    }
}

impl<'a> Field<'a> {
    /// The IDL text of the field: its name, a colon and its type.
    pub fn to_string(&self) -> (r: String)
        ensures
            r@ == field_text(self@),
    {
        let mut out = String::new();
        write_field(self, &mut out);
        out
    }
}

} // verus!

//! The IDL text of definitions, as functions of their models.
//!
//! This is the text that the `to_string` methods of the IDL types write.

use vstd::prelude::*;
use vstd::string::StringExecFns;
use super::comment::{comments_model, Comment};
use super::enum_variant::EnumVariant;
use super::list::List;
use super::types::variants_model;
use super::model::{
    CustomTypeModel, EnumModel, ErrorModel, FieldModel, InterfaceModel, MethodModel, ObjectModel,
    TypeModel, VariantModel,
};

verus! {

/// The parts, with `sep` between each two of them.
pub open spec fn joined(parts: Seq<Seq<char>>, sep: Seq<char>) -> Seq<char>
    decreases parts.len(),
{
    if parts.len() == 0 {
        seq![]
    } else if parts.len() == 1 {
        parts[0]
    } else {
        joined(parts.drop_last(), sep) + sep + parts.last()
    }
}

/// Comment lines: each comment after `indent` and `# `, on a line of its own.
pub open spec fn comment_lines(comments: Seq<Seq<char>>, indent: Seq<char>) -> Seq<char>
    decreases comments.len(),
{
    if comments.len() == 0 {
        seq![]
    } else {
        comment_lines(comments.drop_last(), indent) + indent + "# "@ + comments.last() + "\n"@
    }
}

/// The text of a comment.
pub open spec fn comment_text(c: Seq<char>) -> Seq<char> {
    "# "@ + c
}

/// The text of an enum variant: its comment lines, then its name.
pub open spec fn variant_text(v: VariantModel) -> Seq<char> {
    comment_lines(v.comments, ""@) + v.name
}

/// Whether some variant has comments.
pub open spec fn any_commented(vs: Seq<VariantModel>) -> bool {
    exists|i: int| 0 <= i < vs.len() && (#[trigger] vs[i]).comments.len() > 0
}

/// The variants of an enum, one per line, each after its comment lines, all indented by a tab.
pub open spec fn variant_block(vs: Seq<VariantModel>) -> Seq<char>
    decreases vs.len(),
{
    if vs.len() == 0 {
        seq![]
    } else {
        variant_block(vs.drop_last()) + comment_lines(vs.last().comments, "\t"@) + "\t"@
            + vs.last().name + "\n"@
    }
}

/// The variants of an enum in parentheses: on one line, separated by commas, where none has
/// comments; else one per line.
pub open spec fn variants_text(vs: Seq<VariantModel>) -> Seq<char> {
    if any_commented(vs) {
        "(\n"@ + variant_block(vs) + ")"@
    } else {
        "("@ + joined(vs.map_values(|v: VariantModel| variant_text(v)), ", "@) + ")"@
    }
}

/// The text of a type.
pub open spec fn type_text(t: TypeModel) -> Seq<char>
    decreases t,
{
    match t {
        TypeModel::Bool => "bool"@,
        TypeModel::Int => "int"@,
        TypeModel::Float => "float"@,
        TypeModel::String => "string"@,
        TypeModel::ForeignObject => "object"@,
        TypeModel::Optional(inner) => "?"@ + type_text(*inner),
        TypeModel::Array(inner) => "[]"@ + type_text(*inner),
        TypeModel::Dict(inner) => "[string]"@ + type_text(*inner),
        TypeModel::Custom(name) => name,
        TypeModel::Enum(vs) => variants_text(vs),
        TypeModel::Object(fs) => "("@ + joined(field_texts(fs), ", "@) + ")"@,
    }
}

/// The texts of some fields.
pub open spec fn field_texts(fs: Seq<FieldModel>) -> Seq<Seq<char>>
    decreases fs,
{
    if fs.len() == 0 {
        seq![]
    } else {
        field_texts(fs.subrange(0, fs.len() - 1)).push(field_text(fs[fs.len() - 1]))
    }
}

/// The text of a field: its name, a colon and its type.
pub open spec fn field_text(f: FieldModel) -> Seq<char>
    decreases f,
{
    f.name + ": "@ + type_text(f.ty)
}

/// The texts of some fields, separated by commas.
pub open spec fn fields_text(fs: Seq<FieldModel>) -> Seq<char> {
    joined(field_texts(fs), ", "@)
}

/// The text of a named object type: its comment lines, `type`, its name and its fields.
pub open spec fn object_text(o: ObjectModel) -> Seq<char> {
    comment_lines(o.comments, ""@) + "type "@ + o.name + " ("@ + fields_text(o.fields) + ")"@
}

/// The text of a named enum type: its comment lines, `type`, its name and its variants.
pub open spec fn enum_text(e: EnumModel) -> Seq<char> {
    comment_lines(e.comments, ""@) + "type "@ + e.name + " "@ + variants_text(e.variants)
}

/// The text of a named type definition.
pub open spec fn custom_type_text(c: CustomTypeModel) -> Seq<char> {
    match c {
        CustomTypeModel::Object(o) => object_text(o),
        CustomTypeModel::Enum(e) => enum_text(e),
    }
}

/// The text of a method: `method`, its name, its inputs, and, where it has some, its outputs.
/// Its comments are not written.
pub open spec fn method_text(m: MethodModel) -> Seq<char> {
    "method "@ + m.name + "("@ + fields_text(m.inputs) + ")"@ + if m.outputs.len() == 0 {
        seq![]
    } else {
        " -> ("@ + fields_text(m.outputs) + ")"@
    }
}

/// The text of a method always shows its name and all its inputs, whatever its outputs: it starts
/// with `method `, the name, and the text of the inputs between parentheses, and that start is
/// the same for a method with the same name and inputs and any other outputs. After it comes
/// nothing where there are no outputs, and `-> (`, the outputs and `)` where there are.
pub proof fn law_method_text_shows_inputs(m: MethodModel, outputs: Seq<FieldModel>)
    ensures
        ({
            let head = "method "@ + m.name + "("@ + fields_text(m.inputs) + ")"@;
            let other = MethodModel { outputs, ..m };
            &&& method_text(m).len() >= head.len()
            &&& method_text(m).subrange(0, head.len() as int) == head
            &&& method_text(m).subrange(0, head.len() as int) == method_text(other).subrange(
                0,
                head.len() as int,
            )
            &&& (m.outputs.len() == 0 ==> method_text(m) == head)
            &&& (m.outputs.len() > 0 ==> method_text(m) == head + " -> ("@ + fields_text(m.outputs)
                + ")"@)
        }),
{
    let head = "method "@ + m.name + "("@ + fields_text(m.inputs) + ")"@;
    let other = MethodModel { outputs, ..m };
    assert(method_text(m).subrange(0, head.len() as int) =~= head);
    assert(method_text(other).subrange(0, head.len() as int) =~= head);
    if m.outputs.len() == 0 {
        assert(method_text(m) =~= head);
    }
}

/// The text of an error: its comment lines, `error`, its name and its fields.
pub open spec fn error_text(e: ErrorModel) -> Seq<char> {
    comment_lines(e.comments, ""@) + "error "@ + e.name + " ("@ + fields_text(e.fields) + ")"@
}

/// Texts, each after an empty line.
pub open spec fn blocks(parts: Seq<Seq<char>>) -> Seq<char>
    decreases parts.len(),
{
    if parts.len() == 0 {
        seq![]
    } else {
        blocks(parts.drop_last()) + "\n\n"@ + parts.last()
    }
}

/// The text of an interface: `interface` and its name, then its custom types, its methods and
/// its errors, each after an empty line. Its comments are not written.
pub open spec fn interface_text(i: InterfaceModel) -> Seq<char> {
    "interface "@ + i.name + blocks(i.custom_types.map_values(|c: CustomTypeModel| custom_type_text(c)))
        + blocks(i.methods.map_values(|m: MethodModel| method_text(m))) + blocks(
        i.errors.map_values(|e: ErrorModel| error_text(e)),
    )
}

/// Writes comment lines: each comment after `indent` and `# `, on a line of its own.
pub fn write_comment_lines(cs: &List<'_, Comment<'_>>, indent: &str, out: &mut String)
    ensures
        final(out)@ == old(out)@ + comment_lines(comments_model(cs.items()), indent@),
{
    let items = cs.refs();
    let ghost start = out@;
    let ghost all = comments_model(cs.items());
    let n = items.len();
    for k in 0..n
        invariant
            n == items@.len(),
            n == all.len(),
            forall|i: int| 0 <= i < n ==> (*items@[i])@ == all[i],
            out@ == start + comment_lines(all.subrange(0, k as int), indent@),
    {
        out.append(indent);
        out.append("# ");
        out.append(items[k].content());
        out.append("\n");
        proof {
            let t = all.subrange(0, k + 1);
            assert(t.drop_last() =~= all.subrange(0, k as int));
            assert(t.last() == all[k as int]);
        }
    }
    assert(all.subrange(0, n as int) =~= all);
}

/// Writes the variants of an enum in parentheses: on one line, separated by commas, where none
/// has comments; else one per line, each after its comment lines, indented by a tab.
pub fn write_variants(vs: &List<'_, EnumVariant<'_>>, out: &mut String)
    ensures
        final(out)@ == old(out)@ + variants_text(variants_model(vs.items())),
{
    let items = vs.refs();
    let ghost start = out@;
    let ghost all = variants_model(vs.items());
    let n = items.len();
    let mut commented = false;
    for k in 0..n
        invariant
            n == items@.len(),
            n == all.len(),
            forall|i: int| 0 <= i < n ==> (*items@[i])@ == all[i],
            commented == exists|i: int| 0 <= i < k && (#[trigger] all[i]).comments.len() > 0,
    {
        proof {
            assert(all[k as int].comments.len() == items@[k as int].spec_comments().len());
        }
        if items[k].has_comments() {
            commented = true;
        }
    }
    if commented {
        out.append("(\n");
        for k in 0..n
            invariant
                n == items@.len(),
                n == all.len(),
                forall|i: int| 0 <= i < n ==> (*items@[i])@ == all[i],
                out@ == start + "(\n"@ + variant_block(all.subrange(0, k as int)),
        {
            write_comment_lines(items[k].comment_list(), "\t", out);
            out.append("\t");
            out.append(items[k].name());
            out.append("\n");
            proof {
                let t = all.subrange(0, k + 1);
                assert(t.drop_last() =~= all.subrange(0, k as int));
                assert(t.last() == all[k as int]);
            }
        }
        assert(all.subrange(0, n as int) =~= all);
        out.append(")");
    } else {
        out.append("(");
        let ghost parts = all.map_values(|v: VariantModel| variant_text(v));
        for k in 0..n
            invariant
                n == items@.len(),
                n == all.len(),
                parts == all.map_values(|v: VariantModel| variant_text(v)),
                forall|i: int| 0 <= i < n ==> (*items@[i])@ == all[i],
                !any_commented(all),
                out@ == start + "("@ + joined(parts.subrange(0, k as int), ", "@),
        {
            if k > 0 {
                out.append(", ");
            }
            proof {
                assert(!(all[k as int].comments.len() > 0));
                assert(comment_lines(all[k as int].comments, ""@) == Seq::<char>::empty());
            }
            out.append(items[k].name());
            proof {
                let t = parts.subrange(0, k + 1);
                assert(t.drop_last() =~= parts.subrange(0, k as int));
                assert(t.last() == parts[k as int]);
                assert(parts[k as int] =~= all[k as int].name);
                if k == 0 {
                    assert(parts.subrange(0, k as int).len() == 0);
                }
            }
        }
        assert(parts.subrange(0, n as int) =~= parts);
        out.append(")");
    }
}

} // verus!

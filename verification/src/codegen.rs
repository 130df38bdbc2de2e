//! Where generated code goes: the name of the Rust source file written for an IDL file.

use vstd::prelude::*;
use vstd::string::*;
use crate::text::push_char;

verus! {

broadcast use axiom_spec_iter;

/// The position of the last `.` in `s`, or -1 where `s` holds none.
pub open spec fn last_dot(s: Seq<char>) -> int
    decreases s.len(),
{
    if s.len() == 0 {
        -1
    } else if s.last() == '.' {
        s.len() - 1
    } else {
        last_dot(s.drop_last())
    }
}

/// The stem of a file name, as `Path::file_stem` documents it: the whole name where it holds no
/// `.` after its first character (or is `..`), else the part before the last `.`.
pub open spec fn file_stem(name: Seq<char>) -> Seq<char> {
    if name == seq!['.', '.'] || last_dot(name) <= 0 {
        name
    } else {
        name.take(last_dot(name))
    }
}

/// `s` with every `.` replaced by `_`.
pub open spec fn dots_to_underscores(s: Seq<char>) -> Seq<char> {
    s.map_values(|c: char| if c == '.' { '_' } else { c })
}

/// The name of the Rust source file generated for an IDL file named `name`: the stem with every
/// `.` replaced by `_`, followed by `.rs`.
pub open spec fn spec_output_file_name(name: Seq<char>) -> Seq<char> {
    dots_to_underscores(file_stem(name)) + seq!['.', 'r', 's']
}

proof fn lemma_last_dot_unique(s: Seq<char>, k: int)
    requires
        -1 <= k < s.len(),
        k >= 0 ==> s[k] == '.',
        forall|j: int| k < j < s.len() ==> s[j] != '.',
    ensures
        last_dot(s) == k,
    decreases s.len(),
{
    if s.len() > 0 && k != s.len() - 1 {
        assert(s.last() != '.');
        assert forall|j: int| k < j < s.drop_last().len() implies s.drop_last()[j] != '.' by {
            assert(s.drop_last()[j] == s[j]);
        }
        lemma_last_dot_unique(s.drop_last(), k);
    }
}

proof fn lemma_last_dot(s: Seq<char>)
    ensures
        -1 <= last_dot(s) < s.len(),
        last_dot(s) >= 0 ==> s[last_dot(s)] == '.',
        forall|j: int| last_dot(s) < j < s.len() ==> s[j] != '.',
    decreases s.len(),
{
    if s.len() > 0 && s.last() != '.' {
        let t = s.drop_last();
        lemma_last_dot(t);
        assert forall|j: int| last_dot(s) < j < s.len() implies s[j] != '.' by {
            if j < t.len() {
                assert(t[j] == s[j]);
            }
        }
    }
}

/// The stem of a file name is the name up to its extension: a prefix of the name that is either
/// the whole name, or is followed by a dot after which the name holds no other dot; and the
/// whole name is the stem exactly where the name holds no dot after its first character, or is
/// `..`.
pub proof fn law_file_stem(name: Seq<char>)
    ensures
        ({
            let stem = file_stem(name);
            &&& stem.len() <= name.len()
            &&& stem == name.take(stem.len() as int)
            &&& stem.len() < name.len() ==> {
                &&& 0 < stem.len()
                &&& name[stem.len() as int] == '.'
                &&& forall|j: int| stem.len() < j < name.len() ==> name[j] != '.'
            }
            &&& (stem.len() == name.len() <==> (name == seq!['.', '.'] || forall|j: int|
                0 < j < name.len() ==> name[j] != '.'))
        }),
{
    lemma_last_dot(name);
    assert(name.take(name.len() as int) =~= name);
    if !(name == seq!['.', '.']) && forall|j: int| 0 < j < name.len() ==> name[j] != '.' {
        assert(last_dot(name) <= 0);
    }
}

/// The name of the generated file keeps every character of the stem but the dots, which become
/// underscores, and ends in `.rs`: character `j` of it is `_` where character `j` of the stem is
/// `.`, and that character otherwise.
pub proof fn law_output_file_name(name: Seq<char>)
    ensures
        ({
            let stem = file_stem(name);
            let out = spec_output_file_name(name);
            &&& out.len() == stem.len() + 3
            &&& forall|j: int|
                0 <= j < stem.len() ==> #[trigger] out[j] == if stem[j] == '.' {
                    '_'
                } else {
                    stem[j]
                }
            &&& out[stem.len() as int] == '.'
            &&& out[stem.len() as int + 1] == 'r'
            &&& out[stem.len() as int + 2] == 's'
        }),
{
}

/// The characters of `s`, in order.
fn chars_of(s: &str) -> (r: Vec<char>)
    ensures
        r@ == s@,
{
    let mut out: Vec<char> = Vec::new();
    for c in it: s.chars()
        invariant
            it.seq() == s@,
            out@ == it.seq().take(it.index() as int),
    {
        proof {
            assert(it.seq().take(it.index() as int + 1) =~= out@.push(c));
        }
        out.push(c);
    }
    proof {
        assert(out@ =~= s@);
    }
    out
}

/// The name of the Rust source file that code generation writes for an IDL file named `name`
/// (the last component of its path): the file stem, with each `.` replaced by `_`, and `.rs`.
pub fn output_file_name(name: &str) -> (r: String)
    ensures
        r@ == spec_output_file_name(name@),
{
    let v = chars_of(name);
    let n = v.len();
    let mut k: usize = n;
    let mut found = false;
    while k > 0 && !found
        invariant
            k <= n == v@.len(),
            found ==> k < n && v@[k as int] == '.',
            !found ==> forall|j: int| k <= j < n ==> v@[j] != '.',
            found ==> forall|j: int| k < j < n ==> v@[j] != '.',
        decreases k + if found { 0int } else { 1int },
    {
        if v[k - 1] == '.' {
            found = true;
        }
        k = k - 1;
    }
    let ghost d: int = if found { k as int } else { -1 };
    proof {
        lemma_last_dot_unique(v@, d);
    }
    let is_parent = n == 2 && v[0] == '.' && v[1] == '.';
    let end = if is_parent || !found || k == 0 { n } else { k };
    proof {
        if is_parent {
            assert(v@ =~= seq!['.', '.']);
        }
        if v@ == seq!['.', '.'] {
            assert(v@[0] == '.' && v@[1] == '.');
        }
        assert(file_stem(v@) =~= v@.take(end as int));
    }
    let mut out = String::new();
    for i in 0..end
        invariant
            end <= n == v@.len(),
            file_stem(v@) == v@.take(end as int),
            out@ == dots_to_underscores(v@.take(i as int)),
    {
        let c = v[i];
        push_char(&mut out, if c == '.' { '_' } else { c });
        proof {
            assert(dots_to_underscores(v@.take(i as int + 1)) =~= dots_to_underscores(
                v@.take(i as int),
            ).push(if c == '.' { '_' } else { c }));
        }
    }
    push_char(&mut out, '.');
    push_char(&mut out, 'r');
    push_char(&mut out, 's');
    proof {
        assert(out@ =~= spec_output_file_name(name@));
    }
    out
}

} // verus!

use vstd::prelude::*;
use crate::c_names::{format_helper_name, format_helper_text, mangle, mangled, same_text, strings_view, suffix_text, UserTypeInstantiation};
use crate::c_user_types::{bindings_for, bindings_of, pairs_view, param_c_type, param_needed_all, user_type_c_name, variants_needed};
use crate::code_generator::{
    add_line, all_at_least, all_of_length, exec_lines_view, field_types, line_at, lines_text, CodeGenerator,
    InstantiationKind,
};
use crate::declarations::{plain_enum_names, plain_struct_names, strings_view_of, Declarations};
use crate::sorted_keys::keys_view;
use crate::text::{decimal, push_decimal, push_string};
use crate::token::{tokens_view, Token, TokenView};
use crate::types::{fields_view, lemma_types_view_index, types_view, EnumVariant, TypeExpr, TypeView, VariantView};

verus! {

/// Lines without indentation, one for each of `ps`.
pub open spec fn prototype_text(ps: Seq<Seq<char>>) -> Seq<char>
    decreases ps.len(),
{
    if ps.len() == 0 {
        Seq::empty()
    } else {
        prototype_text(ps.drop_last()) + line_at(0, ps.last())
    }
}

/// The prototype of the function that prints an array of C type `c`.
pub open spec fn array_format_prototype(c: Seq<char>) -> Seq<char> {
    let s = suffix_text(c);
    "void format_Array_"@ + s + "(Array_"@ + s + " arr, FILE* stream);"@
}

/// The prototype of the function that prints a map from C type `k` to C
/// type `v`.
pub open spec fn map_format_prototype(k: Seq<char>, v: Seq<char>) -> Seq<char> {
    let s = suffix_text(k) + "_"@ + suffix_text(v);
    "void format_Map_"@ + s + "(Map_"@ + s + " m, FILE* stream);"@
}

/// The prototype of the function that prints a range of C type `c`.
pub open spec fn range_format_prototype(c: Seq<char>) -> Seq<char> {
    let s = suffix_text(c);
    "void format_Range_"@ + s + "(Range_"@ + s + " r, FILE* stream);"@
}

/// The prototype of the function that prints a value of the user type
/// whose C name is `c`.
pub open spec fn user_format_prototype(c: Seq<char>) -> Seq<char> {
    "void format_"@ + c + "("@ + c + " v, FILE* stream);"@
}

/// The prototypes of the printing functions of the array instantiations
/// `ks`.
pub open spec fn array_prototypes(ks: Seq<Seq<Seq<char>>>) -> Seq<Seq<char>> {
    ks.map_values(|k: Seq<Seq<char>>| array_format_prototype(k[0]))
}

pub open spec fn map_prototypes(ks: Seq<Seq<Seq<char>>>) -> Seq<Seq<char>> {
    ks.map_values(|k: Seq<Seq<char>>| map_format_prototype(k[0], k[1]))
}

pub open spec fn range_prototypes(ks: Seq<Seq<Seq<char>>>) -> Seq<Seq<char>> {
    ks.map_values(|k: Seq<Seq<char>>| range_format_prototype(k[0]))
}

pub open spec fn user_prototypes(ks: Seq<Seq<Seq<char>>>) -> Seq<Seq<char>> {
    ks.map_values(|k: Seq<Seq<char>>| user_format_prototype(user_type_c_name(k)))
}

/// The printing function of arrays of C type `c`.
pub open spec fn array_format_lines(c: Seq<char>) -> Seq<(nat, Seq<char>)> {
    let s = suffix_text(c);
    seq![
        (0nat, "void format_Array_"@ + s + "(Array_"@ + s + " arr, FILE* stream) {"@),
        (1nat, "fprintf(stream, \"[\");"@),
        (1nat, "for (size_t i = 0; i < arr.length; ++i) {"@),
        (2nat, "if (i > 0) fprintf(stream, \", \");"@),
        (2nat, format_helper_text(c) + "(arr.data[i], stream);"@),
        (1nat, "}"@),
        (1nat, "fprintf(stream, \"]\");"@),
        (0nat, "}"@),
        (0nat, ""@),
    ]
}

/// The printing function of maps from C type `k` to C type `v`: the
/// occupied slots, as `key: value` separated by commas, in braces.
pub open spec fn map_format_lines(k: Seq<char>, v: Seq<char>) -> Seq<(nat, Seq<char>)> {
    let s = suffix_text(k) + "_"@ + suffix_text(v);
    seq![
        (0nat, "void format_Map_"@ + s + "(Map_"@ + s + " m, FILE* stream) {"@),
        (1nat, "fprintf(stream, \"{\");"@),
        (1nat, "bool first = true;"@),
        (1nat, "for (size_t i = 0; i < m.capacity; ++i) {"@),
        (2nat, "if (!m.slots[i].occupied) continue;"@),
        (2nat, "if (!first) fprintf(stream, \", \");"@),
        (2nat, format_helper_text(k) + "(m.slots[i].key, stream);"@),
        (2nat, "fprintf(stream, \": \");"@),
        (2nat, format_helper_text(v) + "(m.slots[i].value, stream);"@),
        (2nat, "first = false;"@),
        (1nat, "}"@),
        (1nat, "fprintf(stream, \"}\");"@),
        (0nat, "}"@),
        (0nat, ""@),
    ]
}

/// The printing function of ranges of C type `c`.
pub open spec fn range_format_lines(c: Seq<char>) -> Seq<(nat, Seq<char>)> {
    let s = suffix_text(c);
    seq![
        (0nat, "void format_Range_"@ + s + "(Range_"@ + s + " r, FILE* stream) {"@),
        (1nat, format_helper_text(c) + "(r.start, stream);"@),
        (1nat, "fprintf(stream, r.inclusive ? \"..=\" : \"..\");"@),
        (1nat, format_helper_text(c) + "(r.end, stream);"@),
        (0nat, "}"@),
        (0nat, ""@),
    ]
}

pub open spec fn array_format_blocks(ks: Seq<Seq<Seq<char>>>) -> Seq<char>
    decreases ks.len(),
{
    if ks.len() == 0 {
        Seq::empty()
    } else {
        array_format_blocks(ks.drop_last()) + lines_text(array_format_lines(ks.last()[0]))
    }
}

pub open spec fn map_format_blocks(ks: Seq<Seq<Seq<char>>>) -> Seq<char>
    decreases ks.len(),
{
    if ks.len() == 0 {
        Seq::empty()
    } else {
        map_format_blocks(ks.drop_last()) + lines_text(map_format_lines(ks.last()[0], ks.last()[1]))
    }
}

pub open spec fn range_format_blocks(ks: Seq<Seq<Seq<char>>>) -> Seq<char>
    decreases ks.len(),
{
    if ks.len() == 0 {
        Seq::empty()
    } else {
        range_format_blocks(ks.drop_last()) + lines_text(range_format_lines(ks.last()[0]))
    }
}

/// The printing functions of the instantiations `ks` of kind `kind`:
/// arrays, maps or ranges.
pub open spec fn builtin_format_blocks(kind: InstantiationKind, ks: Seq<Seq<Seq<char>>>) -> Seq<char> {
    match kind {
        InstantiationKind::ArrayType => array_format_blocks(ks),
        InstantiationKind::MapType => map_format_blocks(ks),
        InstantiationKind::RangeType => range_format_blocks(ks),
        _ => Seq::empty(),
    }
}

/// The prototypes of the printing functions of the instantiations `keys`
/// of kind `kind` (all of arrays, maps or ranges), or of user types.
fn prototypes_of(kind: InstantiationKind, keys: &Vec<Vec<String>>) -> (r: Vec<String>)
    requires
        kind is ArrayType || kind is RangeType ==> all_of_length(keys_view(keys@), 1),
        kind is MapType ==> all_of_length(keys_view(keys@), 2),
        kind is UserType || kind is TupleType ==> all_at_least(keys_view(keys@), 1),
    ensures
        strings_view(r@) == match kind {
            InstantiationKind::ArrayType => array_prototypes(keys_view(keys@)),
            InstantiationKind::MapType => map_prototypes(keys_view(keys@)),
            InstantiationKind::RangeType => range_prototypes(keys_view(keys@)),
            _ => user_prototypes(keys_view(keys@)),
        },
{
    let ghost ks = keys_view(keys@);
    let ghost want = match kind {
        InstantiationKind::ArrayType => array_prototypes(ks),
        InstantiationKind::MapType => map_prototypes(ks),
        InstantiationKind::RangeType => range_prototypes(ks),
        _ => user_prototypes(ks),
    };
    let mut r: Vec<String> = Vec::new();
    let mut i: usize = 0;
    while i < keys.len()
        invariant
            i <= keys@.len(),
            ks == keys_view(keys@),
            want.len() == ks.len(),
            want == match kind {
                InstantiationKind::ArrayType => array_prototypes(ks),
                InstantiationKind::MapType => map_prototypes(ks),
                InstantiationKind::RangeType => range_prototypes(ks),
                _ => user_prototypes(ks),
            },
            kind is ArrayType || kind is RangeType ==> all_of_length(ks, 1),
            kind is MapType ==> all_of_length(ks, 2),
            kind is UserType || kind is TupleType ==> all_at_least(ks, 1),
            strings_view(r@) == want.take(i as int),
        decreases keys@.len() - i,
    {
        proof {
            assert(ks.contains(ks[i as int]));
            assert(ks[i as int] == strings_view(keys@[i as int]@));
        }
        let key = &keys[i];
        let p = match kind {
            InstantiationKind::ArrayType => {
                let s = UserTypeInstantiation::suffix(key[0].as_str());
                let mut p = "void format_Array_".to_owned();
                push_string(&mut p, &s);
                p.push_str("(Array_");
                push_string(&mut p, &s);
                p.push_str(" arr, FILE* stream);");
                p
            },
            InstantiationKind::MapType => {
                let mut s = UserTypeInstantiation::suffix(key[0].as_str());
                s.push_str("_");
                push_string(&mut s, &UserTypeInstantiation::suffix(key[1].as_str()));
                let mut p = "void format_Map_".to_owned();
                push_string(&mut p, &s);
                p.push_str("(Map_");
                push_string(&mut p, &s);
                p.push_str(" m, FILE* stream);");
                p
            },
            InstantiationKind::RangeType => {
                let s = UserTypeInstantiation::suffix(key[0].as_str());
                let mut p = "void format_Range_".to_owned();
                push_string(&mut p, &s);
                p.push_str("(Range_");
                push_string(&mut p, &s);
                p.push_str(" r, FILE* stream);");
                p
            },
            _ => {
                let c = user_c_name(key);
                let mut p = "void format_".to_owned();
                push_string(&mut p, &c);
                p.push_str("(");
                push_string(&mut p, &c);
                p.push_str(" v, FILE* stream);");
                p
            },
        };
        let ghost before = r@;
        proof {
            assert(p@ == want[i as int]);
        }
        let ghost pv = p@;
        r.push(p);
        proof {
            assert(strings_view(r@) =~= strings_view(before).push(pv));
            assert(want.take(i + 1) =~= want.take(i as int).push(want[i as int]));
        }
        i = i + 1;
    }
    proof {
        assert(want.take(i as int) =~= want);
    }
    r
}

/// The C name of the user type instantiation `key`.
fn user_c_name(key: &Vec<String>) -> (r: String)
    requires
        key@.len() >= 1,
    ensures
        r@ == user_type_c_name(strings_view(key@)),
{
    let mut args: Vec<String> = Vec::new();
    let mut i: usize = 1;
    let ghost k = strings_view(key@);
    while i < key.len()
        invariant
            1 <= i <= key@.len(),
            k == strings_view(key@),
            strings_view(args@) == k.drop_first().take(i - 1),
        decreases key@.len() - i,
    {
        let ghost before = args@;
        args.push(key[i].clone());
        proof {
            assert(strings_view(args@) =~= strings_view(before).push(key@[i as int]@));
            assert(k.drop_first().take(i as int) =~= k.drop_first().take(i - 1).push(k[i as int]));
        }
        i = i + 1;
    }
    proof {
        assert(k.drop_first().take(i - 1) =~= k.drop_first());
    }
    let instantiation = UserTypeInstantiation { identifier: key[0].clone(), argument_c_types: args };
    instantiation.c_identifier()
}

/// The printing function of arrays of C type `c`.
fn array_format_exec(c: &String) -> (r: Vec<(usize, String)>)
    ensures
        exec_lines_view(r@) == array_format_lines(c@),
        forall|i: int| 0 <= i < r@.len() ==> #[trigger] r@[i].0 <= 3,
{
    let s = UserTypeInstantiation::suffix(c.as_str());
    let mut lines: Vec<(usize, String)> = Vec::new();
    let mut l0 = "void format_Array_".to_owned();
    push_string(&mut l0, &s);
    l0.push_str("(Array_");
    push_string(&mut l0, &s);
    l0.push_str(" arr, FILE* stream) {");
    add_line(&mut lines, 0, l0);
    add_line(&mut lines, 1, "fprintf(stream, \"[\");".to_owned());
    add_line(&mut lines, 1, "for (size_t i = 0; i < arr.length; ++i) {".to_owned());
    add_line(&mut lines, 2, "if (i > 0) fprintf(stream, \", \");".to_owned());
    let mut l4 = format_helper_name(c.as_str());
    l4.push_str("(arr.data[i], stream);");
    add_line(&mut lines, 2, l4);
    add_line(&mut lines, 1, "}".to_owned());
    add_line(&mut lines, 1, "fprintf(stream, \"]\");".to_owned());
    add_line(&mut lines, 0, "}".to_owned());
    add_line(&mut lines, 0, "".to_owned());
    proof {
        assert(exec_lines_view(lines@) =~= array_format_lines(c@));
    }
    lines
}

/// The printing function of maps from C type `k` to C type `v`.
fn map_format_exec(k: &String, v: &String) -> (r: Vec<(usize, String)>)
    ensures
        exec_lines_view(r@) == map_format_lines(k@, v@),
        forall|i: int| 0 <= i < r@.len() ==> #[trigger] r@[i].0 <= 3,
{
    let mut s = UserTypeInstantiation::suffix(k.as_str());
    s.push_str("_");
    push_string(&mut s, &UserTypeInstantiation::suffix(v.as_str()));
    let mut lines: Vec<(usize, String)> = Vec::new();
    let mut l0 = "void format_Map_".to_owned();
    push_string(&mut l0, &s);
    l0.push_str("(Map_");
    push_string(&mut l0, &s);
    l0.push_str(" m, FILE* stream) {");
    add_line(&mut lines, 0, l0);
    add_line(&mut lines, 1, "fprintf(stream, \"{\");".to_owned());
    add_line(&mut lines, 1, "bool first = true;".to_owned());
    add_line(&mut lines, 1, "for (size_t i = 0; i < m.capacity; ++i) {".to_owned());
    add_line(&mut lines, 2, "if (!m.slots[i].occupied) continue;".to_owned());
    add_line(&mut lines, 2, "if (!first) fprintf(stream, \", \");".to_owned());
    let mut l6 = format_helper_name(k.as_str());
    l6.push_str("(m.slots[i].key, stream);");
    add_line(&mut lines, 2, l6);
    add_line(&mut lines, 2, "fprintf(stream, \": \");".to_owned());
    let mut l8 = format_helper_name(v.as_str());
    l8.push_str("(m.slots[i].value, stream);");
    add_line(&mut lines, 2, l8);
    add_line(&mut lines, 2, "first = false;".to_owned());
    add_line(&mut lines, 1, "}".to_owned());
    add_line(&mut lines, 1, "fprintf(stream, \"}\");".to_owned());
    add_line(&mut lines, 0, "}".to_owned());
    add_line(&mut lines, 0, "".to_owned());
    proof {
        assert(exec_lines_view(lines@) =~= map_format_lines(k@, v@));
    }
    lines
}

/// The printing function of ranges of C type `c`.
fn range_format_exec(c: &String) -> (r: Vec<(usize, String)>)
    ensures
        exec_lines_view(r@) == range_format_lines(c@),
        forall|i: int| 0 <= i < r@.len() ==> #[trigger] r@[i].0 <= 3,
{
    let s = UserTypeInstantiation::suffix(c.as_str());
    let mut lines: Vec<(usize, String)> = Vec::new();
    let mut l0 = "void format_Range_".to_owned();
    push_string(&mut l0, &s);
    l0.push_str("(Range_");
    push_string(&mut l0, &s);
    l0.push_str(" r, FILE* stream) {");
    add_line(&mut lines, 0, l0);
    let mut l1 = format_helper_name(c.as_str());
    l1.push_str("(r.start, stream);");
    add_line(&mut lines, 1, l1);
    add_line(&mut lines, 1, "fprintf(stream, r.inclusive ? \"..=\" : \"..\");".to_owned());
    let mut l3 = format_helper_name(c.as_str());
    l3.push_str("(r.end, stream);");
    add_line(&mut lines, 1, l3);
    add_line(&mut lines, 0, "}".to_owned());
    add_line(&mut lines, 0, "".to_owned());
    proof {
        assert(exec_lines_view(lines@) =~= range_format_lines(c@));
    }
    lines
}

impl CodeGenerator {
    /// Writes each of `ps` on a line of its own, without indentation.
    fn write_prototypes(&mut self, ps: &Vec<String>)
        ensures
            final(self).text() == old(self).text() + prototype_text(strings_view(ps@)),
            final(self).level() == old(self).level(),
            final(self).temps() == old(self).temps(),
            final(self).recorded() == old(self).recorded(),
            final(self).histories() == old(self).histories(),
            forall|k: InstantiationKind| #[trigger] final(self).instantiations(k) == old(self).instantiations(k),
            final(self).wf() == old(self).wf(),
    {
        let ghost v = strings_view(ps@);
        proof {
            assert(v.take(0) =~= Seq::<Seq<char>>::empty());
        }
        let mut i: usize = 0;
        while i < ps.len()
            invariant
                i <= ps@.len(),
                v == strings_view(ps@),
                self.text() == old(self).text() + prototype_text(v.take(i as int)),
                self.level() == old(self).level(),
                self.temps() == old(self).temps(),
                self.recorded() == old(self).recorded(),
                self.histories() == old(self).histories(),
                forall|k: InstantiationKind| #[trigger] self.instantiations(k) == old(self).instantiations(k),
                self.wf() == old(self).wf(),
            decreases ps@.len() - i,
        {
            let mut lines: Vec<(usize, String)> = Vec::new();
            add_line(&mut lines, 0, ps[i].clone());
            let ghost before = self.text();
            self.write_lines_unindented(&lines);
            proof {
                let p = v.take(i + 1);
                assert(p.drop_last() =~= v.take(i as int));
                assert(p.last() == ps@[i as int]@);
                let one = seq![(0nat, ps@[i as int]@)];
                assert(exec_lines_view(lines@) =~= one);
                assert(one.drop_last() =~= Seq::<(nat, Seq<char>)>::empty());
                assert(one.last() == (0nat, ps@[i as int]@));
                assert(lines_text(Seq::<(nat, Seq<char>)>::empty()) == Seq::<char>::empty());
                assert(lines_text(one) == lines_text(one.drop_last()) + line_at(0, ps@[i as int]@));
                assert(lines_text(one) =~= line_at(0, ps@[i as int]@));
            }
            i = i + 1;
        }
        proof {
            assert(v.take(i as int) =~= v);
        }
    }

    /// Writes, for each of the instantiations `keys` of kind `kind` (arrays,
    /// maps or ranges), in order, the function that prints its values.
    fn write_builtin_formats(&mut self, kind: InstantiationKind, keys: &Vec<Vec<String>>)
        requires
            kind is ArrayType || kind is RangeType ==> all_of_length(keys_view(keys@), 1),
            kind is MapType ==> all_of_length(keys_view(keys@), 2),
        ensures
            final(self).text() == old(self).text() + builtin_format_blocks(kind, keys_view(keys@)),
            final(self).level() == old(self).level(),
            final(self).temps() == old(self).temps(),
            final(self).recorded() == old(self).recorded(),
            final(self).histories() == old(self).histories(),
            forall|k: InstantiationKind| #[trigger] final(self).instantiations(k) == old(self).instantiations(k),
            final(self).wf() == old(self).wf(),
    {
        let ghost ks = keys_view(keys@);
        match kind {
            InstantiationKind::TupleType | InstantiationKind::UserType => {
                return;
            },
            _ => {},
        }
        proof {
            assert(ks.take(0) =~= Seq::<Seq<Seq<char>>>::empty());
        }
        let mut i: usize = 0;
        while i < keys.len()
            invariant
                i <= keys@.len(),
                ks == keys_view(keys@),
                !(kind is TupleType || kind is UserType),
                kind is ArrayType || kind is RangeType ==> all_of_length(ks, 1),
                kind is MapType ==> all_of_length(ks, 2),
                self.text() == old(self).text() + builtin_format_blocks(kind, ks.take(i as int)),
                self.level() == old(self).level(),
                self.temps() == old(self).temps(),
                self.recorded() == old(self).recorded(),
                self.histories() == old(self).histories(),
                forall|k: InstantiationKind| #[trigger] self.instantiations(k) == old(self).instantiations(k),
                self.wf() == old(self).wf(),
            decreases keys@.len() - i,
        {
            proof {
                assert(ks.contains(ks[i as int]));
                assert(ks[i as int] == strings_view(keys@[i as int]@));
            }
            let lines = match kind {
                InstantiationKind::ArrayType => array_format_exec(&keys[i][0]),
                InstantiationKind::MapType => map_format_exec(&keys[i][0], &keys[i][1]),
                _ => range_format_exec(&keys[i][0]),
            };
            self.write_lines_unindented(&lines);
            proof {
                let p = ks.take(i + 1);
                assert(p.drop_last() =~= ks.take(i as int));
                assert(p.last() == ks[i as int]);
            }
            i = i + 1;
        }
        proof {
            assert(ks.take(i as int) =~= ks);
        }
    }
}

/// The first line of the printing function of the user type whose C name
/// is `c`.
pub open spec fn user_format_header(c: Seq<char>) -> Seq<char> {
    "void format_"@ + c + "("@ + c + " v, FILE* stream) {"@
}

/// The printing function of `Optional` at C type `inner`, named `c`:
/// `Some(` the value `)`, or `None`.
pub open spec fn optional_format_lines(c: Seq<char>, inner: Seq<char>) -> Seq<(nat, Seq<char>)> {
    seq![
        (0nat, user_format_header(c)),
        (1nat, "if (v.tag == "@ + c + "_"@ + mangled("Some"@) + ") {"@),
        (2nat, "fprintf(stream, \"Some(\");"@),
        (2nat, format_helper_text(inner) + "(v.data."@ + mangled("Some"@) + ".value, stream);"@),
        (2nat, "fprintf(stream, \")\");"@),
        (1nat, "} else if (v.tag == "@ + c + "_"@ + mangled("None"@) + ") {"@),
        (2nat, "fprintf(stream, \"None\");"@),
        (1nat, "}"@),
        (0nat, "}"@),
        (0nat, ""@),
    ]
}

/// The statements that print the fields of a struct, separated by commas:
/// each as its name, a colon and its value.
pub open spec fn field_format_lines(fs: Seq<(TokenView, TypeView)>, bs: Seq<(Seq<char>, Seq<char>)>) -> Seq<
    (nat, Seq<char>),
>
    decreases fs.len(),
{
    if fs.len() == 0 {
        Seq::empty()
    } else {
        let f = fs.last();
        let before = if fs.len() > 1 {
            field_format_lines(fs.drop_last(), bs).push((1nat, "fprintf(stream, \", \");"@))
        } else {
            field_format_lines(fs.drop_last(), bs)
        };
        before + seq![
            (1nat, "fprintf(stream, \""@ + f.0.lexeme + ": \");"@),
            (1nat, format_helper_text(param_c_type(f.1, bs)) + "(v."@ + mangled(f.0.lexeme) + ", stream);"@),
        ]
    }
}

/// The printing function of a struct named `name`, instantiated at `bs`
/// and named `c` in C: `name { field: value, ... }`.
pub open spec fn struct_format_lines(
    c: Seq<char>,
    name: Seq<char>,
    fs: Seq<(TokenView, TypeView)>,
    bs: Seq<(Seq<char>, Seq<char>)>,
) -> Seq<(nat, Seq<char>)> {
    seq![(0nat, user_format_header(c)), (1nat, "fprintf(stream, \""@ + name + " { \");"@)] + field_format_lines(fs, bs)
        + seq![(1nat, "fprintf(stream, \" }\");"@), (0nat, "}"@), (0nat, ""@)]
}

/// The statements that print the payload fields of a variant whose union
/// member is `member`, separated by commas.
pub open spec fn payload_format_lines(
    member: Seq<char>,
    ps: Seq<TypeView>,
    total: nat,
    bs: Seq<(Seq<char>, Seq<char>)>,
) -> Seq<(nat, Seq<char>)>
    decreases ps.len(),
{
    if ps.len() == 0 {
        Seq::empty()
    } else {
        let i = (ps.len() - 1) as nat;
        let before = if i > 0 {
            payload_format_lines(member, ps.drop_last(), total, bs).push((2nat, "fprintf(stream, \", \");"@))
        } else {
            payload_format_lines(member, ps.drop_last(), total, bs)
        };
        before.push(
            (
                2nat,
                format_helper_text(param_c_type(ps.last(), bs)) + "(v.data."@ + member + "."@
                    + crate::c_user_types::payload_field_name(i, total) + ", stream);"@,
            ),
        )
    }
}

/// The cases of the switch that prints a value of the enum named `c`: the
/// variant's name, then its payload in parentheses if it has one.
pub open spec fn variant_format_lines(c: Seq<char>, vs: Seq<VariantView>, bs: Seq<(Seq<char>, Seq<char>)>) -> Seq<
    (nat, Seq<char>),
>
    decreases vs.len(),
{
    if vs.len() == 0 {
        Seq::empty()
    } else {
        let v = vs.last();
        let member = mangled(v.identifier.lexeme);
        variant_format_lines(c, vs.drop_last(), bs) + seq![
            (1nat, "case "@ + c + "_"@ + member + ":"@),
            (2nat, "fprintf(stream, \""@ + v.identifier.lexeme + "\");"@),
        ] + (if v.payload_types.len() > 0 {
            seq![(2nat, "fprintf(stream, \"(\");"@)] + payload_format_lines(
                member,
                v.payload_types,
                v.payload_types.len(),
                bs,
            ) + seq![(2nat, "fprintf(stream, \")\");"@)]
        } else {
            Seq::empty()
        }) + seq![(2nat, "break;"@)]
    }
}

/// The printing function of an enum instantiated at `bs` and named `c`
/// in C.
pub open spec fn enum_format_lines(c: Seq<char>, vs: Seq<VariantView>, bs: Seq<(Seq<char>, Seq<char>)>) -> Seq<
    (nat, Seq<char>),
> {
    seq![(0nat, user_format_header(c)), (1nat, "switch (v.tag) {"@)] + variant_format_lines(c, vs, bs) + seq![
        (1nat, "}"@),
        (0nat, "}"@),
        (0nat, ""@),
    ]
}

/// The printing function of the user type instantiation `key` under the
/// declarations `d`: `Optional` is built in; a name declared as a struct
/// is printed as one, else a name declared as an enum as one; for any
/// other name nothing is written.
pub open spec fn user_format_lines(key: Seq<Seq<char>>, d: Declarations) -> Seq<(nat, Seq<char>)> {
    let id = key[0];
    let args = key.drop_first();
    let c = user_type_c_name(key);
    if id == "Optional"@ {
        optional_format_lines(c, args[0])
    } else if d.structs().contains_key(id) {
        struct_format_lines(c, id, d.structs()[id].fields, bindings_of(d.structs()[id].type_parameters, args))
    } else if d.enums().contains_key(id) {
        enum_format_lines(c, d.enums()[id].variants, bindings_of(d.enums()[id].type_parameters, args))
    } else {
        Seq::empty()
    }
}

/// The instantiations the printing function of `key` under `d` needs.
pub open spec fn user_format_needed(key: Seq<Seq<char>>, d: Declarations) -> Set<
    (InstantiationKind, Seq<Seq<char>>),
> {
    let id = key[0];
    let args = key.drop_first();
    if id == "Optional"@ {
        Set::empty()
    } else if d.structs().contains_key(id) {
        param_needed_all(field_types(d.structs()[id].fields), bindings_of(d.structs()[id].type_parameters, args))
    } else if d.enums().contains_key(id) {
        variants_needed(d.enums()[id].variants, bindings_of(d.enums()[id].type_parameters, args))
    } else {
        Set::empty()
    }
}

pub open spec fn user_format_blocks(ks: Seq<Seq<Seq<char>>>, d: Declarations) -> Seq<char>
    decreases ks.len(),
{
    if ks.len() == 0 {
        Seq::empty()
    } else {
        user_format_blocks(ks.drop_last(), d) + lines_text(user_format_lines(ks.last(), d))
    }
}

pub open spec fn user_formats_needed(ks: Seq<Seq<Seq<char>>>, d: Declarations) -> Set<
    (InstantiationKind, Seq<Seq<char>>),
>
    decreases ks.len(),
{
    if ks.len() == 0 {
        Set::empty()
    } else {
        user_formats_needed(ks.drop_last(), d).union(user_format_needed(ks.last(), d))
    }
}

/// The printing function of `Optional` at C type `inner`, named `c`.
fn optional_format_exec(c: &String, inner: &String) -> (r: Vec<(usize, String)>)
    ensures
        exec_lines_view(r@) == optional_format_lines(c@, inner@),
        forall|i: int| 0 <= i < r@.len() ==> #[trigger] r@[i].0 <= 3,
{
    let some = mangle("Some");
    let none = mangle("None");
    let mut lines: Vec<(usize, String)> = Vec::new();
    add_line(&mut lines, 0, user_format_header_exec(c));
    let mut l1 = "if (v.tag == ".to_owned();
    push_string(&mut l1, c);
    l1.push_str("_");
    push_string(&mut l1, &some);
    l1.push_str(") {");
    add_line(&mut lines, 1, l1);
    add_line(&mut lines, 2, "fprintf(stream, \"Some(\");".to_owned());
    let mut l3 = format_helper_name(inner.as_str());
    l3.push_str("(v.data.");
    push_string(&mut l3, &some);
    l3.push_str(".value, stream);");
    add_line(&mut lines, 2, l3);
    add_line(&mut lines, 2, "fprintf(stream, \")\");".to_owned());
    let mut l5 = "} else if (v.tag == ".to_owned();
    push_string(&mut l5, c);
    l5.push_str("_");
    push_string(&mut l5, &none);
    l5.push_str(") {");
    add_line(&mut lines, 1, l5);
    add_line(&mut lines, 2, "fprintf(stream, \"None\");".to_owned());
    add_line(&mut lines, 1, "}".to_owned());
    add_line(&mut lines, 0, "}".to_owned());
    add_line(&mut lines, 0, "".to_owned());
    proof {
        assert(exec_lines_view(lines@) =~= optional_format_lines(c@, inner@));
    }
    lines
}

/// The first line of the printing function of the user type named `c`.
fn user_format_header_exec(c: &String) -> (r: String)
    ensures
        r@ == user_format_header(c@),
{
    let mut h = "void format_".to_owned();
    push_string(&mut h, c);
    h.push_str("(");
    push_string(&mut h, c);
    h.push_str(" v, FILE* stream) {");
    h
}

impl CodeGenerator {
    /// Appends to `lines` the statements that print the fields of a struct
    /// whose type parameters are bound by `bindings`; the instantiations
    /// the unbound field types need are recorded.
    fn push_field_formats(
        &mut self,
        lines: &mut Vec<(usize, String)>,
        fields: &Vec<(Token, TypeExpr)>,
        bindings: &Vec<(String, String)>,
    )
        requires
            old(self).wf(),
            forall|i: int| 0 <= i < old(lines)@.len() ==> #[trigger] old(lines)@[i].0 <= 3,
        ensures
            final(self).wf(),
            exec_lines_view(final(lines)@) == exec_lines_view(old(lines)@) + field_format_lines(
                fields_view(fields@),
                pairs_view(bindings@),
            ),
            forall|i: int| 0 <= i < final(lines)@.len() ==> #[trigger] final(lines)@[i].0 <= 3,
            final(self).recorded() == old(self).recorded().union(
                param_needed_all(field_types(fields_view(fields@)), pairs_view(bindings@)),
            ),
            final(self).text() == old(self).text(),
            final(self).level() == old(self).level(),
            final(self).temps() == old(self).temps(),
            final(self).histories() == old(self).histories(),
    {
        let ghost fs = fields_view(fields@);
        let ghost bs = pairs_view(bindings@);
        let ghost start = exec_lines_view(lines@);
        proof {
            crate::types::lemma_fields_view_index(fields@);
            assert(fs.take(0) =~= Seq::<(TokenView, TypeView)>::empty());
            assert(field_types(fs.take(0)) =~= Seq::<TypeView>::empty());
            assert(start + field_format_lines(fs.take(0), bs) =~= start);
            assert(self.recorded().union(param_needed_all(field_types(fs.take(0)), bs)) =~= self.recorded());
        }
        let mut i: usize = 0;
        while i < fields.len()
            invariant
                i <= fields@.len(),
                fs == fields_view(fields@),
                fs.len() == fields@.len(),
                forall|j: int| 0 <= j < fields@.len() ==> #[trigger] fs[j] == (fields@[j].0@, fields@[j].1@),
                bs == pairs_view(bindings@),
                self.wf(),
                exec_lines_view(lines@) == start + field_format_lines(fs.take(i as int), bs),
                forall|j: int| 0 <= j < lines@.len() ==> #[trigger] lines@[j].0 <= 3,
                self.recorded() == old(self).recorded().union(param_needed_all(field_types(fs.take(i as int)), bs)),
                self.text() == old(self).text(),
                self.level() == old(self).level(),
                self.temps() == old(self).temps(),
                self.histories() == old(self).histories(),
            decreases fields@.len() - i,
        {
            let ghost before = exec_lines_view(lines@);
            let field_c = self.map_type_with_parameters(&fields[i].1, bindings);
            if i > 0 {
                add_line(lines, 1, "fprintf(stream, \", \");".to_owned());
            }
            let mut l1 = "fprintf(stream, \"".to_owned();
            push_string(&mut l1, &fields[i].0.lexeme);
            l1.push_str(": \");");
            add_line(lines, 1, l1);
            let mut l2 = format_helper_name(field_c.as_str());
            l2.push_str("(v.");
            push_string(&mut l2, &mangle(fields[i].0.lexeme.as_str()));
            l2.push_str(", stream);");
            add_line(lines, 1, l2);
            proof {
                let p = fs.take(i + 1);
                assert(p.drop_last() =~= fs.take(i as int));
                assert(p.last() == fs[i as int]);
                assert(field_types(p).drop_last() =~= field_types(fs.take(i as int)));
                assert(field_types(p).last() == fields@[i as int].1@);
                assert(exec_lines_view(lines@) =~= start + field_format_lines(p, bs));
                assert(self.recorded() =~= old(self).recorded().union(param_needed_all(field_types(p), bs)));
            }
            i = i + 1;
        }
        proof {
            assert(fs.take(i as int) =~= fs);
        }
    }

    /// Appends to `lines` the statements that print the payload fields of
    /// a variant whose union member is `member`; the instantiations their
    /// unbound types need are recorded.
    fn push_payload_formats(
        &mut self,
        lines: &mut Vec<(usize, String)>,
        member: &String,
        payloads: &Vec<TypeExpr>,
        bindings: &Vec<(String, String)>,
    )
        requires
            old(self).wf(),
            forall|i: int| 0 <= i < old(lines)@.len() ==> #[trigger] old(lines)@[i].0 <= 3,
        ensures
            final(self).wf(),
            exec_lines_view(final(lines)@) == exec_lines_view(old(lines)@) + payload_format_lines(
                member@,
                types_view(payloads@),
                payloads@.len(),
                pairs_view(bindings@),
            ),
            forall|i: int| 0 <= i < final(lines)@.len() ==> #[trigger] final(lines)@[i].0 <= 3,
            final(self).recorded() == old(self).recorded().union(
                param_needed_all(types_view(payloads@), pairs_view(bindings@)),
            ),
            final(self).text() == old(self).text(),
            final(self).level() == old(self).level(),
            final(self).temps() == old(self).temps(),
            final(self).histories() == old(self).histories(),
    {
        let ghost ps = types_view(payloads@);
        let ghost bs = pairs_view(bindings@);
        let ghost start = exec_lines_view(lines@);
        let total = payloads.len();
        proof {
            lemma_types_view_index(payloads@);
            assert(ps.take(0) =~= Seq::<TypeView>::empty());
            assert(start + payload_format_lines(member@, ps.take(0), total as nat, bs) =~= start);
            assert(self.recorded().union(param_needed_all(ps.take(0), bs)) =~= self.recorded());
        }
        let mut i: usize = 0;
        while i < payloads.len()
            invariant
                i <= payloads@.len(),
                total == payloads@.len(),
                ps == types_view(payloads@),
                ps.len() == payloads@.len(),
                forall|j: int| 0 <= j < payloads@.len() ==> #[trigger] ps[j] == payloads@[j]@,
                bs == pairs_view(bindings@),
                self.wf(),
                exec_lines_view(lines@) == start + payload_format_lines(member@, ps.take(i as int), total as nat, bs),
                forall|j: int| 0 <= j < lines@.len() ==> #[trigger] lines@[j].0 <= 3,
                self.recorded() == old(self).recorded().union(param_needed_all(ps.take(i as int), bs)),
                self.text() == old(self).text(),
                self.level() == old(self).level(),
                self.temps() == old(self).temps(),
                self.histories() == old(self).histories(),
            decreases payloads@.len() - i,
        {
            let payload_c = self.map_type_with_parameters(&payloads[i], bindings);
            if i > 0 {
                add_line(lines, 2, "fprintf(stream, \", \");".to_owned());
            }
            let mut line = format_helper_name(payload_c.as_str());
            line.push_str("(v.data.");
            push_string(&mut line, member);
            line.push_str(".");
            if total == 1 {
                line.push_str("value");
            } else {
                line.push_str("field");
                push_decimal(&mut line, i as u64);
            }
            line.push_str(", stream);");
            proof {
                assert(line@ =~= format_helper_text(param_c_type(ps[i as int], bs)) + "(v.data."@ + member@ + "."@
                    + crate::c_user_types::payload_field_name(i as nat, total as nat) + ", stream);"@);
            }
            add_line(lines, 2, line);
            proof {
                let p = ps.take(i + 1);
                assert(p.drop_last() =~= ps.take(i as int));
                assert(p.last() == ps[i as int]);
                assert(exec_lines_view(lines@) =~= start + payload_format_lines(member@, p, total as nat, bs));
                assert(self.recorded() =~= old(self).recorded().union(param_needed_all(p, bs)));
            }
            i = i + 1;
        }
        proof {
            assert(ps.take(i as int) =~= ps);
        }
    }

    /// Appends to `lines` the cases of the switch that prints a value of the
    /// enum named `c`; the instantiations the unbound payload types need
    /// are recorded.
    fn push_variant_formats(
        &mut self,
        lines: &mut Vec<(usize, String)>,
        c: &String,
        variants: &Vec<EnumVariant>,
        bindings: &Vec<(String, String)>,
    )
        requires
            old(self).wf(),
            forall|i: int| 0 <= i < old(lines)@.len() ==> #[trigger] old(lines)@[i].0 <= 3,
        ensures
            final(self).wf(),
            exec_lines_view(final(lines)@) == exec_lines_view(old(lines)@) + variant_format_lines(
                c@,
                crate::types::variants_view(variants@),
                pairs_view(bindings@),
            ),
            forall|i: int| 0 <= i < final(lines)@.len() ==> #[trigger] final(lines)@[i].0 <= 3,
            final(self).recorded() == old(self).recorded().union(
                variants_needed(crate::types::variants_view(variants@), pairs_view(bindings@)),
            ),
            final(self).text() == old(self).text(),
            final(self).level() == old(self).level(),
            final(self).temps() == old(self).temps(),
            final(self).histories() == old(self).histories(),
    {
        let ghost vs = crate::types::variants_view(variants@);
        let ghost bs = pairs_view(bindings@);
        let ghost start = exec_lines_view(lines@);
        proof {
            crate::types::lemma_variants_view_index(variants@);
            assert(vs.take(0) =~= Seq::<VariantView>::empty());
            assert(start + variant_format_lines(c@, vs.take(0), bs) =~= start);
            assert(self.recorded().union(variants_needed(vs.take(0), bs)) =~= self.recorded());
        }
        let mut i: usize = 0;
        while i < variants.len()
            invariant
                i <= variants@.len(),
                vs == crate::types::variants_view(variants@),
                vs.len() == variants@.len(),
                forall|j: int| 0 <= j < variants@.len() ==> #[trigger] vs[j] == (VariantView {
                    identifier: variants@[j].identifier@,
                    payload_types: types_view(variants@[j].payload_types@),
                }),
                bs == pairs_view(bindings@),
                self.wf(),
                exec_lines_view(lines@) == start + variant_format_lines(c@, vs.take(i as int), bs),
                forall|j: int| 0 <= j < lines@.len() ==> #[trigger] lines@[j].0 <= 3,
                self.recorded() == old(self).recorded().union(variants_needed(vs.take(i as int), bs)),
                self.text() == old(self).text(),
                self.level() == old(self).level(),
                self.temps() == old(self).temps(),
                self.histories() == old(self).histories(),
            decreases variants@.len() - i,
        {
            let ghost before = exec_lines_view(lines@);
            let ghost rec = self.recorded();
            proof {
                lemma_types_view_index(variants@[i as int].payload_types@);
            }
            let member = mangle(variants[i].identifier.lexeme.as_str());
            let mut l0 = "case ".to_owned();
            push_string(&mut l0, c);
            l0.push_str("_");
            push_string(&mut l0, &member);
            l0.push_str(":");
            add_line(lines, 1, l0);
            let mut l1 = "fprintf(stream, \"".to_owned();
            push_string(&mut l1, &variants[i].identifier.lexeme);
            l1.push_str("\");");
            add_line(lines, 2, l1);
            let ghost mid = exec_lines_view(lines@);
            if variants[i].payload_types.len() > 0 {
                add_line(lines, 2, "fprintf(stream, \"(\");".to_owned());
                self.push_payload_formats(lines, &member, &variants[i].payload_types, bindings);
                add_line(lines, 2, "fprintf(stream, \")\");".to_owned());
            } else {
                proof {
                    assert(types_view(variants@[i as int].payload_types@) =~= Seq::<TypeView>::empty());
                    assert(rec.union(param_needed_all(Seq::<TypeView>::empty(), bs)) =~= rec);
                }
            }
            add_line(lines, 2, "break;".to_owned());
            proof {
                let p = vs.take(i + 1);
                assert(p.drop_last() =~= vs.take(i as int));
                assert(p.last() == vs[i as int]);
                assert(exec_lines_view(lines@) =~= start + variant_format_lines(c@, p, bs));
                assert(self.recorded() =~= old(self).recorded().union(variants_needed(p, bs)));
            }
            i = i + 1;
        }
        proof {
            assert(vs.take(i as int) =~= vs);
        }
    }
}

/// Each of `ns` as a key of its own.
pub open spec fn singletons(ns: Seq<Seq<char>>) -> Seq<Seq<Seq<char>>> {
    ns.map_values(|n: Seq<char>| seq![n])
}

/// Whether the printing function of `key` can be written: `Optional` needs
/// the C type it is instantiated at.
pub open spec fn formattable(key: Seq<Seq<char>>) -> bool {
    &&& key.len() >= 1
    &&& key[0] == "Optional"@ ==> key.len() >= 2
}

/// Each of `names` as a key of its own.
fn singletons_exec(names: &Vec<String>) -> (r: Vec<Vec<String>>)
    ensures
        keys_view(r@) == singletons(strings_view_of(names@)),
{
    let ghost want = singletons(strings_view_of(names@));
    let mut r: Vec<Vec<String>> = Vec::new();
    let mut i: usize = 0;
    while i < names.len()
        invariant
            i <= names@.len(),
            want == singletons(strings_view_of(names@)),
            keys_view(r@) == want.take(i as int),
        decreases names@.len() - i,
    {
        let mut k: Vec<String> = Vec::new();
        k.push(names[i].clone());
        let ghost before = r@;
        proof {
            assert(strings_view(k@) =~= seq![names@[i as int]@]);
        }
        r.push(k);
        proof {
            assert(keys_view(r@) =~= keys_view(before).push(seq![names@[i as int]@]));
            assert(want.take(i + 1) =~= want.take(i as int).push(want[i as int]));
        }
        i = i + 1;
    }
    proof {
        assert(want.take(i as int) =~= want);
    }
    r
}

impl CodeGenerator {
    /// Writes the printing function of the user type instantiation `key`
    /// under the declarations `decls`.
    fn write_user_format_with(&mut self, key: &Vec<String>, decls: &Declarations)
        requires
            old(self).wf(),
            formattable(strings_view(key@)),
        ensures
            final(self).wf(),
            final(self).text() == old(self).text() + lines_text(user_format_lines(strings_view(key@), *decls)),
            final(self).recorded() == old(self).recorded().union(user_format_needed(strings_view(key@), *decls)),
            final(self).level() == old(self).level(),
            final(self).temps() == old(self).temps(),
            final(self).histories() == old(self).histories(),
    {
        let ghost k = strings_view(key@);
        proof {
            assert(k[0] == key@[0]@);
        }
        let identifier = &key[0];
        let c = user_c_name(key);
        let mut args: Vec<String> = Vec::new();
        let mut i: usize = 1;
        while i < key.len()
            invariant
                1 <= i <= key@.len(),
                k == strings_view(key@),
                strings_view(args@) == k.drop_first().take(i - 1),
            decreases key@.len() - i,
        {
            let ghost before = args@;
            args.push(key[i].clone());
            proof {
                assert(strings_view(args@) =~= strings_view(before).push(key@[i as int]@));
                assert(k.drop_first().take(i as int) =~= k.drop_first().take(i - 1).push(k[i as int]));
            }
            i = i + 1;
        }
        proof {
            assert(k.drop_first().take(i - 1) =~= k.drop_first());
        }
        if same_text(identifier, "Optional") {
            proof {
                assert(strings_view(args@)[0] == args@[0]@);
            }
            let lines = optional_format_exec(&c, &args[0]);
            self.write_lines_unindented(&lines);
            proof {
                assert(old(self).recorded().union(Set::empty()) =~= old(self).recorded());
            }
            return;
        }
        let mut lines: Vec<(usize, String)> = Vec::new();
        add_line(&mut lines, 0, user_format_header_exec(&c));
        match decls.find_struct(identifier) {
            Some(d) => {
                let bindings = bindings_for(&d.type_parameters, &args);
                let mut l1 = "fprintf(stream, \"".to_owned();
                push_string(&mut l1, identifier);
                l1.push_str(" { \");");
                add_line(&mut lines, 1, l1);
                self.push_field_formats(&mut lines, &d.fields, &bindings);
                add_line(&mut lines, 1, "fprintf(stream, \" }\");".to_owned());
                add_line(&mut lines, 0, "}".to_owned());
                add_line(&mut lines, 0, "".to_owned());
                proof {
                    assert(exec_lines_view(lines@) =~= user_format_lines(k, *decls));
                }
                self.write_lines_unindented(&lines);
            },
            None => match decls.find_enum(identifier) {
                Some(d) => {
                    let bindings = bindings_for(&d.type_parameters, &args);
                    add_line(&mut lines, 1, "switch (v.tag) {".to_owned());
                    self.push_variant_formats(&mut lines, &c, &d.variants, &bindings);
                    add_line(&mut lines, 1, "}".to_owned());
                    add_line(&mut lines, 0, "}".to_owned());
                    add_line(&mut lines, 0, "".to_owned());
                    proof {
                        assert(exec_lines_view(lines@) =~= user_format_lines(k, *decls));
                    }
                    self.write_lines_unindented(&lines);
                },
                None => {
                    proof {
                        assert(old(self).recorded().union(Set::empty()) =~= old(self).recorded());
                        assert(old(self).text() + lines_text(Seq::<(nat, Seq<char>)>::empty()) =~= old(self).text());
                    }
                },
            },
        }
    }

    /// Writes the function that prints values of a user type instantiation:
    /// `Optional` as `Some(value)` or `None`, a declared struct as
    /// `Name { field: value, ... }`, a declared enum as its variant's name
    /// with its payload in parentheses; the instantiations the member types
    /// need are recorded.
    pub fn write_user_type_format_helper(&mut self, instantiation: &UserTypeInstantiation)
        requires
            old(self).wf(),
            instantiation.identifier@ == "Optional"@ ==> instantiation.argument_c_types@.len() >= 1,
        ensures
            final(self).wf(),
            final(self).text() == old(self).text() + lines_text(
                user_format_lines(
                    seq![instantiation.identifier@] + strings_view(instantiation.argument_c_types@),
                    old(self).declared(),
                ),
            ),
            final(self).recorded() == old(self).recorded().union(
                user_format_needed(
                    seq![instantiation.identifier@] + strings_view(instantiation.argument_c_types@),
                    old(self).declared(),
                ),
            ),
            final(self).declared() == old(self).declared(),
            final(self).level() == old(self).level(),
            final(self).temps() == old(self).temps(),
            final(self).histories() == old(self).histories(),
    {
        let mut key: Vec<String> = Vec::new();
        key.push(instantiation.identifier.clone());
        let mut i: usize = 0;
        let ghost args = strings_view(instantiation.argument_c_types@);
        while i < instantiation.argument_c_types.len()
            invariant
                i <= instantiation.argument_c_types@.len(),
                args == strings_view(instantiation.argument_c_types@),
                strings_view(key@) == seq![instantiation.identifier@] + args.take(i as int),
            decreases instantiation.argument_c_types@.len() - i,
        {
            let ghost before = key@;
            key.push(instantiation.argument_c_types[i].clone());
            proof {
                assert(strings_view(key@) =~= strings_view(before).push(instantiation.argument_c_types@[i as int]@));
                assert(args.take(i + 1) =~= args.take(i as int).push(args[i as int]));
            }
            i = i + 1;
        }
        proof {
            assert(args.take(i as int) =~= args);
            assert(strings_view(key@)[0] == instantiation.identifier@);
        }
        let decls = self.take_declarations();
        self.write_user_format_with(&key, &decls);
        self.restore_declarations(decls);
    }

    /// Writes the printing functions of the user type instantiations `keys`,
    /// in order, under the declarations `decls`.
    fn write_user_formats(&mut self, keys: &Vec<Vec<String>>, decls: &Declarations)
        requires
            old(self).wf(),
            forall|k: Seq<Seq<char>>| #[trigger] keys_view(keys@).contains(k) ==> formattable(k),
        ensures
            final(self).wf(),
            final(self).text() == old(self).text() + user_format_blocks(keys_view(keys@), *decls),
            final(self).recorded() == old(self).recorded().union(user_formats_needed(keys_view(keys@), *decls)),
            final(self).level() == old(self).level(),
            final(self).temps() == old(self).temps(),
            final(self).histories() == old(self).histories(),
    {
        let ghost ks = keys_view(keys@);
        proof {
            assert(ks.take(0) =~= Seq::<Seq<Seq<char>>>::empty());
            assert(self.recorded().union(user_formats_needed(ks.take(0), *decls)) =~= self.recorded());
        }
        let mut i: usize = 0;
        while i < keys.len()
            invariant
                i <= keys@.len(),
                ks == keys_view(keys@),
                forall|k: Seq<Seq<char>>| #[trigger] ks.contains(k) ==> formattable(k),
                self.wf(),
                self.text() == old(self).text() + user_format_blocks(ks.take(i as int), *decls),
                self.recorded() == old(self).recorded().union(user_formats_needed(ks.take(i as int), *decls)),
                self.level() == old(self).level(),
                self.temps() == old(self).temps(),
                self.histories() == old(self).histories(),
            decreases keys@.len() - i,
        {
            proof {
                assert(ks[i as int] == strings_view(keys@[i as int]@));
                assert(ks.contains(ks[i as int]));
            }
            self.write_user_format_with(&keys[i], decls);
            proof {
                let p = ks.take(i + 1);
                assert(p.drop_last() =~= ks.take(i as int));
                assert(p.last() == ks[i as int]);
                assert(self.recorded() =~= old(self).recorded().union(user_formats_needed(p, *decls)));
            }
            i = i + 1;
        }
        proof {
            assert(ks.take(i as int) =~= ks);
        }
    }
}

/// The prototypes of all printing functions: of arrays, maps and ranges,
/// of the user type instantiations `us`, then of the structs `ss` and enums
/// `es` without type parameters.
pub open spec fn format_prototypes_text(
    arrays: Seq<Seq<Seq<char>>>,
    maps: Seq<Seq<Seq<char>>>,
    ranges: Seq<Seq<Seq<char>>>,
    us: Seq<Seq<Seq<char>>>,
    ss: Seq<Seq<char>>,
    es: Seq<Seq<char>>,
) -> Seq<char> {
    prototype_text(array_prototypes(arrays)) + prototype_text(map_prototypes(maps)) + prototype_text(
        range_prototypes(ranges),
    ) + prototype_text(user_prototypes(us)) + prototype_text(user_prototypes(singletons(ss))) + prototype_text(
        user_prototypes(singletons(es)),
    )
}

/// The printing functions themselves, in the same order as their
/// prototypes.
pub open spec fn format_definitions_text(
    arrays: Seq<Seq<Seq<char>>>,
    maps: Seq<Seq<Seq<char>>>,
    ranges: Seq<Seq<Seq<char>>>,
    us: Seq<Seq<Seq<char>>>,
    ss: Seq<Seq<char>>,
    es: Seq<Seq<char>>,
    d: Declarations,
) -> Seq<char> {
    array_format_blocks(arrays) + map_format_blocks(maps) + range_format_blocks(ranges) + user_format_blocks(us, d)
        + user_format_blocks(singletons(ss), d) + user_format_blocks(singletons(es), d)
}

/// The printing functions were written, after the text `before`, with
/// `ss` and `es` as the order of the structs and enums without type
/// parameters, and the instantiations they need were recorded.
pub open spec fn format_helpers_written(
    before: Seq<char>,
    after: Seq<char>,
    recorded_before: Set<(InstantiationKind, Seq<Seq<char>>)>,
    recorded_after: Set<(InstantiationKind, Seq<Seq<char>>)>,
    arrays: Seq<Seq<Seq<char>>>,
    maps: Seq<Seq<Seq<char>>>,
    ranges: Seq<Seq<Seq<char>>>,
    us: Seq<Seq<Seq<char>>>,
    d: Declarations,
    ss: Seq<Seq<char>>,
    es: Seq<Seq<char>>,
) -> bool {
    &&& plain_struct_names(ss, d.structs())
    &&& plain_enum_names(es, d.enums())
    &&& after == before + format_prototypes_text(arrays, maps, ranges, us, ss, es) + format_definitions_text(
        arrays,
        maps,
        ranges,
        us,
        ss,
        es,
        d,
    )
    &&& recorded_after == recorded_before.union(user_formats_needed(us, d)).union(
        user_formats_needed(singletons(ss), d),
    ).union(user_formats_needed(singletons(es), d))
}

impl CodeGenerator {
    /// Writes the prototypes of the printing functions.
    fn write_format_prototypes(
        &mut self,
        arrays: &Vec<Vec<String>>,
        maps: &Vec<Vec<String>>,
        ranges: &Vec<Vec<String>>,
        users: &Vec<Vec<String>>,
        plain_structs: &Vec<Vec<String>>,
        plain_enums: &Vec<Vec<String>>,
        Ghost(ss): Ghost<Seq<Seq<char>>>,
        Ghost(es): Ghost<Seq<Seq<char>>>,
    )
        requires
            all_of_length(keys_view(arrays@), 1),
            all_of_length(keys_view(ranges@), 1),
            all_of_length(keys_view(maps@), 2),
            all_at_least(keys_view(users@), 1),
            keys_view(plain_structs@) == singletons(ss),
            keys_view(plain_enums@) == singletons(es),
        ensures
            final(self).text() == old(self).text() + format_prototypes_text(
                keys_view(arrays@),
                keys_view(maps@),
                keys_view(ranges@),
                keys_view(users@),
                ss,
                es,
            ),
            final(self).level() == old(self).level(),
            final(self).temps() == old(self).temps(),
            final(self).recorded() == old(self).recorded(),
            final(self).histories() == old(self).histories(),
            final(self).wf() == old(self).wf(),
    {
        proof {
            assert forall|k: Seq<Seq<char>>| #[trigger] keys_view(plain_structs@).contains(k) implies k.len() >= 1 by {
                let q = choose|q: int| 0 <= q < keys_view(plain_structs@).len() && keys_view(plain_structs@)[q] == k;
                assert(k == seq![ss[q]]);
            }
            assert forall|k: Seq<Seq<char>>| #[trigger] keys_view(plain_enums@).contains(k) implies k.len() >= 1 by {
                let q = choose|q: int| 0 <= q < keys_view(plain_enums@).len() && keys_view(plain_enums@)[q] == k;
                assert(k == seq![es[q]]);
            }
        }
        self.write_prototypes(&prototypes_of(InstantiationKind::ArrayType, arrays));
        self.write_prototypes(&prototypes_of(InstantiationKind::MapType, maps));
        self.write_prototypes(&prototypes_of(InstantiationKind::RangeType, ranges));
        self.write_prototypes(&prototypes_of(InstantiationKind::UserType, users));
        self.write_prototypes(&prototypes_of(InstantiationKind::UserType, plain_structs));
        self.write_prototypes(&prototypes_of(InstantiationKind::UserType, plain_enums));
        proof {
            assert(self.text() =~= old(self).text() + format_prototypes_text(
                keys_view(arrays@),
                keys_view(maps@),
                keys_view(ranges@),
                keys_view(users@),
                ss,
                es,
            ));
        }
    }

    /// Writes the printing functions themselves.
    fn write_format_definitions(
        &mut self,
        arrays: &Vec<Vec<String>>,
        maps: &Vec<Vec<String>>,
        ranges: &Vec<Vec<String>>,
        users: &Vec<Vec<String>>,
        plain_structs: &Vec<Vec<String>>,
        plain_enums: &Vec<Vec<String>>,
        decls: &Declarations,
        Ghost(ss): Ghost<Seq<Seq<char>>>,
        Ghost(es): Ghost<Seq<Seq<char>>>,
    )
        requires
            old(self).wf(),
            all_of_length(keys_view(arrays@), 1),
            all_of_length(keys_view(ranges@), 1),
            all_of_length(keys_view(maps@), 2),
            forall|k: Seq<Seq<char>>| #[trigger] keys_view(users@).contains(k) ==> formattable(k),
            forall|k: Seq<Seq<char>>| #[trigger] keys_view(plain_structs@).contains(k) ==> formattable(k),
            forall|k: Seq<Seq<char>>| #[trigger] keys_view(plain_enums@).contains(k) ==> formattable(k),
            keys_view(plain_structs@) == singletons(ss),
            keys_view(plain_enums@) == singletons(es),
        ensures
            final(self).wf(),
            final(self).text() == old(self).text() + format_definitions_text(
                keys_view(arrays@),
                keys_view(maps@),
                keys_view(ranges@),
                keys_view(users@),
                ss,
                es,
                *decls,
            ),
            final(self).recorded() == old(self).recorded().union(user_formats_needed(keys_view(users@), *decls)).union(
                user_formats_needed(singletons(ss), *decls),
            ).union(user_formats_needed(singletons(es), *decls)),
            final(self).level() == old(self).level(),
            final(self).temps() == old(self).temps(),
            final(self).histories() == old(self).histories(),
    {
        self.write_builtin_formats(InstantiationKind::ArrayType, arrays);
        self.write_builtin_formats(InstantiationKind::MapType, maps);
        self.write_builtin_formats(InstantiationKind::RangeType, ranges);
        self.write_user_formats(users, decls);
        self.write_user_formats(plain_structs, decls);
        self.write_user_formats(plain_enums, decls);
        proof {
            assert(self.text() =~= old(self).text() + format_definitions_text(
                keys_view(arrays@),
                keys_view(maps@),
                keys_view(ranges@),
                keys_view(users@),
                ss,
                es,
                *decls,
            ));
        }
    }

    /// Writes the prototypes, then the definitions, of the functions that
    /// print values of every array, map, range and user type instantiation
    /// recorded so far and of every struct and enum without type parameters
    /// (these in some order, each once); the instantiations their member
    /// types need are recorded.
    pub fn write_format_helpers(&mut self)
        requires
            old(self).wf(),
            !(old(self).declared().structs().contains_key("Optional"@) && old(self).declared().structs()["Optional"@].type_parameters.len() == 0),
            !(old(self).declared().enums().contains_key("Optional"@) && old(self).declared().enums()["Optional"@].type_parameters.len() == 0),
        ensures
            final(self).wf(),
            final(self).declared() == old(self).declared(),
            final(self).level() == old(self).level(),
            final(self).temps() == old(self).temps(),
            final(self).histories() == old(self).histories(),
            exists|ss: Seq<Seq<char>>, es: Seq<Seq<char>>|
                #[trigger] format_helpers_written(
                    old(self).text(),
                    final(self).text(),
                    old(self).recorded(),
                    final(self).recorded(),
                    old(self).instantiations(InstantiationKind::ArrayType),
                    old(self).instantiations(InstantiationKind::MapType),
                    old(self).instantiations(InstantiationKind::RangeType),
                    old(self).instantiations(InstantiationKind::UserType),
                    old(self).declared(),
                    ss,
                    es,
                ),
    {
        let arrays = self.instantiation_keys(InstantiationKind::ArrayType);
        let maps = self.instantiation_keys(InstantiationKind::MapType);
        let ranges = self.instantiation_keys(InstantiationKind::RangeType);
        let users = self.instantiation_keys(InstantiationKind::UserType);
        proof {
            self.lemma_wf_lengths();
        }
        let decls = self.take_declarations();
        let struct_names = decls.plain_structs();
        let enum_names = decls.plain_enums();
        let plain_structs = singletons_exec(&struct_names);
        let plain_enums = singletons_exec(&enum_names);
        let ghost ss = strings_view_of(struct_names@);
        let ghost es = strings_view_of(enum_names@);
        let ghost d = old(self).declared();
        proof {
            assert forall|k: Seq<Seq<char>>| #[trigger] keys_view(users@).contains(k) implies formattable(k) by {
                assert(k.len() >= 2);
            }
            assert forall|k: Seq<Seq<char>>| #[trigger] keys_view(plain_structs@).contains(k) implies formattable(k) by {
                let q = choose|q: int| 0 <= q < keys_view(plain_structs@).len() && keys_view(plain_structs@)[q] == k;
                assert(k == seq![ss[q]]);
                assert(ss.contains(ss[q]));
            }
            assert forall|k: Seq<Seq<char>>| #[trigger] keys_view(plain_enums@).contains(k) implies formattable(k) by {
                let q = choose|q: int| 0 <= q < keys_view(plain_enums@).len() && keys_view(plain_enums@)[q] == k;
                assert(k == seq![es[q]]);
                assert(es.contains(es[q]));
            }
            assert forall|k: Seq<Seq<char>>| #[trigger] keys_view(users@).contains(k) implies k.len() >= 1 by {
                assert(k.len() >= 2);
            }
        }
        self.write_format_prototypes(&arrays, &maps, &ranges, &users, &plain_structs, &plain_enums, Ghost(ss), Ghost(es));
        self.write_format_definitions(
            &arrays,
            &maps,
            &ranges,
            &users,
            &plain_structs,
            &plain_enums,
            &decls,
            Ghost(ss),
            Ghost(es),
        );
        self.restore_declarations(decls);
        proof {
            assert(format_helpers_written(
                old(self).text(),
                self.text(),
                old(self).recorded(),
                self.recorded(),
                old(self).instantiations(InstantiationKind::ArrayType),
                old(self).instantiations(InstantiationKind::MapType),
                old(self).instantiations(InstantiationKind::RangeType),
                old(self).instantiations(InstantiationKind::UserType),
                old(self).declared(),
                ss,
                es,
            ));
        }
    }
}

} // verus!

use std::collections::HashMap;
use vstd::prelude::*;
use crate::c_names::{c_type_text, mangle, mangled, same_text, strings_view, suffixes_text, UserTypeInstantiation};
use crate::code_generator::{
    add_line, all_at_least, exec_lines_view, field_lines_text, field_types, line_at, lines_text, needed, needed_all, shifted,
    CodeGenerator, InstantiationKind,
};
use crate::declarations::{Declarations, EnumDeclaration, EnumView, StructDeclaration, StructView};
use crate::sorted_keys::keys_view;
use crate::ast::Stmt;
use crate::text::{decimal, push_decimal, push_string};
use crate::token::{tokens_view, Token, TokenView};
use crate::types::{fields_view, lemma_types_view_index, types_view, EnumVariant, TypeExpr, TypeView, VariantView};

verus! {

/// The values of a list of pairs of strings.
pub open spec fn pairs_view(bs: Seq<(String, String)>) -> Seq<(Seq<char>, Seq<char>)> {
    bs.map_values(|p: (String, String)| (p.0@, p.1@))
}

/// Each type parameter, by name, with the C type of the type argument at
/// its position; parameters without an argument, or arguments without a
/// parameter, are left out.
pub open spec fn bindings_of(params: Seq<TokenView>, args: Seq<Seq<char>>) -> Seq<(Seq<char>, Seq<char>)> {
    let n = if params.len() <= args.len() { params.len() } else { args.len() };
    Seq::new(n, |i: int| (params[i].lexeme, args[i]))
}

/// The C type of the first binding of `name`, if any.
pub open spec fn lookup_binding(bs: Seq<(Seq<char>, Seq<char>)>, name: Seq<char>) -> Option<Seq<char>>
    decreases bs.len(),
{
    if bs.len() == 0 {
        None
    } else if bs[0].0 == name {
        Some(bs[0].1)
    } else {
        lookup_binding(bs.drop_first(), name)
    }
}

/// The C type a type stands for under `bs` when it is a bound type
/// parameter: a named type without type arguments whose name is bound.
pub open spec fn bound_type(t: TypeView, bs: Seq<(Seq<char>, Seq<char>)>) -> Option<Seq<char>> {
    match t {
        TypeView::Named { identifier, type_arguments, .. } => if type_arguments.len() == 0 {
            lookup_binding(bs, identifier.lexeme)
        } else {
            None
        },
        _ => None,
    }
}

/// The C type of `t` with the type parameters bound by `bs`.
pub open spec fn param_c_type(t: TypeView, bs: Seq<(Seq<char>, Seq<char>)>) -> Seq<char> {
    match bound_type(t, bs) {
        Some(c) => c,
        None => c_type_text(t),
    }
}

/// The instantiations `t` needs, unless it is a bound type parameter.
pub open spec fn param_needed(t: TypeView, bs: Seq<(Seq<char>, Seq<char>)>) -> Set<
    (InstantiationKind, Seq<Seq<char>>),
> {
    match bound_type(t, bs) {
        Some(_) => Set::empty(),
        None => needed(t),
    }
}

/// The instantiations each of `ts` needs, unless it is a bound type
/// parameter.
pub open spec fn param_needed_all(ts: Seq<TypeView>, bs: Seq<(Seq<char>, Seq<char>)>) -> Set<
    (InstantiationKind, Seq<Seq<char>>),
>
    decreases ts.len(),
{
    if ts.len() == 0 {
        Set::empty()
    } else {
        param_needed_all(ts.drop_last(), bs).union(param_needed(ts.last(), bs))
    }
}

/// The bindings of `type_parameters` to the C types `argument_c_types`.
pub(crate) fn bindings_for(type_parameters: &Vec<Token>, argument_c_types: &Vec<String>) -> (r: Vec<(String, String)>)
    ensures
        pairs_view(r@) == bindings_of(tokens_view(type_parameters@), strings_view(argument_c_types@)),
{
    let ghost want = bindings_of(tokens_view(type_parameters@), strings_view(argument_c_types@));
    let mut r: Vec<(String, String)> = Vec::new();
    let mut i: usize = 0;
    while i < type_parameters.len() && i < argument_c_types.len()
        invariant
            i <= type_parameters@.len(),
            i <= argument_c_types@.len(),
            want == bindings_of(tokens_view(type_parameters@), strings_view(argument_c_types@)),
            pairs_view(r@) == want.take(i as int),
        decreases type_parameters@.len() - i,
    {
        let p = (type_parameters[i].lexeme.clone(), argument_c_types[i].clone());
        let ghost before = r@;
        r.push(p);
        proof {
            assert(pairs_view(r@) =~= pairs_view(before).push((type_parameters@[i as int].lexeme@, argument_c_types@[i as int]@)));
            assert(want.take(i + 1) =~= want.take(i as int).push(want[i as int]));
        }
        i = i + 1;
    }
    proof {
        assert(want.take(i as int) =~= want);
    }
    r
}

/// The field declarations of a struct instantiation, one level deeper:
/// each field's C type under `bs` and its mangled name.
pub open spec fn param_field_lines(fs: Seq<(TokenView, TypeView)>, bs: Seq<(Seq<char>, Seq<char>)>) -> Seq<
    (nat, Seq<char>),
>
    decreases fs.len(),
{
    if fs.len() == 0 {
        Seq::empty()
    } else {
        param_field_lines(fs.drop_last(), bs).push(
            (1nat, param_c_type(fs.last().1, bs) + " "@ + mangled(fs.last().0.lexeme) + ";"@),
        )
    }
}

/// The C struct named `c` of a struct instantiated at the bindings `bs`.
pub open spec fn struct_instantiation_lines(
    c: Seq<char>,
    fs: Seq<(TokenView, TypeView)>,
    bs: Seq<(Seq<char>, Seq<char>)>,
) -> Seq<(nat, Seq<char>)> {
    seq![(0nat, "typedef struct "@ + c + " {"@)] + param_field_lines(fs, bs) + seq![
        (0nat, "} "@ + c + ";"@),
        (0nat, ""@),
    ]
}

impl CodeGenerator {
    /// The C type of `type_expr` where the type parameters named in
    /// `bindings` stand for their C types; the instantiations an unbound
    /// type needs are recorded.
    pub fn map_type_with_parameters(&mut self, type_expr: &TypeExpr, bindings: &Vec<(String, String)>) -> (r: String)
        requires
            old(self).wf(),
        ensures
            r@ == param_c_type(type_expr@, pairs_view(bindings@)),
            final(self).wf(),
            final(self).recorded() == old(self).recorded().union(param_needed(type_expr@, pairs_view(bindings@))),
            final(self).text() == old(self).text(),
            final(self).level() == old(self).level(),
            final(self).temps() == old(self).temps(),
            final(self).histories() == old(self).histories(),
    {
        let ghost bs = pairs_view(bindings@);
        match type_expr {
            TypeExpr::Named { identifier, type_arguments, .. } => {
                proof {
                    lemma_types_view_index(type_arguments@);
                }
                if type_arguments.len() == 0 {
                    let ghost name = identifier.lexeme@;
                    proof {
                        assert(bs.skip(0) =~= bs);
                    }
                    let mut i: usize = 0;
                    while i < bindings.len()
                        invariant
                            i <= bindings@.len(),
                            bs == pairs_view(bindings@),
                            name == identifier.lexeme@,
                            lookup_binding(bs.skip(i as int), name) == lookup_binding(bs, name),
                            bound_type(type_expr@, bs) == lookup_binding(bs, name),
                            self.wf(),
                            self.recorded() == old(self).recorded(),
                            self.text() == old(self).text(),
                            self.level() == old(self).level(),
                            self.temps() == old(self).temps(),
                            self.histories() == old(self).histories(),
                        decreases bindings@.len() - i,
                    {
                        proof {
                            assert(bs.skip(i as int)[0] == bs[i as int]);
                            assert(bs[i as int] == (bindings@[i as int].0@, bindings@[i as int].1@));
                        }
                        if same_text(&bindings[i].0, identifier.lexeme.as_str()) {
                            proof {
                                assert(self.recorded().union(Set::empty()) =~= self.recorded());
                            }
                            return bindings[i].1.clone();
                        }
                        proof {
                            assert(bs.skip(i as int).drop_first() =~= bs.skip(i + 1));
                        }
                        i = i + 1;
                    }
                    proof {
                        assert(bs.skip(i as int) =~= Seq::<(Seq<char>, Seq<char>)>::empty());
                    }
                }
                self.map_type(type_expr)
            },
            _ => self.map_type(type_expr),
        }
    }

    /// Defines the C struct `c_identifier` of a struct with the given type
    /// parameters and fields, instantiated at the C types of
    /// `instantiation`; the instantiations its unbound field types need are
    /// recorded.
    pub fn write_struct_instantiation(
        &mut self,
        c_identifier: &str,
        type_parameters: &Vec<Token>,
        fields: &Vec<(Token, TypeExpr)>,
        instantiation: &UserTypeInstantiation,
    )
        requires
            old(self).wf(),
            old(self).level() + 3 <= usize::MAX,
        ensures
            final(self).wf(),
            final(self).text() == old(self).text() + lines_text(
                shifted(
                    struct_instantiation_lines(
                        c_identifier@,
                        fields_view(fields@),
                        bindings_of(tokens_view(type_parameters@), strings_view(instantiation.argument_c_types@)),
                    ),
                    old(self).level(),
                ),
            ),
            final(self).recorded() == old(self).recorded().union(
                param_needed_all(
                    field_types(fields_view(fields@)),
                    bindings_of(tokens_view(type_parameters@), strings_view(instantiation.argument_c_types@)),
                ),
            ),
            final(self).level() == old(self).level(),
            final(self).temps() == old(self).temps(),
            final(self).histories() == old(self).histories(),
    {
        let bindings = bindings_for(type_parameters, &instantiation.argument_c_types);
        let ghost bs = pairs_view(bindings@);
        let ghost fs = fields_view(fields@);
        let mut lines: Vec<(usize, String)> = Vec::new();
        let mut open_line = "typedef struct ".to_owned();
        open_line.push_str(c_identifier);
        open_line.push_str(" {");
        add_line(&mut lines, 0, open_line);
        let ghost head = exec_lines_view(lines@);
        proof {
            crate::types::lemma_fields_view_index(fields@);
            assert(fs.take(0) =~= Seq::<(TokenView, TypeView)>::empty());
            assert(field_types(fs.take(0)) =~= Seq::<TypeView>::empty());
            assert(self.recorded().union(param_needed_all(field_types(fs.take(0)), bs)) =~= self.recorded());
        }
        let mut i: usize = 0;
        while i < fields.len()
            invariant
                i <= fields@.len(),
                fs == fields_view(fields@),
                fs.len() == fields@.len(),
                forall|j: int| 0 <= j < fields@.len() ==> #[trigger] fs[j] == (fields@[j].0@, fields@[j].1@),
                bs == pairs_view(bindings@),
                self.wf(),
                exec_lines_view(lines@) == head + param_field_lines(fs.take(i as int), bs),
                forall|j: int| 0 <= j < lines@.len() ==> #[trigger] lines@[j].0 <= 3,
                self.recorded() == old(self).recorded().union(param_needed_all(field_types(fs.take(i as int)), bs)),
                self.text() == old(self).text(),
                self.level() == old(self).level(),
                self.temps() == old(self).temps(),
                self.histories() == old(self).histories(),
            decreases fields@.len() - i,
        {
            let mut line = self.map_type_with_parameters(&fields[i].1, &bindings);
            line.push_str(" ");
            push_string(&mut line, &mangle(fields[i].0.lexeme.as_str()));
            line.push_str(";");
            add_line(&mut lines, 1, line);
            proof {
                let p = fs.take(i + 1);
                assert(p.drop_last() =~= fs.take(i as int));
                assert(p.last() == fs[i as int]);
                assert(field_types(p).drop_last() =~= field_types(fs.take(i as int)));
                assert(field_types(p).last() == fields@[i as int].1@);
                assert(exec_lines_view(lines@) =~= head + param_field_lines(p, bs));
                assert(self.recorded() =~= old(self).recorded().union(param_needed_all(field_types(p), bs)));
            }
            i = i + 1;
        }
        proof {
            assert(fs.take(i as int) =~= fs);
        }
        let mut close_line = "} ".to_owned();
        close_line.push_str(c_identifier);
        close_line.push_str(";");
        add_line(&mut lines, 0, close_line);
        add_line(&mut lines, 0, "".to_owned());
        proof {
            assert(exec_lines_view(lines@) =~= struct_instantiation_lines(c_identifier@, fs, bs));
        }
        self.write_lines(&lines);
    }
}

/// The name of field `i` of a variant payload of `total` fields.
pub open spec fn payload_field_name(i: nat, total: nat) -> Seq<char> {
    if total == 1 {
        "value"@
    } else {
        "field"@ + decimal(i)
    }
}

/// The fields of a variant payload of `total` fields, three levels deeper:
/// each with its C type under `bs`.
pub open spec fn payload_lines(ps: Seq<TypeView>, total: nat, bs: Seq<(Seq<char>, Seq<char>)>) -> Seq<
    (nat, Seq<char>),
>
    decreases ps.len(),
{
    if ps.len() == 0 {
        Seq::empty()
    } else {
        payload_lines(ps.drop_last(), total, bs).push(
            (3nat, param_c_type(ps.last(), bs) + " "@ + payload_field_name((ps.len() - 1) as nat, total) + ";"@),
        )
    }
}

/// The union members of the variants with a payload: for each, a struct
/// of its payload fields named after the variant.
pub open spec fn variant_member_lines(vs: Seq<VariantView>, bs: Seq<(Seq<char>, Seq<char>)>) -> Seq<
    (nat, Seq<char>),
>
    decreases vs.len(),
{
    if vs.len() == 0 {
        Seq::empty()
    } else {
        let v = vs.last();
        let before = variant_member_lines(vs.drop_last(), bs);
        if v.payload_types.len() == 0 {
            before
        } else {
            before + seq![(2nat, "struct {"@)] + payload_lines(v.payload_types, v.payload_types.len(), bs) + seq![
                (2nat, "} "@ + mangled(v.identifier.lexeme) + ";"@),
            ]
        }
    }
}

/// The tag constants of the variants of the enum named `c`.
pub open spec fn variant_tag_lines(c: Seq<char>, vs: Seq<VariantView>) -> Seq<(nat, Seq<char>)>
    decreases vs.len(),
{
    if vs.len() == 0 {
        Seq::empty()
    } else {
        variant_tag_lines(c, vs.drop_last()).push((1nat, c + "_"@ + mangled(vs.last().identifier.lexeme) + ","@))
    }
}

/// Whether some variant carries a payload.
pub open spec fn has_payloads(vs: Seq<VariantView>) -> bool {
    exists|i: int| 0 <= i < vs.len() && #[trigger] vs[i].payload_types.len() > 0
}

/// The instantiations the payload types of the variants need, unless they
/// are bound type parameters.
pub open spec fn variants_needed(vs: Seq<VariantView>, bs: Seq<(Seq<char>, Seq<char>)>) -> Set<
    (InstantiationKind, Seq<Seq<char>>),
>
    decreases vs.len(),
{
    if vs.len() == 0 {
        Set::empty()
    } else {
        variants_needed(vs.drop_last(), bs).union(param_needed_all(vs.last().payload_types, bs))
    }
}

/// The C tag enum and tagged struct named `c` of an enum instantiated at
/// the bindings `bs`; the union of payloads is there only where some
/// variant has one.
pub open spec fn enum_instantiation_lines(
    c: Seq<char>,
    vs: Seq<VariantView>,
    bs: Seq<(Seq<char>, Seq<char>)>,
) -> Seq<(nat, Seq<char>)> {
    let tag = c + "_Tag"@;
    seq![(0nat, "typedef enum "@ + tag + " {"@)] + variant_tag_lines(c, vs) + seq![
        (0nat, "} "@ + tag + ";"@),
        (0nat, ""@),
        (0nat, "typedef struct "@ + c + " {"@),
        (1nat, tag + " tag;"@),
    ] + (if has_payloads(vs) {
        seq![(1nat, "union {"@)] + variant_member_lines(vs, bs) + seq![(1nat, "} data;"@)]
    } else {
        Seq::empty()
    }) + seq![(0nat, "} "@ + c + ";"@), (0nat, ""@)]
}

/// Appends to `lines` the tag constants of the variants of the enum named
/// `c`.
fn push_variant_tag_lines(lines: &mut Vec<(usize, String)>, c: &String, variants: &Vec<EnumVariant>)
    requires
        forall|i: int| 0 <= i < old(lines)@.len() ==> #[trigger] old(lines)@[i].0 <= 3,
    ensures
        exec_lines_view(final(lines)@) == exec_lines_view(old(lines)@) + variant_tag_lines(
            c@,
            crate::types::variants_view(variants@),
        ),
        forall|i: int| 0 <= i < final(lines)@.len() ==> #[trigger] final(lines)@[i].0 <= 3,
{
    let ghost vs = crate::types::variants_view(variants@);
    let ghost start = exec_lines_view(lines@);
    proof {
        crate::types::lemma_variants_view_index(variants@);
        assert(vs.take(0) =~= Seq::<VariantView>::empty());
        assert(start + variant_tag_lines(c@, vs.take(0)) =~= start);
    }
    let mut i: usize = 0;
    while i < variants.len()
        invariant
            i <= variants@.len(),
            vs == crate::types::variants_view(variants@),
            vs.len() == variants@.len(),
            forall|j: int| 0 <= j < variants@.len() ==> #[trigger] vs[j].identifier == variants@[j].identifier@,
            exec_lines_view(lines@) == start + variant_tag_lines(c@, vs.take(i as int)),
            forall|j: int| 0 <= j < lines@.len() ==> #[trigger] lines@[j].0 <= 3,
        decreases variants@.len() - i,
    {
        let mut line = c.clone();
        line.push_str("_");
        push_string(&mut line, &mangle(variants[i].identifier.lexeme.as_str()));
        line.push_str(",");
        proof {
            assert(line@ =~= c@ + "_"@ + mangled(vs[i as int].identifier.lexeme) + ","@);
        }
        add_line(lines, 1, line);
        proof {
            let p = vs.take(i + 1);
            assert(p.drop_last() =~= vs.take(i as int));
            assert(p.last() == vs[i as int]);
            assert(exec_lines_view(lines@) =~= start + variant_tag_lines(c@, p));
        }
        i = i + 1;
    }
    proof {
        assert(vs.take(i as int) =~= vs);
    }
}

/// Whether some variant carries a payload.
fn any_payloads(variants: &Vec<EnumVariant>) -> (b: bool)
    ensures
        b == has_payloads(crate::types::variants_view(variants@)),
{
    let ghost vs = crate::types::variants_view(variants@);
    proof {
        crate::types::lemma_variants_view_index(variants@);
    }
    let mut i: usize = 0;
    while i < variants.len()
        invariant
            i <= variants@.len(),
            vs == crate::types::variants_view(variants@),
            vs.len() == variants@.len(),
            forall|j: int| 0 <= j < variants@.len() ==> #[trigger] vs[j].payload_types == types_view(
                variants@[j].payload_types@,
            ),
            forall|j: int| 0 <= j < i ==> #[trigger] vs[j].payload_types.len() == 0,
        decreases variants@.len() - i,
    {
        proof {
            lemma_types_view_index(variants@[i as int].payload_types@);
        }
        if variants[i].payload_types.len() > 0 {
            proof {
                assert(vs[i as int].payload_types.len() > 0);
            }
            return true;
        }
        i = i + 1;
    }
    false
}

impl CodeGenerator {
    /// Appends to `lines` the fields of a variant payload of C types under
    /// `bindings`; the instantiations they need are recorded.
    fn push_payload_lines(
        &mut self,
        lines: &mut Vec<(usize, String)>,
        payloads: &Vec<TypeExpr>,
        bindings: &Vec<(String, String)>,
    )
        requires
            old(self).wf(),
            forall|i: int| 0 <= i < old(lines)@.len() ==> #[trigger] old(lines)@[i].0 <= 3,
        ensures
            final(self).wf(),
            exec_lines_view(final(lines)@) == exec_lines_view(old(lines)@) + payload_lines(
                types_view(payloads@),
                payloads@.len(),
                pairs_view(bindings@),
            ),
            forall|i: int| 0 <= i < final(lines)@.len() ==> #[trigger] final(lines)@[i].0 <= 3,
            final(self).recorded() == old(self).recorded().union(
                param_needed_all(types_view(payloads@), pairs_view(bindings@)),
            ),
            final(self).text() == old(self).text(),
            final(self).level() == old(self).level(),
            final(self).temps() == old(self).temps(),
            final(self).histories() == old(self).histories(),
    {
        let ghost ps = types_view(payloads@);
        let ghost bs = pairs_view(bindings@);
        let ghost start = exec_lines_view(lines@);
        let total = payloads.len();
        proof {
            lemma_types_view_index(payloads@);
            assert(ps.take(0) =~= Seq::<TypeView>::empty());
            assert(start + payload_lines(ps.take(0), total as nat, bs) =~= start);
            assert(self.recorded().union(param_needed_all(ps.take(0), bs)) =~= self.recorded());
        }
        let mut i: usize = 0;
        while i < payloads.len()
            invariant
                i <= payloads@.len(),
                total == payloads@.len(),
                ps == types_view(payloads@),
                ps.len() == payloads@.len(),
                forall|j: int| 0 <= j < payloads@.len() ==> #[trigger] ps[j] == payloads@[j]@,
                bs == pairs_view(bindings@),
                self.wf(),
                exec_lines_view(lines@) == start + payload_lines(ps.take(i as int), total as nat, bs),
                forall|j: int| 0 <= j < lines@.len() ==> #[trigger] lines@[j].0 <= 3,
                self.recorded() == old(self).recorded().union(param_needed_all(ps.take(i as int), bs)),
                self.text() == old(self).text(),
                self.level() == old(self).level(),
                self.temps() == old(self).temps(),
                self.histories() == old(self).histories(),
            decreases payloads@.len() - i,
        {
            let mut line = self.map_type_with_parameters(&payloads[i], bindings);
            let ghost pc = line@;
            line.push_str(" ");
            if total == 1 {
                line.push_str("value");
            } else {
                line.push_str("field");
                push_decimal(&mut line, i as u64);
            }
            line.push_str(";");
            proof {
                assert(line@ =~= pc + " "@ + payload_field_name(i as nat, total as nat) + ";"@);
            }
            add_line(lines, 3, line);
            proof {
                let p = ps.take(i + 1);
                assert(p.drop_last() =~= ps.take(i as int));
                assert(p.last() == ps[i as int]);
                assert(exec_lines_view(lines@) =~= start + payload_lines(p, total as nat, bs));
                assert(self.recorded() =~= old(self).recorded().union(param_needed_all(p, bs)));
            }
            i = i + 1;
        }
        proof {
            assert(ps.take(i as int) =~= ps);
        }
    }

    /// Appends to `lines` the union members of the variants with a payload;
    /// the instantiations their payload types need are recorded.
    fn push_variant_members(
        &mut self,
        lines: &mut Vec<(usize, String)>,
        variants: &Vec<EnumVariant>,
        bindings: &Vec<(String, String)>,
    )
        requires
            old(self).wf(),
            forall|i: int| 0 <= i < old(lines)@.len() ==> #[trigger] old(lines)@[i].0 <= 3,
        ensures
            final(self).wf(),
            exec_lines_view(final(lines)@) == exec_lines_view(old(lines)@) + variant_member_lines(
                crate::types::variants_view(variants@),
                pairs_view(bindings@),
            ),
            forall|i: int| 0 <= i < final(lines)@.len() ==> #[trigger] final(lines)@[i].0 <= 3,
            final(self).recorded() == old(self).recorded().union(
                variants_needed(crate::types::variants_view(variants@), pairs_view(bindings@)),
            ),
            final(self).text() == old(self).text(),
            final(self).level() == old(self).level(),
            final(self).temps() == old(self).temps(),
            final(self).histories() == old(self).histories(),
    {
        let ghost vs = crate::types::variants_view(variants@);
        let ghost bs = pairs_view(bindings@);
        let ghost start = exec_lines_view(lines@);
        proof {
            crate::types::lemma_variants_view_index(variants@);
            assert(vs.take(0) =~= Seq::<VariantView>::empty());
            assert(start + variant_member_lines(vs.take(0), bs) =~= start);
            assert(self.recorded().union(variants_needed(vs.take(0), bs)) =~= self.recorded());
        }
        let mut i: usize = 0;
        while i < variants.len()
            invariant
                i <= variants@.len(),
                vs == crate::types::variants_view(variants@),
                vs.len() == variants@.len(),
                forall|j: int| 0 <= j < variants@.len() ==> #[trigger] vs[j] == (VariantView {
                    identifier: variants@[j].identifier@,
                    payload_types: types_view(variants@[j].payload_types@),
                }),
                bs == pairs_view(bindings@),
                self.wf(),
                exec_lines_view(lines@) == start + variant_member_lines(vs.take(i as int), bs),
                forall|j: int| 0 <= j < lines@.len() ==> #[trigger] lines@[j].0 <= 3,
                self.recorded() == old(self).recorded().union(variants_needed(vs.take(i as int), bs)),
                self.text() == old(self).text(),
                self.level() == old(self).level(),
                self.temps() == old(self).temps(),
                self.histories() == old(self).histories(),
            decreases variants@.len() - i,
        {
            let ghost rec = self.recorded();
            let ghost before = exec_lines_view(lines@);
            proof {
                lemma_types_view_index(variants@[i as int].payload_types@);
            }
            if variants[i].payload_types.len() > 0 {
                add_line(lines, 2, "struct {".to_owned());
                self.push_payload_lines(lines, &variants[i].payload_types, &bindings);
                let mut close = "} ".to_owned();
                push_string(&mut close, &mangle(variants[i].identifier.lexeme.as_str()));
                close.push_str(";");
                add_line(lines, 2, close);
                proof {
                    assert(exec_lines_view(lines@) =~= before + seq![(2nat, "struct {"@)] + payload_lines(
                        vs[i as int].payload_types,
                        vs[i as int].payload_types.len(),
                        bs,
                    ) + seq![(2nat, "} "@ + mangled(vs[i as int].identifier.lexeme) + ";"@)]);
                }
            } else {
                proof {
                    assert(types_view(variants@[i as int].payload_types@) =~= Seq::<TypeView>::empty());
                    assert(rec.union(param_needed_all(Seq::<TypeView>::empty(), bs)) =~= rec);
                }
            }
            proof {
                let p = vs.take(i + 1);
                assert(p.drop_last() =~= vs.take(i as int));
                assert(p.last() == vs[i as int]);
                assert(exec_lines_view(lines@) =~= start + variant_member_lines(p, bs));
                assert(self.recorded() =~= old(self).recorded().union(variants_needed(p, bs)));
            }
            i = i + 1;
        }
        proof {
            assert(vs.take(i as int) =~= vs);
        }
    }

    /// Defines the C tag enum and tagged struct `c_identifier` of an enum
    /// with the given type parameters and variants, instantiated at the C
    /// types of `instantiation`; the instantiations its unbound payload
    /// types need are recorded.
    pub fn write_enum_instantiation(
        &mut self,
        c_identifier: &str,
        type_parameters: &Vec<Token>,
        variants: &Vec<EnumVariant>,
        instantiation: &UserTypeInstantiation,
    )
        requires
            old(self).wf(),
            old(self).level() + 3 <= usize::MAX,
        ensures
            final(self).wf(),
            final(self).text() == old(self).text() + lines_text(
                shifted(
                    enum_instantiation_lines(
                        c_identifier@,
                        crate::types::variants_view(variants@),
                        bindings_of(tokens_view(type_parameters@), strings_view(instantiation.argument_c_types@)),
                    ),
                    old(self).level(),
                ),
            ),
            final(self).recorded() == old(self).recorded().union(
                if has_payloads(crate::types::variants_view(variants@)) {
                    variants_needed(
                        crate::types::variants_view(variants@),
                        bindings_of(tokens_view(type_parameters@), strings_view(instantiation.argument_c_types@)),
                    )
                } else {
                    Set::empty()
                },
            ),
            final(self).level() == old(self).level(),
            final(self).temps() == old(self).temps(),
            final(self).histories() == old(self).histories(),
    {
        let bindings = bindings_for(type_parameters, &instantiation.argument_c_types);
        let ghost bs = pairs_view(bindings@);
        let ghost vs = crate::types::variants_view(variants@);
        let c = c_identifier.to_owned();
        let mut tag = c.clone();
        tag.push_str("_Tag");
        let mut lines: Vec<(usize, String)> = Vec::new();
        let mut l0 = "typedef enum ".to_owned();
        push_string(&mut l0, &tag);
        l0.push_str(" {");
        add_line(&mut lines, 0, l0);
        push_variant_tag_lines(&mut lines, &c, variants);
        let mut l1 = "} ".to_owned();
        push_string(&mut l1, &tag);
        l1.push_str(";");
        add_line(&mut lines, 0, l1);
        add_line(&mut lines, 0, "".to_owned());
        let mut l2 = "typedef struct ".to_owned();
        push_string(&mut l2, &c);
        l2.push_str(" {");
        add_line(&mut lines, 0, l2);
        let mut l3 = tag.clone();
        l3.push_str(" tag;");
        add_line(&mut lines, 1, l3);
        let ghost head = exec_lines_view(lines@);
        let has = any_payloads(variants);
        if has {
            add_line(&mut lines, 1, "union {".to_owned());
            self.push_variant_members(&mut lines, variants, &bindings);
            add_line(&mut lines, 1, "} data;".to_owned());
            proof {
                assert(exec_lines_view(lines@) =~= head + (seq![(1nat, "union {"@)] + variant_member_lines(vs, bs)
                    + seq![(1nat, "} data;"@)]));
            }
        } else {
            proof {
                assert(old(self).recorded().union(Set::empty()) =~= old(self).recorded());
                assert(head + Seq::<(nat, Seq<char>)>::empty() =~= head);
            }
        }
        let mut l4 = "} ".to_owned();
        push_string(&mut l4, &c);
        l4.push_str(";");
        add_line(&mut lines, 0, l4);
        add_line(&mut lines, 0, "".to_owned());
        proof {
            assert(tag@ =~= c_identifier@ + "_Tag"@);
            assert(exec_lines_view(lines@) =~= enum_instantiation_lines(c_identifier@, vs, bs));
        }
        self.write_lines(&lines);
    }
}

/// The C tag enum and tagged struct named `c` of `Optional` at the C type
/// `inner`.
pub open spec fn optional_lines(c: Seq<char>, inner: Seq<char>) -> Seq<(nat, Seq<char>)> {
    let tag = c + "_Tag"@;
    seq![
        (0nat, "typedef enum "@ + tag + " {"@),
        (1nat, c + "_"@ + mangled("Some"@) + ","@),
        (1nat, c + "_"@ + mangled("None"@) + ","@),
        (0nat, "} "@ + tag + ";"@),
        (0nat, ""@),
        (0nat, "typedef struct "@ + c + " {"@),
        (1nat, tag + " tag;"@),
        (1nat, "union {"@),
        (2nat, "struct {"@),
        (3nat, inner + " value;"@),
        (2nat, "} "@ + mangled("Some"@) + ";"@),
        (1nat, "} data;"@),
        (0nat, "} "@ + c + ";"@),
        (0nat, ""@),
    ]
}

/// The C name of the user type instantiation `key`: its name, then the C
/// types it is instantiated at.
pub open spec fn user_type_c_name(key: Seq<Seq<char>>) -> Seq<char> {
    mangled(key[0]) + suffixes_text(key.drop_first())
}

/// The definition of the user type instantiation `key` under the
/// declarations `d`: `Optional` is built in; a name declared as a struct
/// is defined as one, else a name declared as an enum as one; any other
/// name is not defined.
pub open spec fn user_type_lines(key: Seq<Seq<char>>, d: Declarations) -> Seq<(nat, Seq<char>)> {
    let id = key[0];
    let args = key.drop_first();
    let c = user_type_c_name(key);
    if id == "Optional"@ {
        optional_lines(c, args[0])
    } else if d.structs().contains_key(id) {
        struct_instantiation_lines(c, d.structs()[id].fields, bindings_of(d.structs()[id].type_parameters, args))
    } else if d.enums().contains_key(id) {
        enum_instantiation_lines(c, d.enums()[id].variants, bindings_of(d.enums()[id].type_parameters, args))
    } else {
        Seq::empty()
    }
}

/// The instantiations the definition of `key` under `d` needs.
pub open spec fn user_type_needed(key: Seq<Seq<char>>, d: Declarations) -> Set<(InstantiationKind, Seq<Seq<char>>)> {
    let id = key[0];
    let args = key.drop_first();
    if id == "Optional"@ {
        Set::empty()
    } else if d.structs().contains_key(id) {
        param_needed_all(field_types(d.structs()[id].fields), bindings_of(d.structs()[id].type_parameters, args))
    } else if d.enums().contains_key(id) {
        if has_payloads(d.enums()[id].variants) {
            variants_needed(d.enums()[id].variants, bindings_of(d.enums()[id].type_parameters, args))
        } else {
            Set::empty()
        }
    } else {
        Set::empty()
    }
}

/// The definitions of the user type instantiations `ks`, at level `n`.
pub open spec fn user_type_blocks(ks: Seq<Seq<Seq<char>>>, d: Declarations, n: nat) -> Seq<char>
    decreases ks.len(),
{
    if ks.len() == 0 {
        Seq::empty()
    } else {
        user_type_blocks(ks.drop_last(), d, n) + lines_text(shifted(user_type_lines(ks.last(), d), n))
    }
}

/// The instantiations the definitions of `ks` need.
pub open spec fn user_types_needed(ks: Seq<Seq<Seq<char>>>, d: Declarations) -> Set<
    (InstantiationKind, Seq<Seq<char>>),
>
    decreases ks.len(),
{
    if ks.len() == 0 {
        Set::empty()
    } else {
        user_types_needed(ks.drop_last(), d).union(user_type_needed(ks.last(), d))
    }
}

/// The C struct of a struct without type parameters, at level `n`.
pub open spec fn struct_declaration_text(name: Seq<char>, fs: Seq<(TokenView, TypeView)>, n: nat) -> Seq<char> {
    line_at(n, "typedef struct "@ + mangled(name) + " {"@) + field_lines_text(fs, n + 1) + line_at(
        n,
        "} "@ + mangled(name) + ";"@,
    ) + line_at(n, ""@)
}

/// The definition of `Optional` at the C type `inner`, named `c`.
fn optional_lines_exec(c: &String, inner: &String) -> (r: Vec<(usize, String)>)
    ensures
        exec_lines_view(r@) == optional_lines(c@, inner@),
        forall|i: int| 0 <= i < r@.len() ==> #[trigger] r@[i].0 <= 3,
{
    let mut tag = c.clone();
    tag.push_str("_Tag");
    let some = mangle("Some");
    let none = mangle("None");
    let mut lines: Vec<(usize, String)> = Vec::new();
    let mut l0 = "typedef enum ".to_owned();
    push_string(&mut l0, &tag);
    l0.push_str(" {");
    add_line(&mut lines, 0, l0);
    let mut l1 = c.clone();
    l1.push_str("_");
    push_string(&mut l1, &some);
    l1.push_str(",");
    add_line(&mut lines, 1, l1);
    let mut l2 = c.clone();
    l2.push_str("_");
    push_string(&mut l2, &none);
    l2.push_str(",");
    add_line(&mut lines, 1, l2);
    let mut l3 = "} ".to_owned();
    push_string(&mut l3, &tag);
    l3.push_str(";");
    add_line(&mut lines, 0, l3);
    add_line(&mut lines, 0, "".to_owned());
    let mut l5 = "typedef struct ".to_owned();
    push_string(&mut l5, c);
    l5.push_str(" {");
    add_line(&mut lines, 0, l5);
    let mut l6 = tag.clone();
    l6.push_str(" tag;");
    add_line(&mut lines, 1, l6);
    add_line(&mut lines, 1, "union {".to_owned());
    add_line(&mut lines, 2, "struct {".to_owned());
    let mut l9 = inner.clone();
    l9.push_str(" value;");
    add_line(&mut lines, 3, l9);
    let mut l10 = "} ".to_owned();
    push_string(&mut l10, &some);
    l10.push_str(";");
    add_line(&mut lines, 2, l10);
    add_line(&mut lines, 1, "} data;".to_owned());
    let mut l12 = "} ".to_owned();
    push_string(&mut l12, c);
    l12.push_str(";");
    add_line(&mut lines, 0, l12);
    add_line(&mut lines, 0, "".to_owned());
    proof {
        assert(exec_lines_view(lines@) =~= optional_lines(c@, inner@));
    }
    lines
}

/// The C types a user type instantiation is made at: all of `key` but its
/// first element.
fn arguments_of(key: &Vec<String>) -> (r: Vec<String>)
    requires
        key@.len() >= 1,
    ensures
        strings_view(r@) == strings_view(key@).drop_first(),
{
    let ghost want = strings_view(key@).drop_first();
    let mut r: Vec<String> = Vec::new();
    let mut i: usize = 1;
    while i < key.len()
        invariant
            1 <= i <= key@.len(),
            want == strings_view(key@).drop_first(),
            strings_view(r@) == want.take(i - 1),
        decreases key@.len() - i,
    {
        let a = key[i].clone();
        let ghost before = r@;
        r.push(a);
        proof {
            assert(strings_view(r@) =~= strings_view(before).push(key@[i as int]@));
            assert(want.take(i as int) =~= want.take(i - 1).push(want[i - 1]));
        }
        i = i + 1;
    }
    proof {
        assert(want.take(i - 1) =~= want);
    }
    r
}

impl CodeGenerator {
    /// Defines the C type of one user type instantiation `key` under the
    /// declarations `decls`.
    fn write_user_type_instantiation(&mut self, key: &Vec<String>, decls: &Declarations)
        requires
            old(self).wf(),
            old(self).level() + 3 <= usize::MAX,
            key@.len() >= 2,
        ensures
            final(self).wf(),
            final(self).text() == old(self).text() + lines_text(
                shifted(user_type_lines(strings_view(key@), *decls), old(self).level()),
            ),
            final(self).recorded() == old(self).recorded().union(user_type_needed(strings_view(key@), *decls)),
            final(self).level() == old(self).level(),
            final(self).temps() == old(self).temps(),
            final(self).histories() == old(self).histories(),
    {
        let ghost k = strings_view(key@);
        let identifier = &key[0];
        let instantiation = UserTypeInstantiation { identifier: identifier.clone(), argument_c_types: arguments_of(key) };
        let c = instantiation.c_identifier();
        proof {
            assert(k[0] == key@[0]@);
            assert(c@ == user_type_c_name(k));
        }
        if same_text(identifier, "Optional") {
            proof {
                assert(strings_view(instantiation.argument_c_types@)[0] == instantiation.argument_c_types@[0]@);
            }
            let lines = optional_lines_exec(&c, &instantiation.argument_c_types[0]);
            self.write_lines(&lines);
            proof {
                assert(old(self).recorded().union(Set::empty()) =~= old(self).recorded());
            }
            return;
        }
        match decls.find_struct(identifier) {
            Some(d) => {
                self.write_struct_instantiation(c.as_str(), &d.type_parameters, &d.fields, &instantiation);
            },
            None => match decls.find_enum(identifier) {
                Some(d) => {
                    self.write_enum_instantiation(c.as_str(), &d.type_parameters, &d.variants, &instantiation);
                },
                None => {
                    proof {
                        assert(old(self).recorded().union(Set::empty()) =~= old(self).recorded());
                        assert(old(self).text() + lines_text(shifted(Seq::<(nat, Seq<char>)>::empty(), old(self).level()))
                            =~= old(self).text());
                    }
                },
            },
        }
    }

    /// Defines, for each user type instantiation in sorted order, its C
    /// type; the instantiations their members need are recorded, though
    /// not defined here.
    pub fn write_user_type_instantiations(&mut self)
        requires
            old(self).wf(),
            old(self).level() + 3 <= usize::MAX,
        ensures
            final(self).wf(),
            final(self).text() == old(self).text() + user_type_blocks(
                old(self).instantiations(InstantiationKind::UserType),
                old(self).declared(),
                old(self).level(),
            ),
            final(self).recorded() == old(self).recorded().union(
                user_types_needed(old(self).instantiations(InstantiationKind::UserType), old(self).declared()),
            ),
            final(self).level() == old(self).level(),
            final(self).temps() == old(self).temps(),
            final(self).histories() == old(self).histories(),
    {
        let keys = self.instantiation_keys(InstantiationKind::UserType);
        let decls = self.declarations().copy();
        let ghost ks = keys_view(keys@);
        let ghost n = old(self).level();
        let ghost d0 = old(self).declared();
        proof {
            assert(ks.take(0) =~= Seq::<Seq<Seq<char>>>::empty());
            assert(self.recorded().union(user_types_needed(ks.take(0), d0)) =~= self.recorded());
        }
        let mut i: usize = 0;
        while i < keys.len()
            invariant
                i <= keys@.len(),
                ks == keys_view(keys@),
                ks == old(self).instantiations(InstantiationKind::UserType),
                all_at_least(ks, 2),
                d0 == old(self).declared(),
                decls.structs() == d0.structs(),
                decls.enums() == d0.enums(),
                decls.functions() == d0.functions(),
                n == old(self).level(),
                n + 3 <= usize::MAX,
                self.wf(),
                self.text() == old(self).text() + user_type_blocks(ks.take(i as int), d0, n),
                self.recorded() == old(self).recorded().union(user_types_needed(ks.take(i as int), d0)),
                self.level() == n,
                self.temps() == old(self).temps(),
                self.histories() == old(self).histories(),
            decreases keys@.len() - i,
        {
            proof {
                assert(ks[i as int] == strings_view(keys@[i as int]@));
                assert(ks.contains(ks[i as int]));
            }
            self.write_user_type_instantiation(&keys[i], &decls);
            proof {
                let p = ks.take(i + 1);
                assert(p.drop_last() =~= ks.take(i as int));
                assert(p.last() == ks[i as int]);
                assert(user_type_lines(ks[i as int], decls) == user_type_lines(ks[i as int], d0));
                assert(user_type_needed(ks[i as int], decls) == user_type_needed(ks[i as int], d0));
                assert(self.recorded() =~= old(self).recorded().union(user_types_needed(p, d0)));
            }
            i = i + 1;
        }
        proof {
            assert(ks.take(i as int) =~= ks);
        }
    }
}

impl CodeGenerator {
    /// Keeps the struct, enum and function declarations of a top-level
    /// statement; a struct or enum without type parameters is defined in C
    /// right away (an enum as its tag enum and tagged struct), and the
    /// instantiations its members need are recorded.
    pub fn generate_declarations(&mut self, stmt: &Stmt)
        requires
            old(self).wf(),
            old(self).level() + 3 <= usize::MAX,
        ensures
            final(self).wf(),
            final(self).level() == old(self).level(),
            final(self).temps() == old(self).temps(),
            final(self).histories() == old(self).histories(),
            match stmt {
                Stmt::Struct { identifier, type_parameters, fields } => {
                    &&& final(self).declared().structs() == old(self).declared().structs().insert(
                        identifier.lexeme@,
                        StructView { type_parameters: tokens_view(type_parameters@), fields: fields_view(fields@) },
                    )
                    &&& final(self).declared().enums() == old(self).declared().enums()
                    &&& final(self).declared().functions() == old(self).declared().functions()
                    &&& final(self).text() == old(self).text() + if type_parameters@.len() == 0 {
                        struct_declaration_text(identifier.lexeme@, fields_view(fields@), old(self).level())
                    } else {
                        Seq::empty()
                    }
                    &&& final(self).recorded() == old(self).recorded().union(
                        if type_parameters@.len() == 0 {
                            needed_all(field_types(fields_view(fields@)))
                        } else {
                            Set::empty()
                        },
                    )
                },
                Stmt::Enum { identifier, type_parameters, variants } => {
                    &&& final(self).declared().enums() == old(self).declared().enums().insert(
                        identifier.lexeme@,
                        EnumView {
                            type_parameters: tokens_view(type_parameters@),
                            variants: crate::types::variants_view(variants@),
                        },
                    )
                    &&& final(self).declared().structs() == old(self).declared().structs()
                    &&& final(self).declared().functions() == old(self).declared().functions()
                    &&& final(self).text() == old(self).text() + if type_parameters@.len() == 0 {
                        lines_text(
                            shifted(
                                enum_instantiation_lines(
                                    mangled(identifier.lexeme@),
                                    crate::types::variants_view(variants@),
                                    Seq::empty(),
                                ),
                                old(self).level(),
                            ),
                        )
                    } else {
                        Seq::empty()
                    }
                    &&& final(self).recorded() == old(self).recorded().union(
                        if type_parameters@.len() == 0 && has_payloads(crate::types::variants_view(variants@)) {
                            variants_needed(crate::types::variants_view(variants@), Seq::empty())
                        } else {
                            Set::empty()
                        },
                    )
                },
                Stmt::Function(function) => {
                    &&& final(self).declared().functions() == old(self).declared().functions().insert(
                        function.identifier.lexeme@,
                    )
                    &&& final(self).declared().structs() == old(self).declared().structs()
                    &&& final(self).declared().enums() == old(self).declared().enums()
                    &&& final(self).text() == old(self).text()
                    &&& final(self).recorded() == old(self).recorded()
                },
                _ => {
                    &&& final(self).declared() == old(self).declared()
                    &&& final(self).text() == old(self).text()
                    &&& final(self).recorded() == old(self).recorded()
                },
            },
    {
        match stmt {
            Stmt::Struct { identifier, type_parameters, fields } => {
                let mut decls = self.take_declarations();
                if type_parameters.len() == 0 {
                    self.generate_struct_declaration(identifier, fields);
                } else {
                    proof {
                        assert(old(self).text() + Seq::<char>::empty() =~= old(self).text());
                        assert(old(self).recorded().union(Set::empty()) =~= old(self).recorded());
                    }
                }
                decls.add_struct(
                    StructDeclaration {
                        identifier: identifier.lexeme.clone(),
                        type_parameters: crate::ast::copy_tokens(type_parameters),
                        fields: crate::types::copy_fields(fields),
                    },
                );
                self.restore_declarations(decls);
            },
            Stmt::Enum { identifier, type_parameters, variants } => {
                let mut decls = self.take_declarations();
                if type_parameters.len() == 0 {
                    let c_id = mangle(identifier.lexeme.as_str());
                    let instantiation = UserTypeInstantiation {
                        identifier: identifier.lexeme.clone(),
                        argument_c_types: Vec::new(),
                    };
                    let no_parameters: Vec<Token> = Vec::new();
                    proof {
                        assert(bindings_of(tokens_view(no_parameters@), strings_view(instantiation.argument_c_types@))
                            =~= Seq::<(Seq<char>, Seq<char>)>::empty());
                    }
                    self.write_enum_instantiation(c_id.as_str(), &no_parameters, variants, &instantiation);
                } else {
                    proof {
                        assert(old(self).text() + Seq::<char>::empty() =~= old(self).text());
                        assert(old(self).recorded().union(Set::empty()) =~= old(self).recorded());
                    }
                }
                decls.add_enum(
                    EnumDeclaration {
                        identifier: identifier.lexeme.clone(),
                        type_parameters: crate::ast::copy_tokens(type_parameters),
                        variants: crate::types::copy_variants(variants),
                    },
                );
                self.restore_declarations(decls);
            },
            Stmt::Function(function) => {
                self.declare_function(function.identifier.lexeme.clone());
            },
            _ => {},
        }
    }
}

impl CodeGenerator {
    /// `type_expr` with each type variable that `mapping` maps replaced by
    /// its image.
    pub fn substitute_local(&self, type_expr: &TypeExpr, mapping: &HashMap<usize, TypeExpr>) -> (r: TypeExpr)
        ensures
            r@ == crate::type_ops::substituted_vars(type_expr@, crate::type_ops::subs_view(mapping@)),
    {
        crate::type_ops::substitute_typevars(type_expr, mapping)
    }
}

} // verus!

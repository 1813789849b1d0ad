use vstd::prelude::*;
use crate::c_names::{format_helper_name, format_helper_text, strings_view, suffix_text, tuple_c_type_name, UserTypeInstantiation};
use crate::code_generator::{
    add_line, exec_lines_view, is_tuple_c_type, line_at, lines_text, shifted, tuple_name, CodeGenerator,
    InstantiationKind,
};
use crate::lines::starts_with;
use crate::sorted_keys::keys_view;
use crate::text::{decimal, push_decimal, push_string};

verus! {

/// The comparison of element `i`, of C type `c`, of two tuples `a` and `b`:
/// strings by content, primitives by value, tuples by their own equality
/// function, anything else by its bytes.
pub open spec fn tuple_eq_line(c: Seq<char>, i: nat) -> Seq<char> {
    let n = decimal(i);
    if c == "const char*"@ {
        "if (strcmp(a._"@ + n + ", b._"@ + n + ") != 0) return false;"@
    } else if c == "int"@ || c == "double"@ || c == "bool"@ {
        "if (a._"@ + n + " != b._"@ + n + ") return false;"@
    } else if starts_with(c, "Tuple_"@) {
        "if (!tuple_eq_"@ + suffix_text(c) + "(a._"@ + n + ", b._"@ + n + ")) return false;"@
    } else {
        "if (memcmp(&a._"@ + n + ", &b._"@ + n + ", sizeof(a._"@ + n + ")) != 0) return false;"@
    }
}

/// The comparisons of all elements of tuples with element types `cs`.
pub open spec fn tuple_eq_lines(cs: Seq<Seq<char>>) -> Seq<(nat, Seq<char>)>
    decreases cs.len(),
{
    if cs.len() == 0 {
        Seq::empty()
    } else {
        tuple_eq_lines(cs.drop_last()).push((1nat, tuple_eq_line(cs.last(), (cs.len() - 1) as nat)))
    }
}

/// The statements that print the elements of a tuple with element types
/// `cs`, separated by commas.
pub open spec fn tuple_format_lines(cs: Seq<Seq<char>>) -> Seq<(nat, Seq<char>)>
    decreases cs.len(),
{
    if cs.len() == 0 {
        Seq::empty()
    } else {
        let i = (cs.len() - 1) as nat;
        let before = if i > 0 {
            tuple_format_lines(cs.drop_last()).push((1nat, "fprintf(stream, \", \");"@))
        } else {
            tuple_format_lines(cs.drop_last())
        };
        before.push((1nat, format_helper_text(cs.last()) + "(v._"@ + decimal(i) + ", stream);"@))
    }
}

/// The equality and printing functions of the tuple type with element
/// types `cs`; a tuple of one element prints with a trailing comma.
pub open spec fn tuple_helper_lines(cs: Seq<Seq<char>>) -> Seq<(nat, Seq<char>)> {
    let name = tuple_name(cs);
    let s = suffix_text(name);
    seq![(0nat, "bool tuple_eq_"@ + s + "("@ + name + " a, "@ + name + " b) {"@)] + tuple_eq_lines(cs) + seq![
        (1nat, "return true;"@),
        (0nat, "}"@),
        (0nat, ""@),
        (0nat, "void format_"@ + name + "("@ + name + " v, FILE* stream) {"@),
        (1nat, "fprintf(stream, \"(\");"@),
    ] + tuple_format_lines(cs) + (if cs.len() == 1 {
        seq![(1nat, "fprintf(stream, \",\");"@)]
    } else {
        Seq::empty()
    }) + seq![(1nat, "fprintf(stream, \")\");"@), (0nat, "}"@), (0nat, ""@)]
}

/// The helper functions of each tuple type of `ks`, at level `n`.
pub open spec fn tuple_helper_blocks(ks: Seq<Seq<Seq<char>>>, n: nat) -> Seq<char>
    decreases ks.len(),
{
    if ks.len() == 0 {
        Seq::empty()
    } else {
        tuple_helper_blocks(ks.drop_last(), n) + lines_text(shifted(tuple_helper_lines(ks.last()), n))
    }
}

/// The prototypes of the helper functions of each tuple type of `ks`, at
/// level `n`.
pub open spec fn tuple_declaration_blocks(ks: Seq<Seq<Seq<char>>>, n: nat) -> Seq<char>
    decreases ks.len(),
{
    if ks.len() == 0 {
        Seq::empty()
    } else {
        let name = tuple_name(ks.last());
        tuple_declaration_blocks(ks.drop_last(), n) + line_at(
            n,
            "bool tuple_eq_"@ + suffix_text(name) + "("@ + name + " a, "@ + name + " b);"@,
        ) + line_at(n, "void format_"@ + name + "("@ + name + " v, FILE* stream);"@)
    }
}

/// The comparison of element `i`, of C type `c`, of two tuples.
fn tuple_eq_line_exec(c: &String, i: usize) -> (r: String)
    ensures
        r@ == tuple_eq_line(c@, i as nat),
{
    let mut n = String::new();
    push_decimal(&mut n, i as u64);
    if crate::c_names::same_text(c, "const char*") {
        let mut r = "if (strcmp(a._".to_owned();
        push_string(&mut r, &n);
        r.push_str(", b._");
        push_string(&mut r, &n);
        r.push_str(") != 0) return false;");
        r
    } else if crate::c_names::same_text(c, "int") || crate::c_names::same_text(c, "double")
        || crate::c_names::same_text(c, "bool") {
        let mut r = "if (a._".to_owned();
        push_string(&mut r, &n);
        r.push_str(" != b._");
        push_string(&mut r, &n);
        r.push_str(") return false;");
        r
    } else if is_tuple_c_type(c) {
        let mut r = "if (!tuple_eq_".to_owned();
        let s = UserTypeInstantiation::suffix(c.as_str());
        push_string(&mut r, &s);
        r.push_str("(a._");
        push_string(&mut r, &n);
        r.push_str(", b._");
        push_string(&mut r, &n);
        r.push_str(")) return false;");
        r
    } else {
        let mut r = "if (memcmp(&a._".to_owned();
        push_string(&mut r, &n);
        r.push_str(", &b._");
        push_string(&mut r, &n);
        r.push_str(", sizeof(a._");
        push_string(&mut r, &n);
        r.push_str(")) != 0) return false;");
        r
    }
}

/// The equality and printing functions of the tuple type with element
/// types `key`.
fn tuple_helper_exec(key: &Vec<String>) -> (r: Vec<(usize, String)>)
    ensures
        exec_lines_view(r@) == tuple_helper_lines(strings_view(key@)),
        forall|i: int| 0 <= i < r@.len() ==> #[trigger] r@[i].0 <= 3,
{
    let ghost cs = strings_view(key@);
    let name = tuple_c_type_name(key.as_slice());
    let s = UserTypeInstantiation::suffix(name.as_str());
    let mut lines: Vec<(usize, String)> = Vec::new();
    let mut h = "bool tuple_eq_".to_owned();
    push_string(&mut h, &s);
    h.push_str("(");
    push_string(&mut h, &name);
    h.push_str(" a, ");
    push_string(&mut h, &name);
    h.push_str(" b) {");
    add_line(&mut lines, 0, h);
    let ghost head = exec_lines_view(lines@);
    proof {
        assert(cs.take(0) =~= Seq::<Seq<char>>::empty());
    }
    let mut i: usize = 0;
    while i < key.len()
        invariant
            i <= key@.len(),
            cs == strings_view(key@),
            exec_lines_view(lines@) == head + tuple_eq_lines(cs.take(i as int)),
            forall|j: int| 0 <= j < lines@.len() ==> #[trigger] lines@[j].0 <= 3,
        decreases key@.len() - i,
    {
        let l = tuple_eq_line_exec(&key[i], i);
        add_line(&mut lines, 1, l);
        proof {
            let p = cs.take(i + 1);
            assert(p.drop_last() =~= cs.take(i as int));
            assert(p.last() == key@[i as int]@);
            assert(exec_lines_view(lines@) =~= head + tuple_eq_lines(p));
        }
        i = i + 1;
    }
    proof {
        assert(cs.take(i as int) =~= cs);
    }
    add_line(&mut lines, 1, "return true;".to_owned());
    add_line(&mut lines, 0, "}".to_owned());
    add_line(&mut lines, 0, "".to_owned());
    let mut f = "void format_".to_owned();
    push_string(&mut f, &name);
    f.push_str("(");
    push_string(&mut f, &name);
    f.push_str(" v, FILE* stream) {");
    add_line(&mut lines, 0, f);
    add_line(&mut lines, 1, "fprintf(stream, \"(\");".to_owned());
    let ghost middle = exec_lines_view(lines@);
    let mut k: usize = 0;
    while k < key.len()
        invariant
            k <= key@.len(),
            cs == strings_view(key@),
            exec_lines_view(lines@) == middle + tuple_format_lines(cs.take(k as int)),
            forall|j: int| 0 <= j < lines@.len() ==> #[trigger] lines@[j].0 <= 3,
        decreases key@.len() - k,
    {
        let ghost before = exec_lines_view(lines@);
        if k > 0 {
            add_line(&mut lines, 1, "fprintf(stream, \", \");".to_owned());
        }
        let mut l = format_helper_name(key[k].as_str());
        l.push_str("(v._");
        push_decimal(&mut l, k as u64);
        l.push_str(", stream);");
        add_line(&mut lines, 1, l);
        proof {
            let p = cs.take(k + 1);
            assert(p.drop_last() =~= cs.take(k as int));
            assert(p.last() == key@[k as int]@);
            assert(exec_lines_view(lines@) =~= middle + tuple_format_lines(p));
        }
        k = k + 1;
    }
    proof {
        assert(cs.take(k as int) =~= cs);
    }
    if key.len() == 1 {
        add_line(&mut lines, 1, "fprintf(stream, \",\");".to_owned());
    }
    add_line(&mut lines, 1, "fprintf(stream, \")\");".to_owned());
    add_line(&mut lines, 0, "}".to_owned());
    add_line(&mut lines, 0, "".to_owned());
    proof {
        assert(name@ == tuple_name(cs));
        assert(exec_lines_view(lines@) =~= tuple_helper_lines(cs));
    }
    lines
}

impl CodeGenerator {
    /// Declares, for each tuple instantiation in sorted order, its equality
    /// and printing functions, then a blank line if there was any.
    pub fn write_tuple_helper_declarations(&mut self)
        ensures
            final(self).text() == old(self).text() + tuple_declaration_blocks(
                old(self).instantiations(InstantiationKind::TupleType),
                old(self).level(),
            ) + (if old(self).instantiations(InstantiationKind::TupleType).len() > 0 {
                line_at(old(self).level(), Seq::empty())
            } else {
                Seq::empty()
            }),
            final(self).level() == old(self).level(),
            final(self).temps() == old(self).temps(),
            final(self).recorded() == old(self).recorded(),
            final(self).histories() == old(self).histories(),
            final(self).instantiations(InstantiationKind::TupleType) == old(self).instantiations(
                InstantiationKind::TupleType,
            ),
            final(self).wf() == old(self).wf(),
    {
        let keys = self.instantiation_keys(InstantiationKind::TupleType);
        let ghost ks = keys_view(keys@);
        let ghost n = old(self).level();
        let mut i: usize = 0;
        proof {
            assert(ks.take(0) =~= Seq::<Seq<Seq<char>>>::empty());
        }
        while i < keys.len()
            invariant
                i <= keys@.len(),
                ks == keys_view(keys@),
                ks == old(self).instantiations(InstantiationKind::TupleType),
                n == old(self).level(),
                self.text() == old(self).text() + tuple_declaration_blocks(ks.take(i as int), n),
                self.level() == n,
                self.temps() == old(self).temps(),
                self.recorded() == old(self).recorded(),
                self.histories() == old(self).histories(),
                self.instantiations(InstantiationKind::TupleType) == ks,
                self.wf() == old(self).wf(),
            decreases keys@.len() - i,
        {
            let name = tuple_c_type_name(keys[i].as_slice());
            let s = UserTypeInstantiation::suffix(name.as_str());
            let mut a = "bool tuple_eq_".to_owned();
            push_string(&mut a, &s);
            a.push_str("(");
            push_string(&mut a, &name);
            a.push_str(" a, ");
            push_string(&mut a, &name);
            a.push_str(" b);");
            let mut b = "void format_".to_owned();
            push_string(&mut b, &name);
            b.push_str("(");
            push_string(&mut b, &name);
            b.push_str(" v, FILE* stream);");
            let ghost before = self.text();
            self.write_line(a.as_str());
            self.write_line(b.as_str());
            proof {
                let p = ks.take(i + 1);
                assert(p.drop_last() =~= ks.take(i as int));
                assert(p.last() == ks[i as int]);
                assert(ks[i as int] == strings_view(keys@[i as int]@));
                assert(self.text() =~= old(self).text() + tuple_declaration_blocks(p, n));
            }
            i = i + 1;
        }
        proof {
            assert(ks.take(i as int) =~= ks);
        }
        if keys.len() > 0 {
            self.write_line("");
            proof {
                reveal_strlit("");
            }
        }
    }

    /// Defines, for each tuple instantiation in sorted order, its equality
    /// and printing functions.
    pub fn write_tuple_helpers(&mut self)
        requires
            old(self).level() + 3 <= usize::MAX,
        ensures
            final(self).text() == old(self).text() + tuple_helper_blocks(
                old(self).instantiations(InstantiationKind::TupleType),
                old(self).level(),
            ),
            final(self).level() == old(self).level(),
            final(self).temps() == old(self).temps(),
            final(self).recorded() == old(self).recorded(),
            final(self).histories() == old(self).histories(),
            final(self).instantiations(InstantiationKind::TupleType) == old(self).instantiations(
                InstantiationKind::TupleType,
            ),
            final(self).wf() == old(self).wf(),
    {
        let keys = self.instantiation_keys(InstantiationKind::TupleType);
        let ghost ks = keys_view(keys@);
        let ghost n = old(self).level();
        let mut i: usize = 0;
        proof {
            assert(ks.take(0) =~= Seq::<Seq<Seq<char>>>::empty());
        }
        while i < keys.len()
            invariant
                i <= keys@.len(),
                ks == keys_view(keys@),
                ks == old(self).instantiations(InstantiationKind::TupleType),
                n == old(self).level(),
                n + 3 <= usize::MAX,
                self.text() == old(self).text() + tuple_helper_blocks(ks.take(i as int), n),
                self.level() == n,
                self.temps() == old(self).temps(),
                self.recorded() == old(self).recorded(),
                self.histories() == old(self).histories(),
                self.instantiations(InstantiationKind::TupleType) == ks,
                self.wf() == old(self).wf(),
            decreases keys@.len() - i,
        {
            let lines = tuple_helper_exec(&keys[i]);
            self.write_lines(&lines);
            proof {
                let p = ks.take(i + 1);
                assert(p.drop_last() =~= ks.take(i as int));
                assert(p.last() == ks[i as int]);
                assert(ks[i as int] == strings_view(keys@[i as int]@));
            }
            i = i + 1;
        }
        proof {
            assert(ks.take(i as int) =~= ks);
        }
    }
}

} // verus!

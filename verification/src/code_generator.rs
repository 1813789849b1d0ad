use vstd::prelude::*;
use crate::c_names::{c_type_text, c_type_texts, mangle, same_text, strings_view, suffix_text, UserTypeInstantiation};
use crate::sorted_keys::{insert_key, keys_view, sorted_keys};
use crate::declarations::{Declarations, EnumView, StructView};
use crate::text::push_decimal;
use crate::types::{lemma_types_view_index, types_view, TypeExpr, TypeView};

verus! {

/// Four spaces for each level of indentation.
pub open spec fn indentation(n: nat) -> Seq<char>
    decreases n,
{
    if n == 0 {
        Seq::empty()
    } else {
        indentation((n - 1) as nat) + seq![' ', ' ', ' ', ' ']
    }
}

/// A line of text at indentation level `n`, with its newline.
pub open spec fn line_at(n: nat, text: Seq<char>) -> Seq<char> {
    indentation(n) + text + seq!['\n']
}

/// Appends the indentation for level `n` to `s`.
fn push_indentation(s: &mut String, n: usize)
    ensures
        final(s)@ == old(s)@ + indentation(n as nat),
{
    proof {
        reveal_strlit("    ");
    }
    let ghost s0 = s@;
    let mut i: usize = 0;
    while i < n
        invariant
            i <= n,
            s@ == s0 + indentation(i as nat),
        decreases n - i,
    {
        s.push_str("    ");
        proof {
            reveal_strlit("    ");
            assert(s@ =~= s0 + indentation((i + 1) as nat));
        }
        i = i + 1;
    }
}

/// The types the generated C program must define for each instantiation
/// of a generic built-in or user type.
pub enum InstantiationKind {
    ArrayType,
    MapType,
    RangeType,
    TupleType,
    UserType,
}

/// The instantiations the C representation of `t` needs: for each array,
/// map, range, tuple and instantiated user type in it, its kind and the C
/// types it is instantiated at (a user type's name first).
pub open spec fn needed(t: TypeView) -> Set<(InstantiationKind, Seq<Seq<char>>)>
    decreases t,
{
    match t {
        TypeView::Named { identifier, type_arguments, .. } => {
            let name = identifier.lexeme;
            if name == "Int"@ || name == "Double"@ || name == "String"@ || name == "Bool"@ || name == "Void"@ {
                Set::empty()
            } else if name == "Array"@ && type_arguments.len() == 1 {
                needed(type_arguments[0]).insert((InstantiationKind::ArrayType, seq![c_type_text(type_arguments[0])]))
            } else if name == "Map"@ && type_arguments.len() == 2 {
                needed(type_arguments[0]).union(needed(type_arguments[1])).insert(
                    (InstantiationKind::MapType, seq![c_type_text(type_arguments[0]), c_type_text(type_arguments[1])]),
                )
            } else if (name == "Range"@ || name == "InclusiveRange"@) && type_arguments.len() == 1 {
                needed(type_arguments[0]).insert((InstantiationKind::RangeType, seq![c_type_text(type_arguments[0])]))
            } else if type_arguments.len() == 0 {
                Set::empty()
            } else {
                needed_all(type_arguments).insert(
                    (InstantiationKind::UserType, seq![name] + c_type_texts(type_arguments)),
                )
            }
        },
        TypeView::Function { .. } => Set::empty(),
        TypeView::Tuple { element_types } => needed_all(element_types).insert(
            (InstantiationKind::TupleType, c_type_texts(element_types)),
        ),
        TypeView::TypeVar { .. } => Set::empty(),
    }
}

pub open spec fn needed_all(ts: Seq<TypeView>) -> Set<(InstantiationKind, Seq<Seq<char>>)>
    decreases ts,
{
    if ts.len() == 0 {
        Set::empty()
    } else {
        needed_all(ts.drop_last()).union(needed(ts.last()))
    }
}

/// Every key holds `n` C types.
pub open spec fn all_of_length(ks: Seq<Seq<Seq<char>>>, n: nat) -> bool {
    forall|k: Seq<Seq<char>>| #[trigger] ks.contains(k) ==> k.len() == n
}

/// Every key holds at least `n` C types.
pub open spec fn all_at_least(ks: Seq<Seq<Seq<char>>>, n: nat) -> bool {
    forall|k: Seq<Seq<char>>| #[trigger] ks.contains(k) ==> k.len() >= n
}

/// Writes C source: lines at an indentation level, and the instantiations
/// of generic types the program needs, each kind kept sorted and without
/// duplicates.
pub struct CodeGenerator {
    output: String,
    indent_level: usize,
    temp_id_counter: usize,
    array_instantiations: Vec<Vec<String>>,
    range_instantiations: Vec<Vec<String>>,
    map_instantiations: Vec<Vec<String>>,
    tuple_instantiations: Vec<Vec<String>>,
    user_type_instantiations: Vec<Vec<String>>,
    history_instantiations: Vec<Vec<String>>,
    declarations: Declarations,
}

impl CodeGenerator {
    /// The text written so far.
    pub closed spec fn text(&self) -> Seq<char> {
        self.output@
    }

    /// The current indentation level.
    pub closed spec fn level(&self) -> nat {
        self.indent_level as nat
    }

    /// The number of temporary names issued so far.
    pub closed spec fn temps(&self) -> nat {
        self.temp_id_counter as nat
    }

    /// The instantiations recorded so far.
    pub closed spec fn recorded(&self) -> Set<(InstantiationKind, Seq<Seq<char>>)> {
        Set::new(
            |p: (InstantiationKind, Seq<Seq<char>>)|
                match p.0 {
                    InstantiationKind::ArrayType => keys_view(self.array_instantiations@).contains(p.1),
                    InstantiationKind::MapType => keys_view(self.map_instantiations@).contains(p.1),
                    InstantiationKind::RangeType => keys_view(self.range_instantiations@).contains(p.1),
                    InstantiationKind::TupleType => keys_view(self.tuple_instantiations@).contains(p.1),
                    InstantiationKind::UserType => keys_view(self.user_type_instantiations@).contains(p.1),
                },
        )
    }

    /// The C types whose histories the program keeps, sorted.
    pub closed spec fn histories(&self) -> Seq<Seq<Seq<char>>> {
        keys_view(self.history_instantiations@)
    }

    /// The recorded instantiations of kind `kind`, in sorted order.
    pub closed spec fn instantiations(&self, kind: InstantiationKind) -> Seq<Seq<Seq<char>>> {
        match kind {
            InstantiationKind::ArrayType => keys_view(self.array_instantiations@),
            InstantiationKind::MapType => keys_view(self.map_instantiations@),
            InstantiationKind::RangeType => keys_view(self.range_instantiations@),
            InstantiationKind::TupleType => keys_view(self.tuple_instantiations@),
            InstantiationKind::UserType => keys_view(self.user_type_instantiations@),
        }
    }

    /// Each kind of instantiation is kept sorted, without duplicates; an
    /// array, range or history is instantiated at one C type, a map at two,
    /// and a user type, named first, at one or more.
    pub closed spec fn wf(&self) -> bool {
        &&& all_of_length(keys_view(self.array_instantiations@), 1)
        &&& all_of_length(keys_view(self.range_instantiations@), 1)
        &&& all_of_length(keys_view(self.map_instantiations@), 2)
        &&& all_of_length(keys_view(self.history_instantiations@), 1)
        &&& all_at_least(keys_view(self.user_type_instantiations@), 2)
        &&& sorted_keys(keys_view(self.array_instantiations@))
        &&& sorted_keys(keys_view(self.map_instantiations@))
        &&& sorted_keys(keys_view(self.range_instantiations@))
        &&& sorted_keys(keys_view(self.tuple_instantiations@))
        &&& sorted_keys(keys_view(self.user_type_instantiations@))
        &&& sorted_keys(keys_view(self.history_instantiations@))
    }

    /// The structs, enums and functions the program declares.
    pub closed spec fn declared(&self) -> Declarations {
        self.declarations
    }

    /// An empty program at level 0, with nothing recorded.
    pub fn new() -> (r: Self)
        ensures
            r.wf(),
            r.text() == Seq::<char>::empty(),
            r.level() == 0,
            r.temps() == 0,
            r.recorded() == Set::<(InstantiationKind, Seq<Seq<char>>)>::empty(),
            r.histories() == Seq::<Seq<Seq<char>>>::empty(),
            r.declared().structs() == Map::<Seq<char>, StructView>::empty(),
            r.declared().enums() == Map::<Seq<char>, EnumView>::empty(),
            r.declared().functions() == Set::<Seq<char>>::empty(),
    {
        let r = CodeGenerator {
            output: String::new(),
            indent_level: 0,
            temp_id_counter: 0,
            array_instantiations: Vec::new(),
            range_instantiations: Vec::new(),
            map_instantiations: Vec::new(),
            tuple_instantiations: Vec::new(),
            user_type_instantiations: Vec::new(),
            history_instantiations: Vec::new(),
            declarations: Declarations::new(),
        };
        proof {
            assert(r.recorded() =~= Set::<(InstantiationKind, Seq<Seq<char>>)>::empty());
            assert(r.histories() =~= Seq::<Seq<Seq<char>>>::empty());
        }
        r
    }

    /// The structs, enums and functions the program declares.
    pub fn declarations(&self) -> (r: &Declarations)
        ensures
            *r == self.declared(),
    {
        &self.declarations
    }

    /// What a well-formed generator's instantiations are made at: arrays
    /// and ranges one C type, maps two, user types a name and one or more.
    pub proof fn lemma_wf_lengths(&self)
        requires
            self.wf(),
        ensures
            all_of_length(self.instantiations(InstantiationKind::ArrayType), 1),
            all_of_length(self.instantiations(InstantiationKind::RangeType), 1),
            all_of_length(self.instantiations(InstantiationKind::MapType), 2),
            all_at_least(self.instantiations(InstantiationKind::UserType), 2),
    {
    }

    /// Takes out the declarations, leaving none.
    pub(crate) fn take_declarations(&mut self) -> (r: Declarations)
        ensures
            r == old(self).declared(),
            final(self).text() == old(self).text(),
            final(self).level() == old(self).level(),
            final(self).temps() == old(self).temps(),
            final(self).recorded() == old(self).recorded(),
            final(self).histories() == old(self).histories(),
            forall|k: InstantiationKind| #[trigger] final(self).instantiations(k) == old(self).instantiations(k),
            final(self).wf() == old(self).wf(),
    {
        let mut d = Declarations::new();
        core::mem::swap(&mut d, &mut self.declarations);
        d
    }

    /// Puts back declarations taken out.
    pub(crate) fn restore_declarations(&mut self, d: Declarations)
        ensures
            final(self).declared() == d,
            final(self).text() == old(self).text(),
            final(self).level() == old(self).level(),
            final(self).temps() == old(self).temps(),
            final(self).recorded() == old(self).recorded(),
            final(self).histories() == old(self).histories(),
            forall|k: InstantiationKind| #[trigger] final(self).instantiations(k) == old(self).instantiations(k),
            final(self).wf() == old(self).wf(),
    {
        self.declarations = d;
    }

    /// Keeps the name of a declared function.
    pub(crate) fn declare_function(&mut self, name: String)
        ensures
            final(self).declared().functions() == old(self).declared().functions().insert(name@),
            final(self).declared().structs() == old(self).declared().structs(),
            final(self).declared().enums() == old(self).declared().enums(),
            final(self).text() == old(self).text(),
            final(self).level() == old(self).level(),
            final(self).temps() == old(self).temps(),
            final(self).recorded() == old(self).recorded(),
            final(self).histories() == old(self).histories(),
            forall|k: InstantiationKind| #[trigger] final(self).instantiations(k) == old(self).instantiations(k),
            final(self).wf() == old(self).wf(),
    {
        self.declarations.add_function(name);
    }

    /// The text written so far.
    pub fn output(&self) -> (r: &String)
        ensures
            r@ == self.text(),
    {
        &self.output
    }

    /// Writes `line` at the current indentation, with a newline.
    pub fn write_line(&mut self, line: &str)
        ensures
            final(self).text() == old(self).text() + line_at(old(self).level(), line@),
            final(self).level() == old(self).level(),
            final(self).temps() == old(self).temps(),
            final(self).recorded() == old(self).recorded(),
            final(self).histories() == old(self).histories(),
            forall|k: InstantiationKind| #[trigger] final(self).instantiations(k) == old(self).instantiations(k),
            final(self).wf() == old(self).wf(),
    {
        push_indentation(&mut self.output, self.indent_level);
        self.output.push_str(line);
        self.output.push('\n');
        proof {
            assert(self.output@ =~= old(self).output@ + line_at(old(self).level(), line@));
        }
    }

    /// One level deeper.
    pub fn indent(&mut self)
        requires
            old(self).level() < usize::MAX,
        ensures
            final(self).level() == old(self).level() + 1,
            final(self).text() == old(self).text(),
            final(self).temps() == old(self).temps(),
            final(self).recorded() == old(self).recorded(),
            final(self).histories() == old(self).histories(),
            final(self).wf() == old(self).wf(),
    {
        self.indent_level = self.indent_level + 1;
    }

    /// One level shallower, staying at level 0 there.
    pub fn un_indent(&mut self)
        ensures
            final(self).level() == if old(self).level() == 0 {
                0
            } else {
                (old(self).level() - 1) as nat
            },
            final(self).text() == old(self).text(),
            final(self).temps() == old(self).temps(),
            final(self).recorded() == old(self).recorded(),
            final(self).histories() == old(self).histories(),
            final(self).wf() == old(self).wf(),
    {
        self.indent_level = self.indent_level.saturating_sub(1);
    }

    /// A fresh temporary name: `__`, the prefix and the number of names
    /// issued before.
    pub fn new_temp_id(&mut self, prefix: &str) -> (r: String)
        requires
            old(self).temps() < usize::MAX,
        ensures
            r@ == "__"@ + prefix@ + crate::text::decimal(old(self).temps()),
            final(self).temps() == old(self).temps() + 1,
            final(self).text() == old(self).text(),
            final(self).level() == old(self).level(),
            final(self).recorded() == old(self).recorded(),
            final(self).histories() == old(self).histories(),
            final(self).wf() == old(self).wf(),
    {
        let id = self.temp_id_counter;
        self.temp_id_counter = self.temp_id_counter + 1;
        let mut s = "__".to_owned();
        s.push_str(prefix);
        push_decimal(&mut s, id as u64);
        s
    }

    /// Adds to `out` the line `text` at indentation level `indent`.
    pub fn write_indented_to(&self, out: &mut Vec<String>, indent: usize, text: String)
        ensures
            final(out)@.len() == old(out)@.len() + 1,
            final(out)@.take(old(out)@.len() as int) == old(out)@,
            final(out)@.last()@ == indentation(indent as nat) + text@,
    {
        let mut line = String::new();
        push_indentation(&mut line, indent);
        crate::text::push_string(&mut line, &text);
        out.push(line);
        proof {
            assert(out@.take(old(out)@.len() as int) =~= old(out)@);
        }
    }
}

} // verus!

verus! {

/// A copy of a list of strings.
fn copy_strings(v: &Vec<String>) -> (r: Vec<String>)
    ensures
        strings_view(r@) == strings_view(v@),
{
    let mut r: Vec<String> = Vec::new();
    let mut i: usize = 0;
    while i < v.len()
        invariant
            i <= v@.len(),
            strings_view(r@) == strings_view(v@).take(i as int),
        decreases v@.len() - i,
    {
        let c = v[i].clone();
        let ghost before = r@;
        r.push(c);
        proof {
            assert(strings_view(r@) =~= strings_view(before).push(v@[i as int]@));
            assert(strings_view(v@).take(i + 1) =~= strings_view(v@).take(i as int).push(v@[i as int]@));
        }
        i = i + 1;
    }
    proof {
        assert(strings_view(v@).take(i as int) =~= strings_view(v@));
    }
    r
}

impl CodeGenerator {
    /// Records an instantiation of kind `kind` at the C types `key`.
    fn record(&mut self, kind: InstantiationKind, key: Vec<String>)
        requires
            old(self).wf(),
            kind is ArrayType || kind is RangeType ==> key@.len() == 1,
            kind is MapType ==> key@.len() == 2,
            kind is UserType ==> key@.len() >= 2,
        ensures
            final(self).wf(),
            final(self).recorded() == old(self).recorded().insert((kind, strings_view(key@))),
            final(self).text() == old(self).text(),
            final(self).level() == old(self).level(),
            final(self).temps() == old(self).temps(),
            final(self).histories() == old(self).histories(),
    {
        let ghost k = strings_view(key@);
        match kind {
            InstantiationKind::ArrayType => insert_key(&mut self.array_instantiations, key),
            InstantiationKind::MapType => insert_key(&mut self.map_instantiations, key),
            InstantiationKind::RangeType => insert_key(&mut self.range_instantiations, key),
            InstantiationKind::TupleType => insert_key(&mut self.tuple_instantiations, key),
            InstantiationKind::UserType => insert_key(&mut self.user_type_instantiations, key),
        }
        proof {
            assert(self.recorded() =~= old(self).recorded().insert((kind, k)));
        }
    }

    /// Records that the program keeps the history of values of C type
    /// `c_type`.
    fn record_history(&mut self, c_type: String)
        requires
            old(self).wf(),
        ensures
            final(self).wf(),
            forall|k: Seq<Seq<char>>| #[trigger] final(self).histories().contains(k) <==> old(self).histories().contains(
                k,
            ) || k == seq![c_type@],
            final(self).recorded() == old(self).recorded(),
            final(self).text() == old(self).text(),
            final(self).level() == old(self).level(),
            final(self).temps() == old(self).temps(),
    {
        let ghost c = c_type@;
        let mut key: Vec<String> = Vec::new();
        key.push(c_type);
        proof {
            assert(strings_view(key@) =~= seq![c]);
        }
        insert_key(&mut self.history_instantiations, key);
        proof {
            assert(self.recorded() =~= old(self).recorded());
        }
    }

    /// The C type by which values of type `t` are represented; every
    /// instantiation it needs is recorded.
    pub fn map_type(&mut self, t: &TypeExpr) -> (r: String)
        requires
            old(self).wf(),
        ensures
            r@ == c_type_text(t@),
            final(self).wf(),
            final(self).recorded() == old(self).recorded().union(needed(t@)),
            final(self).text() == old(self).text(),
            final(self).level() == old(self).level(),
            final(self).temps() == old(self).temps(),
            final(self).histories() == old(self).histories(),
        decreases t,
    {
        match t {
            TypeExpr::Named { identifier, type_arguments, .. } => {
                proof {
                    lemma_types_view_index(type_arguments@);
                }
                let name = &identifier.lexeme;
                if same_text(name, "Int") {
                    proof {
                        assert(needed(t@) =~= Set::empty());
                        assert(self.recorded().union(needed(t@)) =~= self.recorded());
                    }
                    "int".to_owned()
                } else if same_text(name, "Double") {
                    proof {
                        assert(needed(t@) =~= Set::empty());
                        assert(self.recorded().union(needed(t@)) =~= self.recorded());
                    }
                    "double".to_owned()
                } else if same_text(name, "String") {
                    proof {
                        assert(needed(t@) =~= Set::empty());
                        assert(self.recorded().union(needed(t@)) =~= self.recorded());
                    }
                    "const char*".to_owned()
                } else if same_text(name, "Bool") {
                    proof {
                        assert(needed(t@) =~= Set::empty());
                        assert(self.recorded().union(needed(t@)) =~= self.recorded());
                    }
                    "bool".to_owned()
                } else if same_text(name, "Void") {
                    proof {
                        assert(needed(t@) =~= Set::empty());
                        assert(self.recorded().union(needed(t@)) =~= self.recorded());
                    }
                    "void".to_owned()
                } else if same_text(name, "Array") && type_arguments.len() == 1 {
                    let element = self.map_type(&type_arguments[0]);
                    let mut s = "Array_".to_owned();
                    crate::text::push_string(&mut s, &UserTypeInstantiation::suffix(element.as_str()));
                    let mut key: Vec<String> = Vec::new();
                    key.push(element);
                    proof {
                        assert(strings_view(key@) =~= seq![c_type_text(type_arguments@[0]@)]);
                    }
                    self.record(InstantiationKind::ArrayType, key);
                    proof {
                        assert(self.recorded() =~= old(self).recorded().union(needed(t@)));
                    }
                    s
                } else if same_text(name, "Map") && type_arguments.len() == 2 {
                    let key_c_type = self.map_type(&type_arguments[0]);
                    let value_c_type = self.map_type(&type_arguments[1]);
                    let mut s = "Map_".to_owned();
                    crate::text::push_string(&mut s, &UserTypeInstantiation::suffix(key_c_type.as_str()));
                    s.push_str("_");
                    crate::text::push_string(&mut s, &UserTypeInstantiation::suffix(value_c_type.as_str()));
                    let mut key: Vec<String> = Vec::new();
                    key.push(key_c_type);
                    key.push(value_c_type);
                    proof {
                        assert(strings_view(key@) =~= seq![
                            c_type_text(type_arguments@[0]@),
                            c_type_text(type_arguments@[1]@),
                        ]);
                    }
                    self.record(InstantiationKind::MapType, key);
                    proof {
                        assert(self.recorded() =~= old(self).recorded().union(needed(t@)));
                    }
                    s
                } else if (same_text(name, "Range") || same_text(name, "InclusiveRange")) && type_arguments.len() == 1 {
                    let bound = self.map_type(&type_arguments[0]);
                    let mut s = "Range_".to_owned();
                    crate::text::push_string(&mut s, &UserTypeInstantiation::suffix(bound.as_str()));
                    let mut key: Vec<String> = Vec::new();
                    key.push(bound);
                    proof {
                        assert(strings_view(key@) =~= seq![c_type_text(type_arguments@[0]@)]);
                    }
                    self.record(InstantiationKind::RangeType, key);
                    proof {
                        assert(self.recorded() =~= old(self).recorded().union(needed(t@)));
                    }
                    s
                } else if type_arguments.len() == 0 {
                    proof {
                        assert(needed(t@) =~= Set::empty());
                        assert(self.recorded().union(needed(t@)) =~= self.recorded());
                    }
                    mangle(name.as_str())
                } else {
                    let argument_c_types = self.map_types(type_arguments);
                    let instantiation = UserTypeInstantiation {
                        identifier: name.clone(),
                        argument_c_types: copy_strings(&argument_c_types),
                    };
                    let c_identifier = instantiation.c_identifier();
                    let mut key: Vec<String> = Vec::new();
                    key.push(name.clone());
                    let mut i: usize = 0;
                    while i < argument_c_types.len()
                        invariant
                            i <= argument_c_types@.len(),
                            strings_view(key@) == seq![name@] + strings_view(argument_c_types@).take(i as int),
                        decreases argument_c_types@.len() - i,
                    {
                        let c = argument_c_types[i].clone();
                        let ghost before = key@;
                        key.push(c);
                        proof {
                            assert(strings_view(key@) =~= strings_view(before).push(argument_c_types@[i as int]@));
                            assert(strings_view(argument_c_types@).take(i + 1) =~= strings_view(argument_c_types@).take(
                                i as int,
                            ).push(argument_c_types@[i as int]@));
                            assert(strings_view(key@) =~= seq![name@] + strings_view(argument_c_types@).take(i + 1));
                        }
                        i = i + 1;
                    }
                    proof {
                        assert(strings_view(argument_c_types@).take(i as int) =~= strings_view(argument_c_types@));
                    }
                    self.record(InstantiationKind::UserType, key);
                    proof {
                        assert(self.recorded() =~= old(self).recorded().union(needed(t@)));
                    }
                    c_identifier
                }
            },
            TypeExpr::Function { .. } => {
                proof {
                    assert(needed(t@) =~= Set::empty());
                    assert(self.recorded().union(needed(t@)) =~= self.recorded());
                }
                "Fn".to_owned()
            },
            TypeExpr::Tuple { element_types } => {
                let element_c_types = self.map_types(element_types);
                let name = crate::c_names::tuple_c_type_name(element_c_types.as_slice());
                self.record(InstantiationKind::TupleType, element_c_types);
                proof {
                    assert(self.recorded() =~= old(self).recorded().union(needed(t@)));
                }
                name
            },
            TypeExpr::TypeVar { .. } => {
                proof {
                    assert(needed(t@) =~= Set::empty());
                    assert(self.recorded().union(needed(t@)) =~= self.recorded());
                }
                "void*".to_owned()
            },
        }
    }

    /// The C types of a list of types, each instantiation they need
    /// recorded.
    fn map_types(&mut self, ts: &Vec<TypeExpr>) -> (r: Vec<String>)
        requires
            old(self).wf(),
        ensures
            strings_view(r@) == c_type_texts(types_view(ts@)),
            final(self).wf(),
            final(self).recorded() == old(self).recorded().union(needed_all(types_view(ts@))),
            final(self).text() == old(self).text(),
            final(self).level() == old(self).level(),
            final(self).temps() == old(self).temps(),
            final(self).histories() == old(self).histories(),
        decreases ts,
    {
        let ghost xs = types_view(ts@);
        proof {
            lemma_types_view_index(ts@);
            assert(xs.take(0) =~= Seq::<TypeView>::empty());
            assert(strings_view(Seq::<String>::empty()) =~= Seq::<Seq<char>>::empty());
            assert(self.recorded().union(needed_all(xs.take(0))) =~= self.recorded());
        }
        let mut r: Vec<String> = Vec::new();
        let mut i: usize = 0;
        while i < ts.len()
            invariant
                i <= ts@.len(),
                xs == types_view(ts@),
                xs.len() == ts@.len(),
                forall|j: int| 0 <= j < ts@.len() ==> #[trigger] xs[j] == ts@[j]@,
                r@.len() == i,
                strings_view(r@) == c_type_texts(xs.take(i as int)),
                self.wf(),
                self.recorded() == old(self).recorded().union(needed_all(xs.take(i as int))),
                self.text() == old(self).text(),
                self.level() == old(self).level(),
                self.temps() == old(self).temps(),
                self.histories() == old(self).histories(),
            decreases ts@.len() - i,
        {
            let name = self.map_type(&ts[i]);
            let ghost before = r@;
            let ghost name_view = name@;
            r.push(name);
            proof {
                let p = xs.take(i + 1);
                assert(p.drop_last() =~= xs.take(i as int));
                assert(p.last() == xs[i as int]);
                assert(strings_view(r@) =~= strings_view(before).push(name_view));
                assert(self.recorded() =~= old(self).recorded().union(needed_all(p)));
            }
            i = i + 1;
        }
        proof {
            assert(xs.take(i as int) =~= xs);
        }
        r
    }
}

} // verus!

verus! {

/// The substitution an instantiated enum type makes for the payloads of
/// its variants: each type parameter that is a type variable is mapped to
/// the type argument at its position, a later parameter winning.
pub open spec fn parameter_mapping(params: Seq<TypeView>, args: Seq<TypeView>) -> Map<usize, TypeView>
    decreases params.len(),
{
    if params.len() == 0 || args.len() == 0 {
        Map::empty()
    } else {
        let n = if params.len() < args.len() { params.len() } else { args.len() };
        let rest = parameter_mapping(params.take(n - 1), args.take(n - 1));
        match params[n - 1] {
            TypeView::TypeVar { id } => rest.insert(id, args[n - 1]),
            _ => rest,
        }
    }
}

/// The payload types of `variant`, as the instantiated enum `subject` has
/// them.
pub open spec fn instantiated_payloads(subject: TypeView, payloads: Seq<TypeView>) -> Seq<TypeView> {
    match subject {
        TypeView::Named { type_parameters: Some(params), type_arguments, .. } => crate::type_ops::substituted_vars_seq(
            payloads,
            parameter_mapping(params, type_arguments),
        ),
        _ => payloads,
    }
}

/// How a pattern on a value of a primitive type is lowered: it matches
/// every value, binding it to a C variable of a C type or not, or it
/// matches when a C condition holds.
pub enum PrimitivePatternType {
    CatchAll { binding: Option<(String, String)> },
    Conditional { condition: String },
}

/// The C condition under which a string or other primitive subject lies
/// in a range.
pub open spec fn range_condition(subject: Seq<char>, start: Seq<char>, end: Seq<char>, is_inclusive: bool, strings: bool) -> Seq<
    char,
> {
    if strings {
        "strcmp("@ + subject + ", "@ + start + ") >= 0 && strcmp("@ + subject + ", "@ + end + (if is_inclusive {
            ") <= 0"@
        } else {
            ") < 0"@
        })
    } else {
        subject + " >= "@ + start + " && "@ + subject + (if is_inclusive {
            " <= "@
        } else {
            " < "@
        }) + end
    }
}

/// The first variant of `vs` named `name` that carries no payload.
pub open spec fn first_zero_ary(vs: Seq<crate::types::VariantView>, name: Seq<char>) -> Option<crate::types::VariantView>
    decreases vs.len(),
{
    if vs.len() == 0 {
        None
    } else if vs[0].identifier.lexeme == name && vs[0].payload_types.len() == 0 {
        Some(vs[0])
    } else {
        first_zero_ary(vs.skip(1), name)
    }
}

/// The zero-argument variant of the enum `subject` that `pattern` names
/// (a variant pattern without arguments, or a bare name), if any.
pub open spec fn zero_ary_variant(subject: TypeView, pattern: crate::ast::Pattern) -> Option<crate::types::VariantView> {
    let name = match pattern {
        crate::ast::Pattern::EnumVariant { identifier, arguments } => if arguments@.len() == 0 {
            Some(identifier.lexeme@)
        } else {
            None
        },
        crate::ast::Pattern::Variable(identifier) => Some(identifier.lexeme@),
        _ => None,
    };
    match (name, subject) {
        (Some(n), TypeView::Named { enum_variants: Some(vs), .. }) => first_zero_ary(vs, n),
        _ => None,
    }
}

/// The value of an enum variant.
pub open spec fn variant_view(v: crate::types::EnumVariant) -> crate::types::VariantView {
    crate::types::VariantView { identifier: v.identifier@, payload_types: types_view(v.payload_types@) }
}

impl CodeGenerator {
    /// `variant` with its payload types as the instantiated enum type
    /// `subject_type` has them.
    pub fn instantiate_enum_variant_payloads(&self, subject_type: &TypeExpr, variant: &crate::types::EnumVariant) -> (r:
        crate::types::EnumVariant)
        ensures
            r.identifier@ == variant.identifier@,
            types_view(r.payload_types@) == instantiated_payloads(subject_type@, types_view(variant.payload_types@)),
    {
        match subject_type {
            TypeExpr::Named { type_parameters: Some(parameters), type_arguments, .. } => {
                proof {
                    lemma_types_view_index(parameters@);
                    lemma_types_view_index(type_arguments@);
                    lemma_types_view_index(variant.payload_types@);
                }
                let ghost ps = types_view(parameters@);
                let ghost args = types_view(type_arguments@);
                let mut mapping: std::collections::HashMap<usize, TypeExpr> = std::collections::HashMap::new();
                let mut j: usize = 0;
                proof {
                    assert(crate::type_ops::subs_view(mapping@) =~= parameter_mapping(ps.take(0), args.take(0)));
                }
                while j < parameters.len() && j < type_arguments.len()
                    invariant
                        j <= parameters@.len(),
                        j <= type_arguments@.len(),
                        ps == types_view(parameters@),
                        args == types_view(type_arguments@),
                        ps.len() == parameters@.len(),
                        args.len() == type_arguments@.len(),
                        forall|k: int| 0 <= k < parameters@.len() ==> #[trigger] ps[k] == parameters@[k]@,
                        forall|k: int| 0 <= k < type_arguments@.len() ==> #[trigger] args[k] == type_arguments@[k]@,
                        crate::type_ops::subs_view(mapping@) == parameter_mapping(ps.take(j as int), args.take(j as int)),
                    decreases parameters@.len() - j,
                {
                    let ghost before = mapping@;
                    if let TypeExpr::TypeVar { id } = &parameters[j] {
                        mapping.insert(*id, crate::types::copy_type(&type_arguments[j]));
                    }
                    proof {
                        let p2 = ps.take(j + 1);
                        let a2 = args.take(j + 1);
                        assert(p2.take(j as int) =~= ps.take(j as int));
                        assert(a2.take(j as int) =~= args.take(j as int));
                        assert(crate::type_ops::subs_view(mapping@) =~= parameter_mapping(p2, a2));
                    }
                    j = j + 1;
                }
                proof {
                    let n = if ps.len() < args.len() { ps.len() } else { args.len() };
                    assert(j == n);
                    lemma_mapping_prefix(ps, args);
                }
                let mut payloads: Vec<TypeExpr> = Vec::new();
                let mut k: usize = 0;
                let ghost xs = types_view(variant.payload_types@);
                proof {
                    assert(xs.take(0) =~= Seq::<TypeView>::empty());
                }
                while k < variant.payload_types.len()
                    invariant
                        k <= variant.payload_types@.len(),
                        xs == types_view(variant.payload_types@),
                        xs.len() == variant.payload_types@.len(),
                        forall|m: int| 0 <= m < variant.payload_types@.len() ==> #[trigger] xs[m] == variant.payload_types@[m]@,
                        types_view(payloads@) == crate::type_ops::substituted_vars_seq(
                            xs.take(k as int),
                            crate::type_ops::subs_view(mapping@),
                        ),
                    decreases variant.payload_types@.len() - k,
                {
                    let t = crate::type_ops::substitute_typevars(&variant.payload_types[k], &mapping);
                    let ghost before = payloads@;
                    payloads.push(t);
                    proof {
                        let p = xs.take(k + 1);
                        assert(p.drop_last() =~= xs.take(k as int));
                        assert(payloads@.drop_last() =~= before);
                    }
                    k = k + 1;
                }
                proof {
                    assert(xs.take(k as int) =~= xs);
                }
                crate::types::EnumVariant { identifier: variant.identifier.clone(), payload_types: payloads }
            },
            _ => crate::types::EnumVariant {
                identifier: variant.identifier.clone(),
                payload_types: crate::types::copy_types(&variant.payload_types),
            },
        }
    }
}

proof fn lemma_mapping_prefix(ps: Seq<TypeView>, args: Seq<TypeView>)
    ensures
        parameter_mapping(ps, args) == parameter_mapping(
            ps.take(if ps.len() < args.len() { ps.len() as int } else { args.len() as int }),
            args.take(if ps.len() < args.len() { ps.len() as int } else { args.len() as int }),
        ),
{
    let n = if ps.len() < args.len() { ps.len() as int } else { args.len() as int };
    let p2 = ps.take(n);
    let a2 = args.take(n);
    if n > 0 {
        assert(p2.take(n - 1) =~= ps.take(n - 1));
        assert(a2.take(n - 1) =~= args.take(n - 1));
    }
}

} // verus!

verus! {

/// The description of the patterns a primitive subject can be matched
/// with, as an unexpected pattern reports it.
pub open spec fn primitive_pattern_text() -> Seq<char> {
    "primitive match pattern (literal, range, wildcard, or variable)"@
}

impl CodeGenerator {
    /// The variant of the enum `subject_type` that `pattern` names when it
    /// names one without a payload.
    pub fn resolve_zero_ary_variant(&self, subject_type: &TypeExpr, pattern: &crate::ast::Pattern) -> (r: Option<
        crate::types::EnumVariant,
    >)
        ensures
            match r {
                Some(v) => zero_ary_variant(subject_type@, *pattern) == Some(variant_view(v)),
                None => zero_ary_variant(subject_type@, *pattern) is None,
            },
    {
        let variant_identifier = match pattern {
            crate::ast::Pattern::EnumVariant { identifier, arguments } => {
                if arguments.len() != 0 {
                    return None;
                }
                &identifier.lexeme
            },
            crate::ast::Pattern::Variable(identifier) => &identifier.lexeme,
            _ => {
                return None;
            },
        };
        let variants = match subject_type {
            TypeExpr::Named { enum_variants: Some(variants), .. } => variants,
            _ => {
                return None;
            },
        };
        let ghost vs = crate::types::variants_view(variants@);
        proof {
            crate::types::lemma_variants_view_index(variants@);
            assert(vs.skip(0) =~= vs);
            assert(zero_ary_variant(subject_type@, *pattern) == first_zero_ary(vs, variant_identifier@));
        }
        let mut i: usize = 0;
        while i < variants.len()
            invariant
                zero_ary_variant(subject_type@, *pattern) == first_zero_ary(vs, variant_identifier@),
                i <= variants@.len(),
                vs == crate::types::variants_view(variants@),
                vs.len() == variants@.len(),
                forall|k: int| 0 <= k < variants@.len() ==> #[trigger] vs[k] == variant_view(variants@[k]),
                first_zero_ary(vs, variant_identifier@) == first_zero_ary(vs.skip(i as int), variant_identifier@),
            decreases variants@.len() - i,
        {
            proof {
                assert(vs.skip(i as int)[0] == vs[i as int]);
                assert(vs.skip(i as int).skip(1) =~= vs.skip(i + 1));
            }
            if variants[i].identifier.lexeme == *variant_identifier && variants[i].payload_types.len() == 0 {
                let v = crate::types::EnumVariant {
                    identifier: variants[i].identifier.clone(),
                    payload_types: Vec::new(),
                };
                proof {
                    lemma_types_view_index(variants@[i as int].payload_types@);
                    assert(types_view(v.payload_types@) =~= Seq::<TypeView>::empty());
                    assert(types_view(variants@[i as int].payload_types@) =~= Seq::<TypeView>::empty());
                    assert(variant_view(v) == variant_view(variants@[i as int]));
                    assert(vs[i as int].payload_types.len() == 0);
                    assert(vs[i as int].identifier.lexeme == variant_identifier@);
                    assert(first_zero_ary(vs.skip(i as int), variant_identifier@) == Some(vs[i as int]));
                }
                return Some(v);
            }
            i = i + 1;
        }
        None
    }

    /// How a pattern on a primitive subject, held in the C variable
    /// `subject_temp` of C type `subject_c_type`, is lowered: a wildcard or
    /// a name matches everything (a name binding the subject), except that
    /// `True` and `False` on a `bool` compare with it; a literal compares
    /// with it and a range bounds it, strings by `strcmp`.  Variant and
    /// tuple patterns cannot match a primitive subject.
    pub fn classify_primitive_pattern(
        &self,
        pattern: &crate::ast::Pattern,
        subject_type: &TypeExpr,
        subject_temp: &str,
        subject_c_type: &str,
    ) -> (r: Result<PrimitivePatternType, crate::error::CodegenError>)
        ensures
            match *pattern {
                crate::ast::Pattern::Wildcard(_) => r matches Ok(PrimitivePatternType::CatchAll { binding: None }),
                crate::ast::Pattern::Variable(identifier) => if subject_c_type@ == "bool"@ && identifier.lexeme@
                    == "True"@ {
                    r matches Ok(PrimitivePatternType::Conditional { condition }) && condition@ == subject_temp@
                        + " == true"@
                } else if subject_c_type@ == "bool"@ && identifier.lexeme@ == "False"@ {
                    r matches Ok(PrimitivePatternType::Conditional { condition }) && condition@ == subject_temp@
                        + " == false"@
                } else {
                    r matches Ok(PrimitivePatternType::CatchAll { binding: Some((name, c_type)) }) && name@
                        == crate::c_names::mangled(identifier.lexeme@) && c_type@ == subject_c_type@
                },
                crate::ast::Pattern::Literal(literal) => r matches Ok(PrimitivePatternType::Conditional { condition })
                    && condition@ == if subject_c_type@ == "const char*"@ {
                    "strcmp("@ + subject_temp@ + ", "@ + literal.lexeme@ + ") == 0"@
                } else {
                    subject_temp@ + " == "@ + literal.lexeme@
                },
                crate::ast::Pattern::Range { start, end, is_inclusive } => r matches Ok(
                    PrimitivePatternType::Conditional { condition },
                ) && condition@ == range_condition(
                    subject_temp@,
                    start.lexeme@,
                    end.lexeme@,
                    is_inclusive,
                    subject_c_type@ == "const char*"@,
                ),
                crate::ast::Pattern::EnumVariant { identifier, .. } => r matches Err(
                    crate::error::CodegenError::UnexpectedTypeInCodegen { line, column, expected, found_type },
                ) && line == identifier.line && column == identifier.column && expected@ == primitive_pattern_text()
                    && found_type@ == subject_type@,
                crate::ast::Pattern::Tuple { left_paren, .. } => r matches Err(
                    crate::error::CodegenError::UnexpectedTypeInCodegen { line, column, expected, found_type },
                ) && line == left_paren.line && column == left_paren.column && expected@ == primitive_pattern_text()
                    && found_type@ == subject_type@,
            },
    {
        let is_bool = same_text(&subject_c_type.to_owned(), "bool");
        let is_string = same_text(&subject_c_type.to_owned(), "const char*");
        match pattern {
            crate::ast::Pattern::Wildcard(_) => Ok(PrimitivePatternType::CatchAll { binding: None }),
            crate::ast::Pattern::Variable(identifier) => {
                if is_bool && same_text(&identifier.lexeme, "True") {
                    let mut condition = subject_temp.to_owned();
                    condition.push_str(" == true");
                    return Ok(PrimitivePatternType::Conditional { condition });
                }
                if is_bool && same_text(&identifier.lexeme, "False") {
                    let mut condition = subject_temp.to_owned();
                    condition.push_str(" == false");
                    return Ok(PrimitivePatternType::Conditional { condition });
                }
                Ok(
                    PrimitivePatternType::CatchAll {
                        binding: Some((mangle(identifier.lexeme.as_str()), subject_c_type.to_owned())),
                    },
                )
            },
            crate::ast::Pattern::Literal(literal) => {
                let mut condition = String::new();
                if is_string {
                    condition.push_str("strcmp(");
                    condition.push_str(subject_temp);
                    condition.push_str(", ");
                    crate::text::push_string(&mut condition, &literal.lexeme);
                    condition.push_str(") == 0");
                } else {
                    condition.push_str(subject_temp);
                    condition.push_str(" == ");
                    crate::text::push_string(&mut condition, &literal.lexeme);
                }
                proof {
                    assert(condition@ =~= if subject_c_type@ == "const char*"@ {
                        "strcmp("@ + subject_temp@ + ", "@ + literal.lexeme@ + ") == 0"@
                    } else {
                        subject_temp@ + " == "@ + literal.lexeme@
                    });
                }
                Ok(PrimitivePatternType::Conditional { condition })
            },
            crate::ast::Pattern::Range { start, end, is_inclusive } => {
                let mut condition = String::new();
                if is_string {
                    condition.push_str("strcmp(");
                    condition.push_str(subject_temp);
                    condition.push_str(", ");
                    crate::text::push_string(&mut condition, &start.lexeme);
                    condition.push_str(") >= 0 && strcmp(");
                    condition.push_str(subject_temp);
                    condition.push_str(", ");
                    crate::text::push_string(&mut condition, &end.lexeme);
                    if *is_inclusive {
                        condition.push_str(") <= 0");
                    } else {
                        condition.push_str(") < 0");
                    }
                } else {
                    condition.push_str(subject_temp);
                    condition.push_str(" >= ");
                    crate::text::push_string(&mut condition, &start.lexeme);
                    condition.push_str(" && ");
                    condition.push_str(subject_temp);
                    if *is_inclusive {
                        condition.push_str(" <= ");
                    } else {
                        condition.push_str(" < ");
                    }
                    crate::text::push_string(&mut condition, &end.lexeme);
                }
                proof {
                    assert(condition@ =~= range_condition(
                        subject_temp@,
                        start.lexeme@,
                        end.lexeme@,
                        *is_inclusive,
                        subject_c_type@ == "const char*"@,
                    ));
                }
                Ok(PrimitivePatternType::Conditional { condition })
            },
            crate::ast::Pattern::EnumVariant { identifier, .. } => Err(
                crate::error::CodegenError::UnexpectedTypeInCodegen {
                    line: identifier.line,
                    column: identifier.column,
                    expected: "primitive match pattern (literal, range, wildcard, or variable)",
                    found_type: crate::types::copy_type(subject_type),
                },
            ),
            crate::ast::Pattern::Tuple { left_paren, .. } => Err(
                crate::error::CodegenError::UnexpectedTypeInCodegen {
                    line: left_paren.line,
                    column: left_paren.column,
                    expected: "primitive match pattern (literal, range, wildcard, or variable)",
                    found_type: crate::types::copy_type(subject_type),
                },
            ),
        }
    }
}

} // verus!

verus! {

/// The first variant of `vs` named `name`.
pub open spec fn first_named(vs: Seq<crate::types::VariantView>, name: Seq<char>) -> Option<crate::types::VariantView>
    decreases vs.len(),
{
    if vs.len() == 0 {
        None
    } else if vs[0].identifier.lexeme == name {
        Some(vs[0])
    } else {
        first_named(vs.skip(1), name)
    }
}

/// No tuple pattern in `p`, matched against a value of type `t`, has more
/// elements than the tuple type it meets.
pub open spec fn pattern_fits(p: crate::ast::Pattern, t: TypeView) -> bool
    decreases p,
{
    match p {
        crate::ast::Pattern::Tuple { elements, .. } => match t {
            TypeView::Tuple { element_types } => elements@.len() <= element_types.len() && patterns_fit(
                elements@,
                element_types,
            ),
            _ => true,
        },
        crate::ast::Pattern::EnumVariant { identifier, arguments } => match t {
            TypeView::Named { enum_variants: Some(vs), .. } => match first_named(vs, identifier.lexeme@) {
                Some(v) => patterns_fit(arguments@, instantiated_payloads(t, v.payload_types)),
                None => true,
            },
            _ => true,
        },
        _ => true,
    }
}

/// Each of `ps` fits the type at its position in `ts`, where there is one.
pub open spec fn patterns_fit(ps: Seq<crate::ast::Pattern>, ts: Seq<TypeView>) -> bool
    decreases ps,
{
    if ps.len() == 0 {
        true
    } else {
        patterns_fit(ps.drop_last(), ts) && (ps.len() - 1 < ts.len() ==> pattern_fits(ps.last(), ts[ps.len() - 1]))
    }
}

proof fn lemma_patterns_fit_index(ps: Seq<crate::ast::Pattern>, ts: Seq<TypeView>, i: int)
    requires
        patterns_fit(ps, ts),
        0 <= i < ps.len(),
        i < ts.len(),
    ensures
        pattern_fits(ps[i], ts[i]),
    decreases ps.len(),
{
    if i < ps.len() - 1 {
        assert(ps.drop_last()[i] == ps[i]);
        lemma_patterns_fit_index(ps.drop_last(), ts, i);
    }
}

} // verus!

verus! {

/// The C statement that leaves the case of a match unless a primitive
/// subject equals a literal, strings by `strcmp`.
pub open spec fn literal_check(subject: Seq<char>, literal: Seq<char>, strings: bool) -> Seq<char> {
    if strings {
        "if (strcmp("@ + subject + ", "@ + literal + ") != 0) { break; }"@
    } else {
        "if ("@ + subject + " != "@ + literal + ") { break; }"@
    }
}

/// The C statement that leaves the case of a match unless a primitive
/// subject lies in a range, strings by `strcmp`.
pub open spec fn range_check(subject: Seq<char>, start: Seq<char>, end: Seq<char>, is_inclusive: bool, strings: bool) -> Seq<
    char,
> {
    if strings {
        "if (strcmp("@ + subject + ", "@ + start + ") < 0 || strcmp("@ + subject + ", "@ + end + (if is_inclusive {
            ") > 0) { break; }"@
        } else {
            ") >= 0) { break; }"@
        })
    } else {
        "if ("@ + subject + " < "@ + start + " || "@ + subject + (if is_inclusive {
            " > "@
        } else {
            " >= "@
        }) + end + ") { break; }"@
    }
}

impl CodeGenerator {
    /// Lowers a pattern matched against the C expression `subject_expr` of
    /// type `subject_type` into the statements of a match case, added to
    /// `out` at the current indentation: a name binds the subject, a
    /// literal or range leaves the case when the subject does not match, a
    /// variant or tuple pattern lowers its parts against the payload fields
    /// or elements.
    pub fn lower_pattern(
        &mut self,
        out: &mut Vec<String>,
        pattern: &crate::ast::Pattern,
        subject_expr: &str,
        subject_type: &TypeExpr,
    ) -> (r: Result<(), crate::error::CodegenError>)
        requires
            old(self).wf(),
            pattern_fits(*pattern, subject_type@),
        ensures
            final(self).wf(),
            final(self).text() == old(self).text(),
            final(self).level() == old(self).level(),
            final(self).temps() == old(self).temps(),
            final(self).histories() == old(self).histories(),
            old(self).recorded().subset_of(final(self).recorded()),
            final(out)@.len() >= old(out)@.len(),
            final(out)@.take(old(out)@.len() as int) == old(out)@,
            match *pattern {
                crate::ast::Pattern::Wildcard(_) => r is Ok && final(out)@ == old(out)@,
                crate::ast::Pattern::Variable(identifier) => r is Ok && final(out)@ == old(out)@.push(
                    final(out)@.last(),
                ) && final(out)@.last()@ == indentation(old(self).level()) + c_type_text(subject_type@) + " "@
                    + crate::c_names::mangled(identifier.lexeme@) + " = "@ + subject_expr@ + ";"@,
                crate::ast::Pattern::Literal(literal) => r is Ok && final(out)@ == old(out)@.push(final(out)@.last())
                    && final(out)@.last()@ == indentation(old(self).level()) + literal_check(
                    subject_expr@,
                    literal.lexeme@,
                    c_type_text(subject_type@) == "const char*"@,
                ),
                crate::ast::Pattern::Range { start, end, is_inclusive } => r is Ok && final(out)@ == old(out)@.push(
                    final(out)@.last(),
                ) && final(out)@.last()@ == indentation(old(self).level()) + range_check(
                    subject_expr@,
                    start.lexeme@,
                    end.lexeme@,
                    is_inclusive,
                    c_type_text(subject_type@) == "const char*"@,
                ),
                crate::ast::Pattern::EnumVariant { identifier, arguments } => match subject_type@ {
                    TypeView::Named { enum_variants: Some(vs), .. } => match first_named(vs, identifier.lexeme@) {
                        Some(v) => instantiated_payloads(subject_type@, v.payload_types).len() != arguments@.len()
                            ==> (r matches Err(crate::error::CodegenError::InvalidEnumPatternArgumentCount {
                            line,
                            column,
                            expected,
                            found,
                            ..
                        }) && line == identifier.line && column == identifier.column && expected
                            == instantiated_payloads(subject_type@, v.payload_types).len() && found
                            == arguments@.len()),
                        None => r matches Err(crate::error::CodegenError::UnknownEnumVariantInPattern {
                            line,
                            column,
                            enum_identifier,
                        }) && line == identifier.line && column == identifier.column && enum_identifier@
                            == identifier.lexeme@,
                    },
                    TypeView::Named { enum_variants: None, .. } => r matches Err(
                        crate::error::CodegenError::MissingType { line, column, identifier: name },
                    ) && line == identifier.line && column == identifier.column && name@ == identifier.lexeme@,
                    _ => r matches Err(
                        crate::error::CodegenError::UnexpectedTypeInCodegen { line, column, found_type, .. },
                    ) && line == identifier.line && column == identifier.column && found_type@ == subject_type@,
                },
                crate::ast::Pattern::Tuple { left_paren, .. } => !(subject_type@ is Tuple) ==> (r matches Err(
                    crate::error::CodegenError::UnexpectedTypeInCodegen { line, column, found_type, .. },
                ) && line == left_paren.line && column == left_paren.column && found_type@ == subject_type@),
            },
        decreases pattern,
    {
        match pattern {
            crate::ast::Pattern::Wildcard(_) => Ok(()),
            crate::ast::Pattern::Variable(identifier) => {
                let var_identifier = mangle(identifier.lexeme.as_str());
                let c_type = self.map_type(subject_type);
                let mut line = c_type;
                line.push_str(" ");
                crate::text::push_string(&mut line, &var_identifier);
                line.push_str(" = ");
                line.push_str(subject_expr);
                line.push_str(";");
                let level = self.indent_level;
                self.write_indented_to(out, level, line);
                proof {
                    assert(out@ =~= old(out)@.push(out@.last()));
                    assert(out@.last()@ =~= indentation(old(self).level()) + c_type_text(subject_type@) + " "@
                        + crate::c_names::mangled(identifier.lexeme@) + " = "@ + subject_expr@ + ";"@);
                }
                Ok(())
            },
            crate::ast::Pattern::Literal(literal) => {
                let c_type = self.map_type(subject_type);
                let mut check = String::new();
                if same_text(&c_type, "const char*") {
                    check.push_str("if (strcmp(");
                    check.push_str(subject_expr);
                    check.push_str(", ");
                    crate::text::push_string(&mut check, &literal.lexeme);
                    check.push_str(") != 0) { break; }");
                } else {
                    check.push_str("if (");
                    check.push_str(subject_expr);
                    check.push_str(" != ");
                    crate::text::push_string(&mut check, &literal.lexeme);
                    check.push_str(") { break; }");
                }
                let level = self.indent_level;
                self.write_indented_to(out, level, check);
                proof {
                    assert(out@ =~= old(out)@.push(out@.last()));
                    assert(out@.last()@ =~= indentation(old(self).level()) + literal_check(
                        subject_expr@,
                        literal.lexeme@,
                        c_type_text(subject_type@) == "const char*"@,
                    ));
                }
                Ok(())
            },
            crate::ast::Pattern::EnumVariant { identifier, arguments } => {
                let variants = match subject_type {
                    TypeExpr::Named { enum_variants, .. } => match enum_variants {
                        Some(variants) => variants,
                        None => {
                            return Err(
                                crate::error::CodegenError::MissingType {
                                    line: identifier.line,
                                    column: identifier.column,
                                    identifier: identifier.lexeme.clone(),
                                },
                            );
                        },
                    },
                    _ => {
                        return Err(
                            crate::error::CodegenError::UnexpectedTypeInCodegen {
                                line: identifier.line,
                                column: identifier.column,
                                expected: "enum pattern subject",
                                found_type: crate::types::copy_type(subject_type),
                            },
                        );
                    },
                };
                let ghost vs = crate::types::variants_view(variants@);
                proof {
                    crate::types::lemma_variants_view_index(variants@);
                    assert(vs.skip(0) =~= vs);
                }
                let mut k: usize = 0;
                while k < variants.len() && variants[k].identifier.lexeme != identifier.lexeme
                    invariant
                        k <= variants@.len(),
                        vs == crate::types::variants_view(variants@),
                        vs.len() == variants@.len(),
                        forall|m: int| 0 <= m < variants@.len() ==> #[trigger] vs[m] == variant_view(variants@[m]),
                        first_named(vs, identifier.lexeme@) == first_named(vs.skip(k as int), identifier.lexeme@),
                    decreases variants@.len() - k,
                {
                    proof {
                        assert(vs.skip(k as int)[0] == vs[k as int]);
                        assert(vs.skip(k as int).skip(1) =~= vs.skip(k + 1));
                    }
                    k = k + 1;
                }
                if k == variants.len() {
                    proof {
                        assert(vs.skip(k as int).len() == 0);
                    }
                    return Err(
                        crate::error::CodegenError::UnknownEnumVariantInPattern {
                            line: identifier.line,
                            column: identifier.column,
                            enum_identifier: identifier.lexeme.clone(),
                        },
                    );
                }
                let index = k;
                proof {
                    assert(vs.skip(k as int)[0] == vs[k as int]);
                }
                proof {
                    assert(first_named(vs, identifier.lexeme@) == Some(vs[index as int]));
                }
                let instantiated_variant = self.instantiate_enum_variant_payloads(subject_type, &variants[index]);
                let payload_count = instantiated_variant.payload_types.len();
                proof {
                    lemma_types_view_index(instantiated_variant.payload_types@);
                }
                if arguments.len() != payload_count {
                    return Err(
                        crate::error::CodegenError::InvalidEnumPatternArgumentCount {
                            line: identifier.line,
                            column: identifier.column,
                            enum_identifier: identifier.lexeme.clone(),
                            variant_identifier: instantiated_variant.identifier.lexeme.clone(),
                            expected: payload_count,
                            found: arguments.len(),
                        },
                    );
                }
                let ghost payload_views = types_view(instantiated_variant.payload_types@);
                let mut i: usize = 0;
                while i < arguments.len()
                    invariant
                        i <= arguments@.len(),
                        arguments@.len() == payload_count,
                        payload_count == instantiated_variant.payload_types@.len(),
                        payload_views == types_view(instantiated_variant.payload_types@),
                        payload_views.len() == payload_count,
                        forall|m: int| 0 <= m < payload_count ==> #[trigger] payload_views[m]
                            == instantiated_variant.payload_types@[m]@,
                        patterns_fit(arguments@, payload_views),
                        pattern is EnumVariant,
                        match subject_type@ {
                            TypeView::Named { enum_variants: Some(vs2), .. } => match first_named(
                                vs2,
                                identifier.lexeme@,
                            ) {
                                Some(v) => instantiated_payloads(subject_type@, v.payload_types).len()
                                    == arguments@.len(),
                                None => false,
                            },
                            _ => false,
                        },
                        *pattern matches crate::ast::Pattern::EnumVariant { identifier: id, arguments: args } && args
                            == *arguments && id == *identifier,
                        self.wf(),
                        self.text() == old(self).text(),
                        self.level() == old(self).level(),
                        self.temps() == old(self).temps(),
                        self.histories() == old(self).histories(),
                        old(self).recorded().subset_of(self.recorded()),
                        out@.len() >= old(out)@.len(),
                        out@.take(old(out)@.len() as int) == old(out)@,
                    decreases arguments@.len() - i,
                {
                    let mut payload_expr = subject_expr.to_owned();
                    payload_expr.push_str(".data.");
                    crate::text::push_string(&mut payload_expr, &mangle(identifier.lexeme.as_str()));
                    payload_expr.push_str(".");
                    if payload_count == 1 {
                        payload_expr.push_str("value");
                    } else {
                        payload_expr.push_str("field");
                        push_decimal(&mut payload_expr, i as u64);
                    }
                    proof {
                        lemma_patterns_fit_index(arguments@, payload_views, i as int);
                    }
                    let ghost before = out@;
                    self.lower_pattern(out, &arguments[i], payload_expr.as_str(), &instantiated_variant.payload_types[i])?;
                    proof {
                        assert(out@.take(old(out)@.len() as int) =~= before.take(old(out)@.len() as int));
                    }
                    i = i + 1;
                }
                Ok(())
            },
            crate::ast::Pattern::Range { start, end, is_inclusive } => {
                let c_type = self.map_type(subject_type);
                let mut check = String::new();
                if same_text(&c_type, "const char*") {
                    check.push_str("if (strcmp(");
                    check.push_str(subject_expr);
                    check.push_str(", ");
                    crate::text::push_string(&mut check, &start.lexeme);
                    check.push_str(") < 0 || strcmp(");
                    check.push_str(subject_expr);
                    check.push_str(", ");
                    crate::text::push_string(&mut check, &end.lexeme);
                    if *is_inclusive {
                        check.push_str(") > 0) { break; }");
                    } else {
                        check.push_str(") >= 0) { break; }");
                    }
                } else {
                    check.push_str("if (");
                    check.push_str(subject_expr);
                    check.push_str(" < ");
                    crate::text::push_string(&mut check, &start.lexeme);
                    check.push_str(" || ");
                    check.push_str(subject_expr);
                    if *is_inclusive {
                        check.push_str(" > ");
                    } else {
                        check.push_str(" >= ");
                    }
                    crate::text::push_string(&mut check, &end.lexeme);
                    check.push_str(") { break; }");
                }
                let level = self.indent_level;
                self.write_indented_to(out, level, check);
                proof {
                    assert(out@ =~= old(out)@.push(out@.last()));
                    assert(out@.last()@ =~= indentation(old(self).level()) + range_check(
                        subject_expr@,
                        start.lexeme@,
                        end.lexeme@,
                        *is_inclusive,
                        c_type_text(subject_type@) == "const char*"@,
                    ));
                }
                Ok(())
            },
            crate::ast::Pattern::Tuple { elements, left_paren } => {
                let element_types = match subject_type {
                    TypeExpr::Tuple { element_types } => element_types,
                    _ => {
                        return Err(
                            crate::error::CodegenError::UnexpectedTypeInCodegen {
                                line: left_paren.line,
                                column: left_paren.column,
                                expected: "tuple type for tuple pattern",
                                found_type: crate::types::copy_type(subject_type),
                            },
                        );
                    },
                };
                let ghost element_views = types_view(element_types@);
                proof {
                    lemma_types_view_index(element_types@);
                }
                let mut i: usize = 0;
                while i < elements.len()
                    invariant
                        i <= elements@.len(),
                        elements@.len() <= element_types@.len(),
                        element_views == types_view(element_types@),
                        element_views.len() == element_types@.len(),
                        forall|m: int| 0 <= m < element_types@.len() ==> #[trigger] element_views[m]
                            == element_types@[m]@,
                        patterns_fit(elements@, element_views),
                        pattern is Tuple,
                        subject_type@ is Tuple,
                        *pattern matches crate::ast::Pattern::Tuple { elements: es, .. } && es == *elements,
                        self.wf(),
                        self.text() == old(self).text(),
                        self.level() == old(self).level(),
                        self.temps() == old(self).temps(),
                        self.histories() == old(self).histories(),
                        old(self).recorded().subset_of(self.recorded()),
                        out@.len() >= old(out)@.len(),
                        out@.take(old(out)@.len() as int) == old(out)@,
                    decreases elements@.len() - i,
                {
                    let mut sub_subject = subject_expr.to_owned();
                    sub_subject.push_str("._");
                    push_decimal(&mut sub_subject, i as u64);
                    proof {
                        lemma_patterns_fit_index(elements@, element_views, i as int);
                    }
                    let ghost before = out@;
                    self.lower_pattern(out, &elements[i], sub_subject.as_str(), &element_types[i])?;
                    proof {
                        assert(out@.take(old(out)@.len() as int) =~= before.take(old(out)@.len() as int));
                    }
                    i = i + 1;
                }
                Ok(())
            },
        }
    }
}

} // verus!

verus! {

/// The number of tuple bindings in `b`, itself included.
pub open spec fn tuple_count(b: crate::ast::VariableBinding) -> nat
    decreases b,
{
    match b {
        crate::ast::VariableBinding::Identifier(_) => 0,
        crate::ast::VariableBinding::Tuple { elements, .. } => 1 + tuple_counts(elements@),
    }
}

pub open spec fn tuple_counts(bs: Seq<crate::ast::VariableBinding>) -> nat
    decreases bs,
{
    if bs.len() == 0 {
        0
    } else {
        tuple_counts(bs.drop_last()) + tuple_count(bs.last())
    }
}

/// No tuple binding in `b`, bound to a value of type `t`, has more
/// elements than the tuple type it meets.
pub open spec fn binding_fits(b: crate::ast::VariableBinding, t: TypeView) -> bool
    decreases b,
{
    match b {
        crate::ast::VariableBinding::Tuple { elements, .. } => match t {
            TypeView::Tuple { element_types } => elements@.len() <= element_types.len() && bindings_fit(
                elements@,
                element_types,
            ),
            _ => true,
        },
        _ => true,
    }
}

pub open spec fn bindings_fit(bs: Seq<crate::ast::VariableBinding>, ts: Seq<TypeView>) -> bool
    decreases bs,
{
    if bs.len() == 0 {
        true
    } else {
        bindings_fit(bs.drop_last(), ts) && (bs.len() - 1 < ts.len() ==> binding_fits(bs.last(), ts[bs.len() - 1]))
    }
}

proof fn lemma_bindings_fit_index(bs: Seq<crate::ast::VariableBinding>, ts: Seq<TypeView>, i: int)
    requires
        bindings_fit(bs, ts),
        0 <= i < bs.len(),
        i < ts.len(),
    ensures
        binding_fits(bs[i], ts[i]),
    decreases bs.len(),
{
    if i < bs.len() - 1 {
        assert(bs.drop_last()[i] == bs[i]);
        lemma_bindings_fit_index(bs.drop_last(), ts, i);
    }
}

proof fn lemma_tuple_counts_prefix(bs: Seq<crate::ast::VariableBinding>, i: int)
    requires
        0 <= i < bs.len(),
    ensures
        tuple_counts(bs.take(i)) + tuple_count(bs[i]) <= tuple_counts(bs),
    decreases bs.len(),
{
    if i < bs.len() - 1 {
        assert(bs.drop_last().take(i) =~= bs.take(i));
        assert(bs.drop_last()[i] == bs[i]);
        lemma_tuple_counts_prefix(bs.drop_last(), i);
    } else {
        assert(bs.drop_last() =~= bs.take(i));
    }
}

proof fn lemma_tuple_counts_step(bs: Seq<crate::ast::VariableBinding>, i: int)
    requires
        0 <= i < bs.len(),
    ensures
        tuple_counts(bs.take(i + 1)) == tuple_counts(bs.take(i)) + tuple_count(bs[i]),
{
    assert(bs.take(i + 1).drop_last() =~= bs.take(i));
}

impl CodeGenerator {
    /// Declares, in `out` at the current indentation, the C variables a
    /// binding introduces, initialized from `init_code` of C type `c_type`:
    /// a name is declared directly; a tuple binding stores the value in a
    /// fresh temporary and binds its elements from the tuple's fields.
    pub fn emit_variable_binding(
        &mut self,
        out: &mut Vec<String>,
        binding: &crate::ast::VariableBinding,
        delo_type: &TypeExpr,
        c_type: &str,
        init_code: &str,
    ) -> (r: Result<(), crate::error::CodegenError>)
        requires
            old(self).wf(),
            binding_fits(*binding, delo_type@),
            old(self).temps() + tuple_count(*binding) <= usize::MAX,
        ensures
            final(self).wf(),
            final(self).text() == old(self).text(),
            final(self).level() == old(self).level(),
            final(self).temps() <= old(self).temps() + tuple_count(*binding),
            final(self).histories() == old(self).histories(),
            old(self).recorded().subset_of(final(self).recorded()),
            final(out)@.len() >= old(out)@.len(),
            final(out)@.take(old(out)@.len() as int) == old(out)@,
            match *binding {
                crate::ast::VariableBinding::Identifier(token) => r is Ok && final(out)@ == old(out)@.push(
                    final(out)@.last(),
                ) && final(out)@.last()@ == indentation(old(self).level()) + c_type@ + " "@
                    + crate::c_names::mangled(token.lexeme@) + " = "@ + init_code@ + ";"@,
                crate::ast::VariableBinding::Tuple { left_paren, .. } => !(delo_type@ is Tuple) ==> (r matches Err(
                    crate::error::CodegenError::UnexpectedTypeInCodegen { line, column, found_type, .. },
                ) && line == left_paren.line && column == left_paren.column && found_type@ == delo_type@),
            },
        decreases binding,
    {
        match binding {
            crate::ast::VariableBinding::Identifier(token) => {
                let mut line = c_type.to_owned();
                line.push_str(" ");
                crate::text::push_string(&mut line, &mangle(token.lexeme.as_str()));
                line.push_str(" = ");
                line.push_str(init_code);
                line.push_str(";");
                let level = self.indent_level;
                self.write_indented_to(out, level, line);
                proof {
                    assert(out@ =~= old(out)@.push(out@.last()));
                    assert(out@.last()@ =~= indentation(old(self).level()) + c_type@ + " "@ + crate::c_names::mangled(
                        token.lexeme@,
                    ) + " = "@ + init_code@ + ";"@);
                }
                Ok(())
            },
            crate::ast::VariableBinding::Tuple { elements, left_paren } => {
                let element_types = match delo_type {
                    TypeExpr::Tuple { element_types } => element_types,
                    _ => {
                        return Err(
                            crate::error::CodegenError::UnexpectedTypeInCodegen {
                                line: left_paren.line,
                                column: left_paren.column,
                                expected: "tuple type for tuple destructure binding",
                                found_type: crate::types::copy_type(delo_type),
                            },
                        );
                    },
                };
                let ghost element_views = types_view(element_types@);
                proof {
                    lemma_types_view_index(element_types@);
                }
                let temp = self.new_temp_id("dest_");
                let mut line = c_type.to_owned();
                line.push_str(" ");
                crate::text::push_string(&mut line, &temp);
                line.push_str(" = ");
                line.push_str(init_code);
                line.push_str(";");
                let level = self.indent_level;
                self.write_indented_to(out, level, line);
                let ghost base = old(self).temps() + 1;
                let mut i: usize = 0;
                proof {
                    assert(elements@.take(0) =~= Seq::<crate::ast::VariableBinding>::empty());
                }
                while i < elements.len()
                    invariant
                        i <= elements@.len(),
                        elements@.len() <= element_types@.len(),
                        element_views == types_view(element_types@),
                        element_views.len() == element_types@.len(),
                        forall|m: int| 0 <= m < element_types@.len() ==> #[trigger] element_views[m]
                            == element_types@[m]@,
                        bindings_fit(elements@, element_views),
                        *binding matches crate::ast::VariableBinding::Tuple { elements: es, left_paren: lp } && es
                            == *elements && lp == *left_paren,
                        delo_type@ is Tuple,
                        base == old(self).temps() + 1,
                        tuple_count(*binding) == 1 + tuple_counts(elements@),
                        self.temps() <= base + tuple_counts(elements@.take(i as int)),
                        old(self).temps() + tuple_count(*binding) <= usize::MAX,
                        self.wf(),
                        self.text() == old(self).text(),
                        self.level() == old(self).level(),
                        self.histories() == old(self).histories(),
                        old(self).recorded().subset_of(self.recorded()),
                        out@.len() >= old(out)@.len(),
                        out@.take(old(out)@.len() as int) == old(out)@,
                    decreases elements@.len() - i,
                {
                    let sub_type = &element_types[i];
                    let sub_c_type = self.map_type(sub_type);
                    let mut sub_init = temp.clone();
                    sub_init.push_str("._");
                    push_decimal(&mut sub_init, i as u64);
                    proof {
                        lemma_bindings_fit_index(elements@, element_views, i as int);
                        lemma_tuple_counts_prefix(elements@, i as int);
                        lemma_tuple_counts_step(elements@, i as int);
                    }
                    let ghost before = out@;
                    self.emit_variable_binding(out, &elements[i], sub_type, sub_c_type.as_str(), sub_init.as_str())?;
                    proof {
                        assert(out@.take(old(out)@.len() as int) =~= before.take(old(out)@.len() as int));
                    }
                    i = i + 1;
                }
                proof {
                    assert(elements@.take(i as int) =~= elements@);
                }
                Ok(())
            },
        }
    }
}

} // verus!

verus! {

/// Lines, each at an indentation level, as text.
pub open spec fn lines_text(ls: Seq<(nat, Seq<char>)>) -> Seq<char>
    decreases ls.len(),
{
    if ls.len() == 0 {
        Seq::empty()
    } else {
        lines_text(ls.drop_last()) + line_at(ls.last().0, ls.last().1)
    }
}

/// Lines moved `n` levels deeper.
pub open spec fn shifted(ls: Seq<(nat, Seq<char>)>, n: nat) -> Seq<(nat, Seq<char>)> {
    ls.map_values(|l: (nat, Seq<char>)| ((l.0 + n) as nat, l.1))
}

/// The value of a list of lines, each with its depth below the current
/// indentation.
pub open spec fn exec_lines_view(ls: Seq<(usize, String)>) -> Seq<(nat, Seq<char>)> {
    ls.map_values(|l: (usize, String)| (l.0 as nat, l.1@))
}

impl CodeGenerator {
    /// Writes `lines`, each at its depth below the current indentation.
    pub(crate) fn write_lines(&mut self, lines: &Vec<(usize, String)>)
        requires
            old(self).level() + 3 <= usize::MAX,
            forall|i: int| 0 <= i < lines@.len() ==> #[trigger] lines@[i].0 <= 3,
        ensures
            final(self).text() == old(self).text() + lines_text(shifted(exec_lines_view(lines@), old(self).level())),
            final(self).level() == old(self).level(),
            final(self).temps() == old(self).temps(),
            final(self).recorded() == old(self).recorded(),
            final(self).histories() == old(self).histories(),
            forall|k: InstantiationKind| #[trigger] final(self).instantiations(k) == old(self).instantiations(k),
            final(self).wf() == old(self).wf(),
    {
        let ghost ls = shifted(exec_lines_view(lines@), old(self).level());
        proof {
            assert(ls.take(0) =~= Seq::<(nat, Seq<char>)>::empty());
        }
        let mut i: usize = 0;
        while i < lines.len()
            invariant
                i <= lines@.len(),
                ls == shifted(exec_lines_view(lines@), old(self).level()),
                old(self).level() + 3 <= usize::MAX,
                forall|j: int| 0 <= j < lines@.len() ==> #[trigger] lines@[j].0 <= 3,
                self.text() == old(self).text() + lines_text(ls.take(i as int)),
                self.level() == old(self).level(),
                self.temps() == old(self).temps(),
                self.recorded() == old(self).recorded(),
                self.histories() == old(self).histories(),
                self.array_instantiations@ == old(self).array_instantiations@,
                self.map_instantiations@ == old(self).map_instantiations@,
                self.range_instantiations@ == old(self).range_instantiations@,
                self.tuple_instantiations@ == old(self).tuple_instantiations@,
                self.user_type_instantiations@ == old(self).user_type_instantiations@,
                self.wf() == old(self).wf(),
            decreases lines@.len() - i,
        {
            let level = self.indent_level + lines[i].0;
            push_indentation(&mut self.output, level);
            crate::text::push_string(&mut self.output, &lines[i].1);
            self.output.push('\n');
            proof {
                let p = ls.take(i + 1);
                assert(p.drop_last() =~= ls.take(i as int));
                assert(p.last() == ls[i as int]);
                assert(self.output@ =~= old(self).text() + lines_text(p));
            }
            i = i + 1;
        }
        proof {
            assert(ls.take(i as int) =~= ls);
        }
    }
}

impl CodeGenerator {
    /// Writes `lines`, each at its depth, whatever the current indentation.
    pub(crate) fn write_lines_unindented(&mut self, lines: &Vec<(usize, String)>)
        requires
            forall|i: int| 0 <= i < lines@.len() ==> #[trigger] lines@[i].0 <= 3,
        ensures
            final(self).text() == old(self).text() + lines_text(exec_lines_view(lines@)),
            final(self).level() == old(self).level(),
            final(self).temps() == old(self).temps(),
            final(self).recorded() == old(self).recorded(),
            final(self).histories() == old(self).histories(),
            forall|k: InstantiationKind| #[trigger] final(self).instantiations(k) == old(self).instantiations(k),
            final(self).wf() == old(self).wf(),
    {
        let saved = self.indent_level;
        self.indent_level = 0;
        let ghost s1 = *self;
        self.write_lines(lines);
        let ghost s2 = *self;
        self.indent_level = saved;
        proof {
            assert forall|k: InstantiationKind| #[trigger] self.instantiations(k) == old(self).instantiations(k) by {
                assert(s2.instantiations(k) == s1.instantiations(k));
            }
            assert(shifted(exec_lines_view(lines@), 0) =~= exec_lines_view(lines@));
        }
    }
}

/// The lines defining the range type over C type `c`.
pub open spec fn range_lines(key: Seq<Seq<char>>) -> Seq<(nat, Seq<char>)> {
    let c = key[0];
    let s = suffix_text(c);
    seq![
        (0nat, "typedef struct { "@ + c + " start; "@ + c + " end; bool inclusive; } Range_"@ + s + ";"@),
        (0nat, "Range_"@ + s + " make_Range_"@ + s + "("@ + c + " start, "@ + c + " end, bool inclusive) {"@),
        (1nat, "Range_"@ + s + " r; r.start = start; r.end = end; r.inclusive = inclusive;"@),
        (1nat, "return r;"@),
        (0nat, "}"@),
        (0nat, ""@),
    ]
}

/// The range definitions for each of `ks`, at level `n`.
pub open spec fn range_blocks(ks: Seq<Seq<Seq<char>>>, n: nat) -> Seq<char>
    decreases ks.len(),
{
    if ks.len() == 0 {
        Seq::empty()
    } else {
        range_blocks(ks.drop_last(), n) + lines_text(shifted(range_lines(ks.last()), n))
    }
}

/// A copy of a list of keys.
fn copy_keys(ks: &Vec<Vec<String>>) -> (r: Vec<Vec<String>>)
    ensures
        keys_view(r@) == keys_view(ks@),
{
    let mut r: Vec<Vec<String>> = Vec::new();
    let mut i: usize = 0;
    while i < ks.len()
        invariant
            i <= ks@.len(),
            keys_view(r@) == keys_view(ks@).take(i as int),
        decreases ks@.len() - i,
    {
        let k = copy_strings(&ks[i]);
        let ghost before = r@;
        r.push(k);
        proof {
            assert(keys_view(r@) =~= keys_view(before).push(strings_view(ks@[i as int]@)));
            assert(keys_view(ks@).take(i + 1) =~= keys_view(ks@).take(i as int).push(strings_view(ks@[i as int]@)));
        }
        i = i + 1;
    }
    proof {
        assert(keys_view(ks@).take(i as int) =~= keys_view(ks@));
    }
    r
}

impl CodeGenerator {
    /// A copy of the recorded instantiations of kind `kind`, in sorted order.
    pub fn instantiation_keys(&self, kind: InstantiationKind) -> (r: Vec<Vec<String>>)
        ensures
            keys_view(r@) == self.instantiations(kind),
            self.wf() && kind is UserType ==> all_at_least(keys_view(r@), 2),
    {
        match kind {
            InstantiationKind::ArrayType => copy_keys(&self.array_instantiations),
            InstantiationKind::MapType => copy_keys(&self.map_instantiations),
            InstantiationKind::RangeType => copy_keys(&self.range_instantiations),
            InstantiationKind::TupleType => copy_keys(&self.tuple_instantiations),
            InstantiationKind::UserType => copy_keys(&self.user_type_instantiations),
        }
    }
}

/// Appends a line at depth `depth` to `lines`.
pub(crate) fn add_line(lines: &mut Vec<(usize, String)>, depth: usize, text: String)
    requires
        depth <= 3,
        forall|i: int| 0 <= i < old(lines)@.len() ==> #[trigger] old(lines)@[i].0 <= 3,
    ensures
        exec_lines_view(final(lines)@) == exec_lines_view(old(lines)@).push((depth as nat, text@)),
        forall|i: int| 0 <= i < final(lines)@.len() ==> #[trigger] final(lines)@[i].0 <= 3,
{
    let ghost t = text@;
    lines.push((depth, text));
    proof {
        assert(exec_lines_view(lines@) =~= exec_lines_view(old(lines)@).push((depth as nat, t)));
        assert forall|i: int| 0 <= i < lines@.len() implies #[trigger] lines@[i].0 <= 3 by {
            if i < old(lines)@.len() {
                assert(lines@[i] == old(lines)@[i]);
            }
        }
    }
}

impl CodeGenerator {
    /// Defines, for each range instantiation in sorted order, its C struct
    /// and constructor.
    pub fn write_range_types(&mut self)
        requires
            old(self).wf(),
            old(self).level() + 3 <= usize::MAX,
        ensures
            final(self).wf(),
            final(self).text() == old(self).text() + range_blocks(
                old(self).instantiations(InstantiationKind::RangeType),
                old(self).level(),
            ),
            final(self).level() == old(self).level(),
            final(self).temps() == old(self).temps(),
            final(self).recorded() == old(self).recorded(),
            final(self).histories() == old(self).histories(),
    {
        let keys = copy_keys(&self.range_instantiations);
        let ghost ks = keys_view(keys@);
        proof {
            assert(ks.take(0) =~= Seq::<Seq<Seq<char>>>::empty());
        }
        let mut i: usize = 0;
        while i < keys.len()
            invariant
                i <= keys@.len(),
                ks == keys_view(keys@),
                ks == old(self).instantiations(InstantiationKind::RangeType),
                all_of_length(ks, 1),
                self.wf(),
                self.text() == old(self).text() + range_blocks(ks.take(i as int), old(self).level()),
                self.level() == old(self).level(),
                old(self).level() + 3 <= usize::MAX,
                self.temps() == old(self).temps(),
                self.recorded() == old(self).recorded(),
                self.histories() == old(self).histories(),
            decreases keys@.len() - i,
        {
            proof {
                assert(ks.contains(ks[i as int]));
                assert(ks[i as int] == strings_view(keys@[i as int]@));
            }
            let c = &keys[i][0];
            let s = UserTypeInstantiation::suffix(c.as_str());
            let mut lines: Vec<(usize, String)> = Vec::new();
            let mut l0 = "typedef struct { ".to_owned();
            crate::text::push_string(&mut l0, c);
            l0.push_str(" start; ");
            crate::text::push_string(&mut l0, c);
            l0.push_str(" end; bool inclusive; } Range_");
            crate::text::push_string(&mut l0, &s);
            l0.push_str(";");
            add_line(&mut lines, 0, l0);
            let mut l1 = "Range_".to_owned();
            crate::text::push_string(&mut l1, &s);
            l1.push_str(" make_Range_");
            crate::text::push_string(&mut l1, &s);
            l1.push_str("(");
            crate::text::push_string(&mut l1, c);
            l1.push_str(" start, ");
            crate::text::push_string(&mut l1, c);
            l1.push_str(" end, bool inclusive) {");
            add_line(&mut lines, 0, l1);
            let mut l2 = "Range_".to_owned();
            crate::text::push_string(&mut l2, &s);
            l2.push_str(" r; r.start = start; r.end = end; r.inclusive = inclusive;");
            add_line(&mut lines, 1, l2);
            add_line(&mut lines, 1, "return r;".to_owned());
            add_line(&mut lines, 0, "}".to_owned());
            add_line(&mut lines, 0, "".to_owned());
            proof {
                assert(exec_lines_view(lines@) =~= range_lines(ks[i as int]));
            }
            self.write_lines(&lines);
            proof {
                let p = ks.take(i + 1);
                assert(p.drop_last() =~= ks.take(i as int));
                assert(p.last() == ks[i as int]);
            }
            i = i + 1;
        }
        proof {
            assert(ks.take(i as int) =~= ks);
        }
    }
}

} // verus!

verus! {

/// The definitions for arrays over the C type of `key`, at level `n`.
pub open spec fn array_block(key: Seq<Seq<char>>, n: nat) -> Seq<char> {
    let c = key[0];
    let s = suffix_text(c);
    lines_text(shifted(crate::c_templates::array_make_lines(c, s), n)) + lines_text(
        shifted(crate::c_templates::array_concat_lines(c, s), n),
    ) + lines_text(shifted(crate::c_templates::array_repeat_lines(c, s), n))
}

pub open spec fn array_blocks(ks: Seq<Seq<Seq<char>>>, n: nat) -> Seq<char>
    decreases ks.len(),
{
    if ks.len() == 0 {
        Seq::empty()
    } else {
        array_blocks(ks.drop_last(), n) + array_block(ks.last(), n)
    }
}

/// How keys of C type `k` are compared in a map's probe.
pub open spec fn key_eq_text(k: Seq<char>) -> Seq<char> {
    if k == "const char*"@ {
        "strcmp(a, b) == 0"@
    } else {
        "a == b"@
    }
}

/// How keys of C type `k` are hashed.
pub open spec fn key_hash_text(k: Seq<char>) -> Seq<char> {
    if k == "const char*"@ {
        "string_hash(key)"@
    } else if k == "double"@ {
        "double_hash(key)"@
    } else {
        "int_hash((uint64_t)key)"@
    }
}

/// The definitions for maps from the first C type of `key` to the second,
/// at level `n`.
pub open spec fn map_block(key: Seq<Seq<char>>, n: nat) -> Seq<char> {
    let k = key[0];
    let v = key[1];
    let x = suffix_text(k) + "_"@ + suffix_text(v);
    let m = "Map_"@ + x;
    let slot = m + "_Slot"@;
    lines_text(shifted(crate::c_templates::map_decls_lines(k, v, x, m, slot), n)) + lines_text(
        shifted(crate::c_templates::map_probe_lines(k, x, slot, key_eq_text(k), key_hash_text(k)), n),
    ) + lines_text(shifted(crate::c_templates::map_resize_lines(x, m, slot), n)) + lines_text(
        shifted(crate::c_templates::map_get_lines(k, v, x, m), n),
    ) + lines_text(shifted(crate::c_templates::map_set_lines(k, v, x, m), n)) + lines_text(
        shifted(crate::c_templates::map_make_lines(k, v, x, m), n),
    )
}

pub open spec fn map_blocks(ks: Seq<Seq<Seq<char>>>, n: nat) -> Seq<char>
    decreases ks.len(),
{
    if ks.len() == 0 {
        Seq::empty()
    } else {
        map_blocks(ks.drop_last(), n) + map_block(ks.last(), n)
    }
}

/// The definitions for the history of values of the C type of `key`, at
/// level `n`.
pub open spec fn history_block(key: Seq<Seq<char>>, n: nat) -> Seq<char> {
    let c = key[0];
    let s = suffix_text(c);
    let h = "History_"@ + s;
    lines_text(shifted(crate::c_templates::history_struct_lines(c, s, h), n)) + lines_text(
        shifted(crate::c_templates::history_alloc_lines(c, s, h), n),
    ) + lines_text(shifted(crate::c_templates::history_check_log_lines(c, s, h), n)) + lines_text(
        shifted(crate::c_templates::history_log_lines(c, s, h), n),
    ) + lines_text(shifted(crate::c_templates::history_assign_lines(c, s, h), n)) + lines_text(
        shifted(crate::c_templates::history_access_lines(c, s, h), n),
    ) + lines_text(shifted(crate::c_templates::history_tt_write_lines(c, s, h), n))
}

pub open spec fn history_blocks(ks: Seq<Seq<Seq<char>>>, n: nat) -> Seq<char>
    decreases ks.len(),
{
    if ks.len() == 0 {
        Seq::empty()
    } else {
        history_blocks(ks.drop_last(), n) + history_block(ks.last(), n)
    }
}

impl CodeGenerator {
    /// Defines, for each array instantiation in sorted order, its C struct,
    /// constructor, concatenation and repetition.
    #[verifier::rlimit(40)]
    pub fn write_array_types(&mut self)
        requires
            old(self).wf(),
            old(self).level() + 3 <= usize::MAX,
        ensures
            final(self).wf(),
            final(self).text() == old(self).text() + array_blocks(
                old(self).instantiations(InstantiationKind::ArrayType),
                old(self).level(),
            ),
            final(self).level() == old(self).level(),
            final(self).temps() == old(self).temps(),
            final(self).recorded() == old(self).recorded(),
            final(self).histories() == old(self).histories(),
    {
        let keys = copy_keys(&self.array_instantiations);
        let ghost ks = keys_view(keys@);
        let ghost n = old(self).level();
        proof {
            assert(ks.take(0) =~= Seq::<Seq<Seq<char>>>::empty());
        }
        let mut i: usize = 0;
        while i < keys.len()
            invariant
                i <= keys@.len(),
                ks == keys_view(keys@),
                ks == old(self).instantiations(InstantiationKind::ArrayType),
                all_of_length(ks, 1),
                n == old(self).level(),
                self.wf(),
                self.text() == old(self).text() + array_blocks(ks.take(i as int), n),
                self.level() == n,
                n + 3 <= usize::MAX,
                self.temps() == old(self).temps(),
                self.recorded() == old(self).recorded(),
                self.histories() == old(self).histories(),
            decreases keys@.len() - i,
        {
            proof {
                assert(ks.contains(ks[i as int]));
                assert(ks[i as int] == strings_view(keys@[i as int]@));
            }
            let c = &keys[i][0];
            let s = UserTypeInstantiation::suffix(c.as_str());
            let ghost before = self.text();
            self.write_lines(&crate::c_templates::array_make_exec(c, &s));
            self.write_lines(&crate::c_templates::array_concat_exec(c, &s));
            self.write_lines(&crate::c_templates::array_repeat_exec(c, &s));
            proof {
                let p = ks.take(i + 1);
                assert(p.drop_last() =~= ks.take(i as int));
                assert(p.last() == ks[i as int]);
                assert(self.text() =~= before + array_block(ks[i as int], n));
            }
            i = i + 1;
        }
        proof {
            assert(ks.take(i as int) =~= ks);
        }
    }

    /// Defines, for each map instantiation in sorted order, its C structs
    /// and its probe, resize, get, set and constructor functions.
    #[verifier::rlimit(80)]
    pub fn write_map_types(&mut self)
        requires
            old(self).wf(),
            old(self).level() + 3 <= usize::MAX,
        ensures
            final(self).wf(),
            final(self).text() == old(self).text() + map_blocks(
                old(self).instantiations(InstantiationKind::MapType),
                old(self).level(),
            ),
            final(self).level() == old(self).level(),
            final(self).temps() == old(self).temps(),
            final(self).recorded() == old(self).recorded(),
            final(self).histories() == old(self).histories(),
    {
        let keys = copy_keys(&self.map_instantiations);
        let ghost ks = keys_view(keys@);
        let ghost n = old(self).level();
        proof {
            assert(ks.take(0) =~= Seq::<Seq<Seq<char>>>::empty());
        }
        let mut i: usize = 0;
        while i < keys.len()
            invariant
                i <= keys@.len(),
                ks == keys_view(keys@),
                ks == old(self).instantiations(InstantiationKind::MapType),
                all_of_length(ks, 2),
                n == old(self).level(),
                self.wf(),
                self.text() == old(self).text() + map_blocks(ks.take(i as int), n),
                self.level() == n,
                n + 3 <= usize::MAX,
                self.temps() == old(self).temps(),
                self.recorded() == old(self).recorded(),
                self.histories() == old(self).histories(),
            decreases keys@.len() - i,
        {
            proof {
                assert(ks.contains(ks[i as int]));
                assert(ks[i as int] == strings_view(keys@[i as int]@));
            }
            let k = &keys[i][0];
            let v = &keys[i][1];
            let mut x = UserTypeInstantiation::suffix(k.as_str());
            x.push_str("_");
            crate::text::push_string(&mut x, &UserTypeInstantiation::suffix(v.as_str()));
            let mut m = "Map_".to_owned();
            crate::text::push_string(&mut m, &x);
            let mut slot = m.clone();
            slot.push_str("_Slot");
            let key_eq = if same_text(k, "const char*") {
                "strcmp(a, b) == 0".to_owned()
            } else {
                "a == b".to_owned()
            };
            let key_hash = if same_text(k, "const char*") {
                "string_hash(key)".to_owned()
            } else if same_text(k, "double") {
                "double_hash(key)".to_owned()
            } else {
                "int_hash((uint64_t)key)".to_owned()
            };
            let ghost before = self.text();
            self.write_lines(&crate::c_templates::map_decls_exec(k, v, &x, &m, &slot));
            self.write_lines(&crate::c_templates::map_probe_exec(k, &x, &slot, &key_eq, &key_hash));
            self.write_lines(&crate::c_templates::map_resize_exec(&x, &m, &slot));
            self.write_lines(&crate::c_templates::map_get_exec(k, v, &x, &m));
            self.write_lines(&crate::c_templates::map_set_exec(k, v, &x, &m));
            self.write_lines(&crate::c_templates::map_make_exec(k, v, &x, &m));
            proof {
                let p = ks.take(i + 1);
                assert(p.drop_last() =~= ks.take(i as int));
                assert(p.last() == ks[i as int]);
                assert(x@ =~= suffix_text(k@) + "_"@ + suffix_text(v@));
                assert(m@ =~= "Map_"@ + x@);
                assert(slot@ =~= m@ + "_Slot"@);
                assert(self.text() =~= before + map_block(ks[i as int], n));
            }
            i = i + 1;
        }
        proof {
            assert(ks.take(i as int) =~= ks);
        }
    }

    /// Defines, for each C type whose history is kept, in sorted order,
    /// its history struct and the functions that allocate, assign, read,
    /// log and rewrite it.
    #[verifier::rlimit(40)]
    pub fn write_history_types(&mut self)
        requires
            old(self).wf(),
            old(self).level() + 3 <= usize::MAX,
        ensures
            final(self).wf(),
            final(self).text() == old(self).text() + history_blocks(old(self).histories(), old(self).level()),
            final(self).level() == old(self).level(),
            final(self).temps() == old(self).temps(),
            final(self).recorded() == old(self).recorded(),
            final(self).histories() == old(self).histories(),
    {
        let keys = copy_keys(&self.history_instantiations);
        let ghost ks = keys_view(keys@);
        let ghost n = old(self).level();
        proof {
            assert(ks.take(0) =~= Seq::<Seq<Seq<char>>>::empty());
        }
        let mut i: usize = 0;
        while i < keys.len()
            invariant
                i <= keys@.len(),
                ks == keys_view(keys@),
                ks == old(self).histories(),
                all_of_length(ks, 1),
                n == old(self).level(),
                self.wf(),
                self.text() == old(self).text() + history_blocks(ks.take(i as int), n),
                self.level() == n,
                n + 3 <= usize::MAX,
                self.temps() == old(self).temps(),
                self.recorded() == old(self).recorded(),
                self.histories() == old(self).histories(),
            decreases keys@.len() - i,
        {
            proof {
                assert(ks.contains(ks[i as int]));
                assert(ks[i as int] == strings_view(keys@[i as int]@));
            }
            let c = &keys[i][0];
            let s = UserTypeInstantiation::suffix(c.as_str());
            let mut h = "History_".to_owned();
            crate::text::push_string(&mut h, &s);
            let ghost before = self.text();
            self.write_lines(&crate::c_templates::history_struct_exec(c, &s, &h));
            self.write_lines(&crate::c_templates::history_alloc_exec(c, &s, &h));
            self.write_lines(&crate::c_templates::history_check_log_exec(c, &s, &h));
            self.write_lines(&crate::c_templates::history_log_exec(c, &s, &h));
            self.write_lines(&crate::c_templates::history_assign_exec(c, &s, &h));
            self.write_lines(&crate::c_templates::history_access_exec(c, &s, &h));
            self.write_lines(&crate::c_templates::history_tt_write_exec(c, &s, &h));
            proof {
                let p = ks.take(i + 1);
                assert(p.drop_last() =~= ks.take(i as int));
                assert(p.last() == ks[i as int]);
                assert(h@ =~= "History_"@ + s@);
                assert(self.text() =~= before + history_block(ks[i as int], n));
            }
            i = i + 1;
        }
        proof {
            assert(ks.take(i as int) =~= ks);
        }
    }
}

} // verus!

verus! {

/// The field declarations of a struct, at level `n`: each field's C type
/// and mangled name.
pub open spec fn field_lines_text(fields: Seq<(crate::token::TokenView, TypeView)>, n: nat) -> Seq<char>
    decreases fields.len(),
{
    if fields.len() == 0 {
        Seq::empty()
    } else {
        field_lines_text(fields.drop_last(), n) + line_at(
            n,
            c_type_text(fields.last().1) + " "@ + crate::c_names::mangled(fields.last().0.lexeme) + ";"@,
        )
    }
}

/// The types of a list of fields.
pub open spec fn field_types(fields: Seq<(crate::token::TokenView, TypeView)>) -> Seq<TypeView> {
    fields.map_values(|f: (crate::token::TokenView, TypeView)| f.1)
}

impl CodeGenerator {
    /// Declares the global that holds the history of a variable whose past
    /// states are read or written, of Delo type `delo_type`, and records
    /// that histories of its C type are needed.
    pub fn declare_tracked_variable(&mut self, identifier: &crate::token::Token, delo_type: &TypeExpr)
        requires
            old(self).wf(),
        ensures
            final(self).wf(),
            final(self).text() == old(self).text() + line_at(
                old(self).level(),
                "static History_"@ + suffix_text(c_type_text(delo_type@)) + "* "@ + crate::c_names::mangled(
                    identifier.lexeme@,
                ) + " = NULL;"@,
            ),
            final(self).recorded() == old(self).recorded().union(needed(delo_type@)),
            forall|k: Seq<Seq<char>>| #[trigger] final(self).histories().contains(k) <==> old(self).histories().contains(
                k,
            ) || k == seq![c_type_text(delo_type@)],
            final(self).level() == old(self).level(),
            final(self).temps() == old(self).temps(),
    {
        let c_type = self.map_type(delo_type);
        let suffix = UserTypeInstantiation::suffix(c_type.as_str());
        self.record_history(c_type);
        let mut line = "static History_".to_owned();
        crate::text::push_string(&mut line, &suffix);
        line.push_str("* ");
        crate::text::push_string(&mut line, &mangle(identifier.lexeme.as_str()));
        line.push_str(" = NULL;");
        self.write_line(line.as_str());
    }

    /// Declares the C struct of a struct type without type parameters:
    /// each field with its C type, the instantiations they need recorded.
    pub fn generate_struct_declaration(&mut self, identifier: &crate::token::Token, fields: &Vec<(crate::token::Token, TypeExpr)>)
        requires
            old(self).wf(),
            old(self).level() < usize::MAX,
        ensures
            final(self).wf(),
            final(self).text() == old(self).text() + line_at(
                old(self).level(),
                "typedef struct "@ + crate::c_names::mangled(identifier.lexeme@) + " {"@,
            ) + field_lines_text(crate::types::fields_view(fields@), old(self).level() + 1) + line_at(
                old(self).level(),
                "} "@ + crate::c_names::mangled(identifier.lexeme@) + ";"@,
            ) + line_at(old(self).level(), ""@),
            final(self).recorded() == old(self).recorded().union(
                needed_all(field_types(crate::types::fields_view(fields@))),
            ),
            final(self).level() == old(self).level(),
            final(self).temps() == old(self).temps(),
            final(self).histories() == old(self).histories(),
    {
        let mangled = mangle(identifier.lexeme.as_str());
        let mut open_line = "typedef struct ".to_owned();
        crate::text::push_string(&mut open_line, &mangled);
        open_line.push_str(" {");
        self.write_line(open_line.as_str());
        self.indent();
        let ghost fs = crate::types::fields_view(fields@);
        let ghost start = self.text();
        let ghost n = old(self).level();
        proof {
            crate::types::lemma_fields_view_index(fields@);
            assert(fs.take(0) =~= Seq::<(crate::token::TokenView, TypeView)>::empty());
            assert(field_types(fs.take(0)) =~= Seq::<TypeView>::empty());
            assert(self.recorded().union(needed_all(field_types(fs.take(0)))) =~= self.recorded());
        }
        let mut i: usize = 0;
        while i < fields.len()
            invariant
                i <= fields@.len(),
                fs == crate::types::fields_view(fields@),
                fs.len() == fields@.len(),
                forall|j: int| 0 <= j < fields@.len() ==> #[trigger] fs[j] == (fields@[j].0@, fields@[j].1@),
                n == old(self).level(),
                self.level() == n + 1,
                self.wf(),
                self.text() == start + field_lines_text(fs.take(i as int), n + 1),
                self.recorded() == old(self).recorded().union(needed_all(field_types(fs.take(i as int)))),
                self.temps() == old(self).temps(),
                self.histories() == old(self).histories(),
            decreases fields@.len() - i,
        {
            let c_field_type = self.map_type(&fields[i].1);
            let mut line = c_field_type;
            line.push_str(" ");
            crate::text::push_string(&mut line, &mangle(fields[i].0.lexeme.as_str()));
            line.push_str(";");
            self.write_line(line.as_str());
            proof {
                let p = fs.take(i + 1);
                assert(p.drop_last() =~= fs.take(i as int));
                assert(p.last() == fs[i as int]);
                assert(field_types(p).drop_last() =~= field_types(fs.take(i as int)));
                assert(field_types(p).last() == fields@[i as int].1@);
                assert(self.recorded() =~= old(self).recorded().union(needed_all(field_types(p))));
            }
            i = i + 1;
        }
        proof {
            assert(fs.take(i as int) =~= fs);
        }
        self.un_indent();
        let mut close_line = "} ".to_owned();
        crate::text::push_string(&mut close_line, &mangled);
        close_line.push_str(";");
        self.write_line(close_line.as_str());
        self.write_line("");
    }
}

} // verus!

verus! {

/// The C name of the tuple of C types `es`.
pub open spec fn tuple_name(es: Seq<Seq<char>>) -> Seq<char> {
    "Tuple"@ + crate::c_names::suffixes_text(es)
}

/// The element declarations of a tuple struct, at level `n`.
pub open spec fn element_lines_text(es: Seq<Seq<char>>, n: nat) -> Seq<char>
    decreases es.len(),
{
    if es.len() == 0 {
        Seq::empty()
    } else {
        element_lines_text(es.drop_last(), n) + line_at(
            n,
            es.last() + " _"@ + crate::text::decimal((es.len() - 1) as nat) + ";"@,
        )
    }
}

/// The C struct of the tuple of C types `es`, at level `n`.
pub open spec fn tuple_block(es: Seq<Seq<char>>, n: nat) -> Seq<char> {
    line_at(n, "typedef struct "@ + tuple_name(es) + " {"@) + element_lines_text(es, n + 1) + line_at(
        n,
        "} "@ + tuple_name(es) + ";"@,
    ) + line_at(n, ""@)
}

pub open spec fn tuple_blocks(order: Seq<Seq<Seq<char>>>, n: nat) -> Seq<char>
    decreases order.len(),
{
    if order.len() == 0 {
        Seq::empty()
    } else {
        tuple_blocks(order.drop_last(), n) + tuple_block(order.last(), n)
    }
}

/// Every element type of a tuple in `order` that is itself a tuple type
/// (its name starts with `Tuple_`) is the name of a tuple defined earlier.
pub open spec fn defined_before_use(order: Seq<Seq<Seq<char>>>) -> bool {
    forall|j: int, e: int|
        0 <= j < order.len() && 0 <= e < order[j].len() && crate::lines::starts_with(#[trigger] order[j][e], "Tuple_"@)
            ==> exists|i: int| 0 <= i < j && #[trigger] tuple_name(order[i]) == order[j][e]
}

/// Whether a C type names a tuple type.
pub(crate) fn is_tuple_c_type(c: &String) -> (b: bool)
    ensures
        b == crate::lines::starts_with(c@, "Tuple_"@),
{
    let cs = crate::text::chars_of(c.as_str());
    let p = crate::text::chars_of("Tuple_");
    if cs.len() < p.len() {
        proof {
            reveal_strlit("Tuple_");
        }
        return false;
    }
    let mut i: usize = 0;
    while i < p.len()
        invariant
            i <= p@.len(),
            p@.len() <= cs@.len(),
            cs@ == c@,
            p@ == "Tuple_"@,
            forall|j: int| 0 <= j < i ==> cs@[j] == p@[j],
        decreases p@.len() - i,
    {
        if cs[i] != p[i] {
            proof {
                assert(cs@.take(p@.len() as int)[i as int] != p@[i as int]);
            }
            return false;
        }
        i = i + 1;
    }
    proof {
        assert(cs@.take(p@.len() as int) =~= p@);
    }
    true
}

/// Whether every element type of a tuple that is a tuple type is among
/// the names already defined.
fn dependencies_defined(elements: &Vec<String>, defined: &Vec<String>) -> (b: bool)
    ensures
        b == forall|e: int| 0 <= e < elements@.len() && crate::lines::starts_with(#[trigger] elements@[e]@, "Tuple_"@)
            ==> strings_view(defined@).contains(elements@[e]@),
{
    let mut e: usize = 0;
    while e < elements.len()
        invariant
            e <= elements@.len(),
            forall|k: int| 0 <= k < e && crate::lines::starts_with(#[trigger] elements@[k]@, "Tuple_"@)
                ==> strings_view(defined@).contains(elements@[k]@),
        decreases elements@.len() - e,
    {
        if is_tuple_c_type(&elements[e]) {
            let mut found = false;
            let mut d: usize = 0;
            while d < defined.len()
                invariant
                    d <= defined@.len(),
                    e < elements@.len(),
                    found ==> strings_view(defined@).contains(elements@[e as int]@),
                    !found ==> forall|k: int| 0 <= k < d ==> defined@[k]@ != elements@[e as int]@,
                decreases defined@.len() - d,
            {
                if defined[d] == elements[e] {
                    proof {
                        assert(strings_view(defined@)[d as int] == elements@[e as int]@);
                    }
                    found = true;
                }
                d = d + 1;
            }
            if !found {
                proof {
                    if strings_view(defined@).contains(elements@[e as int]@) {
                        let k = choose|k: int| 0 <= k < strings_view(defined@).len() && strings_view(defined@)[k]
                            == elements@[e as int]@;
                        assert(defined@[k]@ == elements@[e as int]@);
                    }
                }
                return false;
            }
        }
        e = e + 1;
    }
    true
}

impl CodeGenerator {
    /// Writes the C struct of one tuple type.
    fn write_tuple_struct(&mut self, elements: &Vec<String>) -> (name: String)
        requires
            old(self).level() < usize::MAX,
        ensures
            name@ == tuple_name(strings_view(elements@)),
            final(self).text() == old(self).text() + tuple_block(strings_view(elements@), old(self).level()),
            final(self).level() == old(self).level(),
            final(self).temps() == old(self).temps(),
            final(self).recorded() == old(self).recorded(),
            final(self).histories() == old(self).histories(),
            final(self).wf() == old(self).wf(),
    {
        let name = crate::c_names::tuple_c_type_name(elements.as_slice());
        let mut open_line = "typedef struct ".to_owned();
        crate::text::push_string(&mut open_line, &name);
        open_line.push_str(" {");
        self.write_line(open_line.as_str());
        self.indent();
        let ghost es = strings_view(elements@);
        let ghost start = self.text();
        let ghost n = old(self).level();
        proof {
            assert(es.take(0) =~= Seq::<Seq<char>>::empty());
        }
        let mut i: usize = 0;
        while i < elements.len()
            invariant
                i <= elements@.len(),
                es == strings_view(elements@),
                n == old(self).level(),
                self.level() == n + 1,
                self.text() == start + element_lines_text(es.take(i as int), n + 1),
                self.temps() == old(self).temps(),
                self.recorded() == old(self).recorded(),
                self.histories() == old(self).histories(),
                self.wf() == old(self).wf(),
            decreases elements@.len() - i,
        {
            let mut line = elements[i].clone();
            line.push_str(" _");
            push_decimal(&mut line, i as u64);
            line.push_str(";");
            self.write_line(line.as_str());
            proof {
                let p = es.take(i + 1);
                assert(p.drop_last() =~= es.take(i as int));
                assert(p.last() == elements@[i as int]@);
            }
            i = i + 1;
        }
        proof {
            assert(es.take(i as int) =~= es);
        }
        self.un_indent();
        let mut close_line = "} ".to_owned();
        crate::text::push_string(&mut close_line, &name);
        close_line.push_str(";");
        self.write_line(close_line.as_str());
        self.write_line("");
        name
    }

    /// Defines the C struct of each tuple instantiation, each after the
    /// tuples it holds: passes over the instantiations, in sorted order,
    /// define every tuple whose tuple elements are defined, until a pass
    /// defines none.  Each tuple is defined once.
    pub fn write_tuple_types(&mut self)
        requires
            old(self).wf(),
            old(self).level() < usize::MAX,
        ensures
            final(self).wf(),
            exists|order: Seq<Seq<Seq<char>>>|
                {
                    &&& #[trigger] final(self).text() == old(self).text() + tuple_blocks(order, old(self).level())
                    &&& order.no_duplicates()
                    &&& forall|j: int| 0 <= j < order.len() ==> old(self).instantiations(
                        InstantiationKind::TupleType,
                    ).contains(#[trigger] order[j])
                    &&& defined_before_use(order)
                },
            final(self).level() == old(self).level(),
            final(self).temps() == old(self).temps(),
            final(self).recorded() == old(self).recorded(),
            final(self).histories() == old(self).histories(),
    {
        let mut remaining = copy_keys(&self.tuple_instantiations);
        let ghost all = keys_view(remaining@);
        let ghost n = old(self).level();
        let mut defined: Vec<String> = Vec::new();
        let ghost mut order: Seq<Seq<Seq<char>>> = Seq::empty();
        proof {
            assert(all == old(self).instantiations(InstantiationKind::TupleType));
            assert forall|a: int, b: int| 0 <= a < b < all.len() implies all[a] != all[b] by {
                crate::sorted_keys::lemma_key_irreflexive(all[a]);
            }
            assert(strings_view(defined@) =~= order.map_values(|o: Seq<Seq<char>>| tuple_name(o)));
        }
        while remaining.len() > 0
            invariant
                n == old(self).level(),
                n < usize::MAX,
                self.wf(),
                self.level() == n,
                self.temps() == old(self).temps(),
                self.recorded() == old(self).recorded(),
                self.histories() == old(self).histories(),
                all == old(self).instantiations(InstantiationKind::TupleType),
                self.text() == old(self).text() + tuple_blocks(order, n),
                order.no_duplicates(),
                forall|j: int| 0 <= j < order.len() ==> all.contains(#[trigger] order[j]),
                defined_before_use(order),
                strings_view(defined@) == order.map_values(|o: Seq<Seq<char>>| tuple_name(o)),
                keys_view(remaining@).no_duplicates(),
                forall|j: int| 0 <= j < remaining@.len() ==> all.contains(#[trigger] keys_view(remaining@)[j]),
                forall|j: int| 0 <= j < remaining@.len() ==> !order.contains(#[trigger] keys_view(remaining@)[j]),
            decreases remaining@.len(),
        {
            let mut progressed = false;
            let mut still_blocked: Vec<Vec<String>> = Vec::new();
            let ghost rs = keys_view(remaining@);
            let ghost order_before = order;
            let mut r: usize = 0;
            while r < remaining.len()
                invariant
                    r <= remaining@.len(),
                    rs == keys_view(remaining@),
                    n == old(self).level(),
                    n < usize::MAX,
                    self.wf(),
                    self.level() == n,
                    self.temps() == old(self).temps(),
                    self.recorded() == old(self).recorded(),
                    self.histories() == old(self).histories(),
                    all == old(self).instantiations(InstantiationKind::TupleType),
                    self.text() == old(self).text() + tuple_blocks(order, n),
                    order.no_duplicates(),
                    forall|j: int| 0 <= j < order.len() ==> all.contains(#[trigger] order[j]),
                    defined_before_use(order),
                    strings_view(defined@) == order.map_values(|o: Seq<Seq<char>>| tuple_name(o)),
                    rs.no_duplicates(),
                    forall|j: int| 0 <= j < rs.len() ==> all.contains(#[trigger] rs[j]),
                    forall|j: int| 0 <= j < rs.len() ==> !order_before.contains(#[trigger] rs[j]),
                    forall|j: int| r <= j < rs.len() ==> !order.contains(#[trigger] rs[j]),
                    order.len() >= order_before.len(),
                    order.take(order_before.len() as int) == order_before,
                    forall|j: int| order_before.len() <= j < order.len() ==> exists|k: int| 0 <= k < r && #[trigger] order[j] == rs[k],
                    keys_view(still_blocked@).no_duplicates(),
                    forall|j: int| 0 <= j < still_blocked@.len() ==> exists|k: int| 0 <= k < r && #[trigger] keys_view(still_blocked@)[j] == rs[k],
                    forall|j: int| 0 <= j < still_blocked@.len() ==> !order.contains(#[trigger] keys_view(still_blocked@)[j]),
                    progressed ==> still_blocked@.len() < r,
                    !progressed ==> still_blocked@.len() == r,
                    !progressed ==> order == order_before,
                decreases remaining@.len() - r,
            {
                let elements = &remaining[r];
                if dependencies_defined(elements, &defined) {
                    let name = self.write_tuple_struct(elements);
                    let ghost new_key = rs[r as int];
                    let ghost old_order = order;
                    let ghost old_defined = strings_view(defined@);
                    proof {
                        order = order.push(new_key);
                        assert(new_key == strings_view(elements@));
                    }
                    defined.push(name);
                    progressed = true;
                    proof {
                        assert(strings_view(defined@) =~= old_defined.push(tuple_name(new_key)));
                        assert(order.map_values(|o: Seq<Seq<char>>| tuple_name(o)) =~= old_order.map_values(
                            |o: Seq<Seq<char>>| tuple_name(o),
                        ).push(tuple_name(new_key)));
                        assert(strings_view(defined@) =~= order.map_values(|o: Seq<Seq<char>>| tuple_name(o)));
                        assert(order.drop_last() == old_order);
                        assert(order.take(order_before.len() as int) =~= old_order.take(order_before.len() as int));
                        assert forall|a: int, b: int| 0 <= a < order.len() && 0 <= b < order.len() && a != b implies order[a] != order[b] by {
                            if a < old_order.len() && b < old_order.len() {
                                assert(old_order[a] != old_order[b]);
                            } else if a == old_order.len() {
                                assert(old_order.contains(old_order[b]));
                            } else {
                                assert(old_order.contains(old_order[a]));
                            }
                        }
                        assert forall|j: int, e: int|
                            0 <= j < order.len() && 0 <= e < order[j].len() && crate::lines::starts_with(
                                #[trigger] order[j][e],
                                "Tuple_"@,
                            ) implies exists|i: int| 0 <= i < j && #[trigger] tuple_name(order[i]) == order[j][e] by {
                            if j < old_order.len() {
                                assert(old_order[j] == order[j]);
                                let i = choose|i: int| 0 <= i < j && #[trigger] tuple_name(old_order[i]) == old_order[j][e];
                                assert(order[i] == old_order[i]);
                            } else {
                                assert(order[j] == strings_view(elements@));
                                assert(order[j][e] == elements@[e]@);
                                let names = old_order.map_values(|o: Seq<Seq<char>>| tuple_name(o));
                                assert(names.contains(elements@[e]@));
                                let i = choose|i: int| 0 <= i < names.len() && names[i] == elements@[e]@;
                                assert(tuple_name(order[i]) == order[j][e]);
                            }
                        }
                        assert forall|j: int| r + 1 <= j < rs.len() implies !order.contains(#[trigger] rs[j]) by {
                            if order.contains(rs[j]) {
                                let k = choose|k: int| 0 <= k < order.len() && order[k] == rs[j];
                                if k < old_order.len() {
                                    assert(old_order.contains(rs[j]));
                                } else {
                                    assert(rs[j] == rs[r as int]);
                                }
                            }
                        }
                        assert forall|j: int| 0 <= j < still_blocked@.len() implies !order.contains(#[trigger] keys_view(still_blocked@)[j]) by {
                            let k = choose|k: int| 0 <= k < r && #[trigger] keys_view(still_blocked@)[j] == rs[k];
                            if order.contains(keys_view(still_blocked@)[j]) {
                                let m = choose|m: int| 0 <= m < order.len() && order[m] == keys_view(still_blocked@)[j];
                                if m < old_order.len() {
                                    assert(old_order.contains(keys_view(still_blocked@)[j]));
                                } else {
                                    assert(rs[k] == rs[r as int]);
                                }
                            }
                        }
                        assert forall|j: int| order_before.len() <= j < order.len() implies exists|k: int| 0 <= k < r + 1 && #[trigger] order[j] == rs[k] by {
                            if j < old_order.len() {
                                assert(old_order[j] == order[j]);
                                let k = choose|k: int| 0 <= k < r && #[trigger] old_order[j] == rs[k];
                            } else {
                                assert(order[j] == rs[r as int]);
                            }
                        }
                    }
                } else {
                    let ghost before_blocked = keys_view(still_blocked@);
                    still_blocked.push(copy_strings(elements));
                    proof {
                        assert(keys_view(still_blocked@) =~= before_blocked.push(rs[r as int]));
                        assert forall|a: int, b: int| 0 <= a < keys_view(still_blocked@).len() && 0 <= b < keys_view(still_blocked@).len() && a != b implies keys_view(still_blocked@)[a] != keys_view(still_blocked@)[b] by {
                            if a < before_blocked.len() && b < before_blocked.len() {
                                assert(before_blocked[a] != before_blocked[b]);
                            } else if a == before_blocked.len() {
                                let k = choose|k: int| 0 <= k < r && #[trigger] before_blocked[b] == rs[k];
                            } else {
                                let k = choose|k: int| 0 <= k < r && #[trigger] before_blocked[a] == rs[k];
                            }
                        }
                        assert forall|j: int| 0 <= j < still_blocked@.len() implies exists|k: int| 0 <= k < r + 1 && #[trigger] keys_view(still_blocked@)[j] == rs[k] by {
                            if j < before_blocked.len() {
                                let k = choose|k: int| 0 <= k < r && #[trigger] before_blocked[j] == rs[k];
                            } else {
                                assert(keys_view(still_blocked@)[j] == rs[r as int]);
                            }
                        }
                    }
                }
                r = r + 1;
            }
            if !progressed {
                break;
            }
            proof {
                assert forall|j: int| 0 <= j < still_blocked@.len() implies all.contains(#[trigger] keys_view(still_blocked@)[j]) by {
                    let k = choose|k: int| 0 <= k < r && #[trigger] keys_view(still_blocked@)[j] == rs[k];
                }
            }
            remaining = still_blocked;
        }
    }
}

} // verus!

verus! {

/// The pieces of `s` between its newlines (one more than it has newlines).
pub open spec fn split_newlines(s: Seq<char>) -> Seq<Seq<char>>
    decreases s.len(),
{
    if s.len() == 0 {
        seq![Seq::empty()]
    } else {
        let p = split_newlines(s.drop_last());
        if s.last() == '\n' {
            p.push(Seq::empty())
        } else {
            p.update(p.len() - 1, p.last().push(s.last()))
        }
    }
}

/// A line that is white space only.
pub open spec fn blank(l: Seq<char>) -> bool {
    forall|i: int| 0 <= i < l.len() ==> crate::lines::white_space(#[trigger] l[i])
}

/// The number of spaces a line starts with.
pub open spec fn leading_spaces(l: Seq<char>) -> nat
    decreases l.len(),
{
    if l.len() > 0 && l[0] == ' ' {
        1 + leading_spaces(l.skip(1))
    } else {
        0
    }
}

/// The fewest leading spaces of the lines that are not blank, if any is.
pub open spec fn min_indent(ls: Seq<Seq<char>>) -> Option<nat>
    decreases ls.len(),
{
    if ls.len() == 0 {
        None
    } else {
        let rest = min_indent(ls.drop_last());
        if blank(ls.last()) {
            rest
        } else {
            let m = leading_spaces(ls.last());
            match rest {
                None => Some(m),
                Some(r) => Some(if m < r { m } else { r }),
            }
        }
    }
}

/// A line without `m` leading spaces, where it has them; a blank line
/// becomes empty.
pub open spec fn dedented(l: Seq<char>, m: nat) -> Seq<char> {
    if blank(l) {
        Seq::empty()
    } else if m > 0 && leading_spaces(l) >= m {
        l.skip(m as int)
    } else {
        l
    }
}

/// The lines dedented by `m`, joined by newlines.
pub open spec fn joined_dedented(ls: Seq<Seq<char>>, m: nat) -> Seq<char>
    decreases ls.len(),
{
    if ls.len() == 0 {
        Seq::empty()
    } else if ls.len() == 1 {
        dedented(ls[0], m)
    } else {
        joined_dedented(ls.drop_last(), m) + seq!['\n'] + dedented(ls.last(), m)
    }
}

/// What `write_raw` writes for `content`: content that starts with a
/// newline loses it, and its lines lose the indentation common to its
/// lines that are not blank, blank lines becoming empty; other content is
/// written as it is.
pub open spec fn raw_text(content: Seq<char>) -> Seq<char> {
    if content.len() > 0 && content[0] == '\n' {
        let ls = split_newlines(content.skip(1));
        let m = match min_indent(ls) {
            Some(m) => m,
            None => 0,
        };
        joined_dedented(ls, m)
    } else {
        content
    }
}

/// The values of a list of lines.
pub open spec fn char_lines_view(ls: Seq<Vec<char>>) -> Seq<Seq<char>> {
    ls.map_values(|l: Vec<char>| l@)
}

fn is_blank(l: &Vec<char>) -> (b: bool)
    ensures
        b == blank(l@),
{
    let mut i: usize = 0;
    while i < l.len()
        invariant
            i <= l@.len(),
            forall|j: int| 0 <= j < i ==> crate::lines::white_space(#[trigger] l@[j]),
        decreases l@.len() - i,
    {
        if !crate::lines::is_white_space(l[i]) {
            return false;
        }
        i = i + 1;
    }
    true
}

fn count_leading_spaces(l: &Vec<char>) -> (n: usize)
    ensures
        n == leading_spaces(l@),
        n <= l@.len(),
{
    let mut i: usize = 0;
    proof {
        assert(l@.skip(0) =~= l@);
    }
    while i < l.len() && l[i] == ' '
        invariant
            i <= l@.len(),
            leading_spaces(l@) == i + leading_spaces(l@.skip(i as int)),
        decreases l@.len() - i,
    {
        proof {
            assert(l@.skip(i as int).skip(1) =~= l@.skip(i + 1));
        }
        i = i + 1;
    }
    i
}

/// The lines of `cs` from position `start` on, split at newlines.
fn split_at_newlines(cs: &Vec<char>, start: usize) -> (r: Vec<Vec<char>>)
    requires
        start <= cs@.len(),
    ensures
        char_lines_view(r@) == split_newlines(cs@.skip(start as int)),
{
    let ghost t = cs@.skip(start as int);
    let mut out: Vec<Vec<char>> = Vec::new();
    let mut current: Vec<char> = Vec::new();
    let mut i: usize = start;
    proof {
        assert(t.take(0) =~= Seq::<char>::empty());
        assert(char_lines_view(out@).push(current@) =~= split_newlines(t.take(0)));
    }
    while i < cs.len()
        invariant
            start <= i <= cs@.len(),
            t == cs@.skip(start as int),
            char_lines_view(out@).push(current@) == split_newlines(t.take(i - start)),
        decreases cs@.len() - i,
    {
        let c = cs[i];
        let ghost before = char_lines_view(out@);
        let ghost cur = current@;
        proof {
            let p = t.take(i - start + 1);
            assert(p.drop_last() =~= t.take(i - start));
            assert(p.last() == c);
        }
        if c == '\n' {
            out.push(current);
            current = Vec::new();
            proof {
                assert(char_lines_view(out@) =~= before.push(cur));
                assert(char_lines_view(out@).push(current@) =~= split_newlines(t.take(i - start + 1)));
            }
        } else {
            current.push(c);
            proof {
                assert(char_lines_view(out@).push(current@) =~= before.push(cur).update(before.len() as int, cur.push(c)));
            }
        }
        i = i + 1;
    }
    proof {
        assert(t.take(i - start) =~= t);
    }
    let ghost before = char_lines_view(out@);
    out.push(current);
    proof {
        assert(char_lines_view(out@) =~= before.push(current@));
    }
    out
}

impl CodeGenerator {
    /// Writes `content`, ignoring the indentation level: content that
    /// starts with a newline is written without it, and with the
    /// indentation its lines that are not blank share taken off each line
    /// (blank lines written empty); other content is written as it is.
    pub fn write_raw(&mut self, content: &str)
        ensures
            final(self).text() == old(self).text() + raw_text(content@),
            final(self).level() == old(self).level(),
            final(self).temps() == old(self).temps(),
            final(self).recorded() == old(self).recorded(),
            final(self).histories() == old(self).histories(),
            forall|k: InstantiationKind| #[trigger] final(self).instantiations(k) == old(self).instantiations(k),
            final(self).wf() == old(self).wf(),
    {
        let cs = crate::text::chars_of(content);
        if cs.len() == 0 || cs[0] != '\n' {
            self.output.push_str(content);
            return;
        }
        let lines = split_at_newlines(&cs, 1);
        let ghost ls = char_lines_view(lines@);
        let mut min: Option<usize> = None;
        let mut i: usize = 0;
        proof {
            assert(ls.take(0) =~= Seq::<Seq<char>>::empty());
        }
        while i < lines.len()
            invariant
                i <= lines@.len(),
                ls == char_lines_view(lines@),
                match min {
                    Some(m) => min_indent(ls.take(i as int)) == Some(m as nat),
                    None => min_indent(ls.take(i as int)) is None,
                },
            decreases lines@.len() - i,
        {
            proof {
                let p = ls.take(i + 1);
                assert(p.drop_last() =~= ls.take(i as int));
                assert(p.last() == lines@[i as int]@);
            }
            if !is_blank(&lines[i]) {
                let n = count_leading_spaces(&lines[i]);
                min = match min {
                    None => Some(n),
                    Some(r) => Some(if n < r { n } else { r }),
                };
            }
            i = i + 1;
        }
        proof {
            assert(ls.take(i as int) =~= ls);
        }
        let m: usize = match min {
            Some(m) => m,
            None => 0,
        };
        let ghost start = self.output@;
        let mut k: usize = 0;
        while k < lines.len()
            invariant
                k <= lines@.len(),
                ls == char_lines_view(lines@),
                start == old(self).output@,
                self.output@ == start + joined_dedented(ls.take(k as int), m as nat),
                self.indent_level == old(self).indent_level,
                self.temp_id_counter == old(self).temp_id_counter,
                self.array_instantiations == old(self).array_instantiations,
                self.range_instantiations == old(self).range_instantiations,
                self.map_instantiations == old(self).map_instantiations,
                self.tuple_instantiations == old(self).tuple_instantiations,
                self.user_type_instantiations == old(self).user_type_instantiations,
                self.history_instantiations == old(self).history_instantiations,
            decreases lines@.len() - k,
        {
            let ghost before = self.output@;
            let line = &lines[k];
            if k > 0 {
                self.output.push('\n');
            }
            let ghost after_newline = self.output@;
            if !is_blank(line) {
                let n = count_leading_spaces(line);
                let from: usize = if m > 0 && n >= m {
                    m
                } else {
                    0
                };
                let mut piece = String::new();
                let mut j: usize = from;
                while j < line.len()
                    invariant
                        from <= j <= line@.len(),
                        piece@ == line@.subrange(from as int, j as int),
                    decreases line@.len() - j,
                {
                    piece.push(line[j]);
                    proof {
                        assert(line@.subrange(from as int, j + 1) =~= line@.subrange(from as int, j as int).push(line@[j as int]));
                    }
                    j = j + 1;
                }
                crate::text::push_string(&mut self.output, &piece);
                proof {
                    assert(line@.subrange(from as int, j as int) =~= dedented(line@, m as nat));
                }
            } else {
                proof {
                    assert(dedented(line@, m as nat) =~= Seq::<char>::empty());
                    assert(self.output@ =~= after_newline + dedented(line@, m as nat));
                }
            }
            proof {
                let p = ls.take(k + 1);
                assert(p.last() == line@);
                if k > 0 {
                    assert(p.drop_last() =~= ls.take(k as int));
                    assert(self.output@ =~= start + joined_dedented(p, m as nat));
                } else {
                    assert(self.output@ =~= start + joined_dedented(p, m as nat));
                }
            }
            k = k + 1;
        }
        proof {
            assert(ls.take(k as int) =~= ls);
            assert(cs@.skip(1) == content@.skip(1));
        }
    }
}

} // verus!

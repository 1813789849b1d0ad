use vstd::prelude::*;
use vstd::string::*;
use crate::text::{chars_of, push_string};
use crate::types::{lemma_types_view_index, types_view, TypeExpr, TypeView};

verus! {

/// Whether `c` is alphabetic or numeric, as `char::is_alphanumeric` decides
/// by the Unicode tables of the standard library.
pub uninterp spec fn alphanumeric(c: char) -> bool;

/// `char::is_alphanumeric`: whether `c` has the Unicode Alphabetic property
/// or a numeric general category.  Claimed: the answer is `alphanumeric(c)`,
/// and for an ASCII character it is true exactly for `a`-`z`, `A`-`Z` and
/// `0`-`9`.
#[verifier::external_body]
fn is_alphanumeric(c: char) -> (b: bool)
    ensures
        b == alphanumeric(c),
        (c as u32) < 128 ==> (b <==> (('a' <= c && c <= 'z') || ('A' <= c && c <= 'Z') || ('0' <= c && c <= '9'))),
{
    c.is_alphanumeric()
}

/// Whether two strings hold the same characters.
pub fn same_text(a: &String, b: &str) -> (r: bool)
    ensures
        r == (a@ == b@),
{
    let t = b.to_owned();
    *a == t
}

/// The name under which a source name is emitted in C.
pub open spec fn mangled(name: Seq<char>) -> Seq<char> {
    "_delo_"@ + name
}

/// The name under which `name` is emitted in C.
pub fn mangle(name: &str) -> (r: String)
    ensures
        r@ == mangled(name@),
{
    let mut s = "_delo_".to_owned();
    s.push_str(name);
    s
}

/// Whether a C type is one the language maps a primitive type to.
pub open spec fn primitive_c_type(c_type: Seq<char>) -> bool {
    c_type == "int"@ || c_type == "double"@ || c_type == "bool"@ || c_type == "const char*"@ || c_type == "void"@
}

/// Whether `c_type` is one the language maps a primitive type to.
pub fn is_primitive_c_type(c_type: &str) -> (b: bool)
    ensures
        b == primitive_c_type(c_type@),
{
    let t = c_type.to_owned();
    same_text(&t, "int") || same_text(&t, "double") || same_text(&t, "bool") || same_text(&t, "const char*")
        || same_text(&t, "void")
}

/// The C initializer a variable of a C type starts with.
pub open spec fn default_value(c_type: Seq<char>) -> Seq<char> {
    if c_type == "int"@ {
        "0"@
    } else if c_type == "double"@ {
        "0.0"@
    } else if c_type == "bool"@ {
        "false"@
    } else if c_type == "const char*"@ {
        "\"\""@
    } else {
        "{0}"@
    }
}

/// The C initializer a variable of type `c_type` starts with.
pub fn default_value_for_c_type(c_type: &str) -> (r: &'static str)
    ensures
        r@ == default_value(c_type@),
{
    let t = c_type.to_owned();
    if same_text(&t, "int") {
        "0"
    } else if same_text(&t, "double") {
        "0.0"
    } else if same_text(&t, "bool") {
        "false"
    } else if same_text(&t, "const char*") {
        "\"\""
    } else {
        "{0}"
    }
}

/// `c_type` without a leading `struct `.
pub open spec fn without_struct(c_type: Seq<char>) -> Seq<char> {
    if c_type.len() >= 7 && c_type.take(7) == "struct "@ {
        c_type.skip(7)
    } else {
        c_type
    }
}

/// The part a C type contributes to the name of an instantiation: the type
/// without a leading `struct `, with every character that is not
/// alphanumeric replaced by `_`.
pub open spec fn suffix_text(c_type: Seq<char>) -> Seq<char> {
    let t = without_struct(c_type);
    Seq::new(t.len(), |i: int| if alphanumeric(t[i]) { t[i] } else { '_' })
}

/// The suffixes of `c_types`, each after an underscore.
pub open spec fn suffixes_text(c_types: Seq<Seq<char>>) -> Seq<char>
    decreases c_types.len(),
{
    if c_types.len() == 0 {
        Seq::empty()
    } else {
        suffixes_text(c_types.drop_last()) + "_"@ + suffix_text(c_types.last())
    }
}

/// The views of a list of strings.
pub open spec fn strings_view(ss: Seq<String>) -> Seq<Seq<char>> {
    ss.map_values(|s: String| s@)
}

/// Appends the suffix of each of `c_types`, each after an underscore.
fn push_suffixes(s: &mut String, c_types: &[String])
    ensures
        final(s)@ == old(s)@ + suffixes_text(strings_view(c_types@)),
{
    let ghost s0 = s@;
    let ghost xs = strings_view(c_types@);
    proof {
        assert(xs.take(0) =~= Seq::<Seq<char>>::empty());
        assert(s@ =~= s0 + suffixes_text(xs.take(0)));
    }
    let mut i: usize = 0;
    while i < c_types.len()
        invariant
            i <= c_types@.len(),
            xs == strings_view(c_types@),
            s@ == s0 + suffixes_text(xs.take(i as int)),
        decreases c_types@.len() - i,
    {
        s.push_str("_");
        let part = UserTypeInstantiation::suffix(c_types[i].as_str());
        push_string(s, &part);
        proof {
            let p = xs.take(i + 1);
            assert(xs[i as int] == c_types@[i as int]@);
            assert(p.drop_last() =~= xs.take(i as int));
            assert(p.last() == xs[i as int]);
            assert(s@ =~= s0 + suffixes_text(p));
        }
        i = i + 1;
    }
    proof {
        assert(xs.take(i as int) =~= xs);
    }
}

/// A user type applied to type arguments, by the C types of its arguments.
pub struct UserTypeInstantiation {
    pub identifier: String,
    pub argument_c_types: Vec<String>,
}

impl UserTypeInstantiation {
    /// The C name of this instantiation: the mangled name of the type and
    /// the suffix of each argument, joined by underscores.
    pub fn c_identifier(&self) -> (r: String)
        ensures
            r@ == mangled(self.identifier@) + suffixes_text(strings_view(self.argument_c_types@)),
    {
        let mut s = mangle(self.identifier.as_str());
        push_suffixes(&mut s, self.argument_c_types.as_slice());
        s
    }

    /// The part `c_type` contributes to the name of an instantiation.
    pub fn suffix(c_type: &str) -> (r: String)
        ensures
            r@ == suffix_text(c_type@),
    {
        let cs = chars_of(c_type);
        let prefix = chars_of("struct ");
        proof {
            reveal_strlit("struct ");
        }
        let mut start: usize = 0;
        if cs.len() >= 7 {
            let mut same = true;
            let mut j: usize = 0;
            while j < 7
                invariant
                    j <= 7,
                    cs@.len() >= 7,
                    prefix@ == "struct "@,
                    prefix@.len() == 7,
                    same <==> forall|m: int| 0 <= m < j ==> cs@[m] == prefix@[m],
                decreases 7 - j,
            {
                if cs[j] != prefix[j] {
                    same = false;
                }
                j = j + 1;
            }
            if same {
                start = 7;
                proof {
                    assert(cs@.take(7) =~= prefix@);
                }
            } else {
                proof {
                    if cs@.take(7) == prefix@ {
                        assert forall|m: int| 0 <= m < 7 implies cs@[m] == prefix@[m] by {
                            assert(cs@.take(7)[m] == cs@[m]);
                        }
                    }
                }
            }
        }
        let ghost t = without_struct(c_type@);
        proof {
            if start == 7 {
                assert(cs@.skip(7) == t);
            } else {
                assert(cs@ == t);
            }
        }
        let mut s = String::new();
        let mut k: usize = start;
        while k < cs.len()
            invariant
                start <= k <= cs@.len(),
                t == cs@.skip(start as int),
                s@ == Seq::new((k - start) as nat, |i: int| if alphanumeric(t[i]) { t[i] } else { '_' }),
            decreases cs@.len() - k,
        {
            let c = cs[k];
            if is_alphanumeric(c) {
                s.push(c);
            } else {
                s.push('_');
            }
            proof {
                assert(s@ =~= Seq::new((k + 1 - start) as nat, |i: int| if alphanumeric(t[i]) { t[i] } else { '_' }));
            }
            k = k + 1;
        }
        proof {
            assert(s@ =~= suffix_text(c_type@));
        }
        s
    }
}

/// A generic function applied to type arguments, by the C types of its
/// arguments.
pub struct FunctionInstantiation {
    pub base_identifier: String,
    pub argument_c_types: Vec<String>,
}

impl FunctionInstantiation {
    /// The C name of this instantiation: the mangled name of the function
    /// and the suffix of each argument, joined by underscores.
    pub fn c_identifier(&self) -> (r: String)
        ensures
            r@ == mangled(self.base_identifier@) + suffixes_text(strings_view(self.argument_c_types@)),
    {
        let mut s = mangle(self.base_identifier.as_str());
        push_suffixes(&mut s, self.argument_c_types.as_slice());
        s
    }
}

/// The C name of a tuple type with elements of the given C types.
pub fn tuple_c_type_name(element_c_types: &[String]) -> (r: String)
    ensures
        r@ == "Tuple"@ + suffixes_text(strings_view(element_c_types@)),
{
    let mut s = "Tuple".to_owned();
    push_suffixes(&mut s, element_c_types);
    s
}

/// The name of the C function that formats a value of a C type.
pub open spec fn format_helper_text(c_type: Seq<char>) -> Seq<char> {
    if c_type == "int"@ {
        "format_int"@
    } else if c_type == "double"@ {
        "format_double"@
    } else if c_type == "bool"@ {
        "format_bool"@
    } else if c_type == "const char*"@ {
        "format_string"@
    } else {
        "format_"@ + c_type
    }
}

/// The name of the C function that formats a value of type `c_type`.
pub fn format_helper_name(c_type: &str) -> (r: String)
    ensures
        r@ == format_helper_text(c_type@),
{
    let t = c_type.to_owned();
    if same_text(&t, "int") {
        "format_int".to_owned()
    } else if same_text(&t, "double") {
        "format_double".to_owned()
    } else if same_text(&t, "bool") {
        "format_bool".to_owned()
    } else if same_text(&t, "const char*") {
        "format_string".to_owned()
    } else {
        let mut s = "format_".to_owned();
        s.push_str(c_type);
        s
    }
}

/// The C type by which values of a type are represented.
pub open spec fn c_type_text(t: TypeView) -> Seq<char>
    decreases t,
{
    match t {
        TypeView::Named { identifier, type_arguments, .. } => {
            let name = identifier.lexeme;
            if name == "Int"@ {
                "int"@
            } else if name == "Double"@ {
                "double"@
            } else if name == "String"@ {
                "const char*"@
            } else if name == "Bool"@ {
                "bool"@
            } else if name == "Void"@ {
                "void"@
            } else if name == "Array"@ && type_arguments.len() == 1 {
                "Array_"@ + suffix_text(c_type_text(type_arguments[0]))
            } else if name == "Map"@ && type_arguments.len() == 2 {
                "Map_"@ + suffix_text(c_type_text(type_arguments[0])) + "_"@ + suffix_text(
                    c_type_text(type_arguments[1]),
                )
            } else if (name == "Range"@ || name == "InclusiveRange"@) && type_arguments.len() == 1 {
                "Range_"@ + suffix_text(c_type_text(type_arguments[0]))
            } else if type_arguments.len() == 0 {
                mangled(name)
            } else {
                mangled(name) + suffixes_text(c_type_texts(type_arguments))
            }
        },
        TypeView::Function { .. } => "Fn"@,
        TypeView::Tuple { element_types } => "Tuple"@ + suffixes_text(c_type_texts(element_types)),
        TypeView::TypeVar { .. } => "void*"@,
    }
}

/// The C types of a list of types.
pub open spec fn c_type_texts(ts: Seq<TypeView>) -> Seq<Seq<char>>
    decreases ts,
{
    if ts.len() == 0 {
        Seq::empty()
    } else {
        c_type_texts(ts.drop_last()).push(c_type_text(ts.last()))
    }
}

/// The C type by which values of type `t` are represented.
pub fn map_type(t: &TypeExpr) -> (r: String)
    ensures
        r@ == c_type_text(t@),
    decreases t,
{
    match t {
        TypeExpr::Named { identifier, type_arguments, .. } => {
            proof {
                lemma_types_view_index(type_arguments@);
            }
            let name = &identifier.lexeme;
            if same_text(name, "Int") {
                "int".to_owned()
            } else if same_text(name, "Double") {
                "double".to_owned()
            } else if same_text(name, "String") {
                "const char*".to_owned()
            } else if same_text(name, "Bool") {
                "bool".to_owned()
            } else if same_text(name, "Void") {
                "void".to_owned()
            } else if same_text(name, "Array") && type_arguments.len() == 1 {
                let element = map_type(&type_arguments[0]);
                let mut s = "Array_".to_owned();
                push_string(&mut s, &UserTypeInstantiation::suffix(element.as_str()));
                s
            } else if same_text(name, "Map") && type_arguments.len() == 2 {
                let key = map_type(&type_arguments[0]);
                let value = map_type(&type_arguments[1]);
                let mut s = "Map_".to_owned();
                push_string(&mut s, &UserTypeInstantiation::suffix(key.as_str()));
                s.push_str("_");
                push_string(&mut s, &UserTypeInstantiation::suffix(value.as_str()));
                s
            } else if (same_text(name, "Range") || same_text(name, "InclusiveRange")) && type_arguments.len() == 1 {
                let bound = map_type(&type_arguments[0]);
                let mut s = "Range_".to_owned();
                push_string(&mut s, &UserTypeInstantiation::suffix(bound.as_str()));
                s
            } else if type_arguments.len() == 0 {
                mangle(name.as_str())
            } else {
                let names = map_types(type_arguments);
                let instantiation = UserTypeInstantiation { identifier: name.clone(), argument_c_types: names };
                instantiation.c_identifier()
            }
        },
        TypeExpr::Function { .. } => "Fn".to_owned(),
        TypeExpr::Tuple { element_types } => {
            let names = map_types(element_types);
            tuple_c_type_name(names.as_slice())
        },
        TypeExpr::TypeVar { .. } => "void*".to_owned(),
    }
}

/// The C types of a list of types.
fn map_types(ts: &Vec<TypeExpr>) -> (r: Vec<String>)
    ensures
        strings_view(r@) == c_type_texts(types_view(ts@)),
    decreases ts,
{
    let ghost xs = types_view(ts@);
    proof {
        lemma_types_view_index(ts@);
        assert(xs.take(0) =~= Seq::<TypeView>::empty());
        assert(strings_view(Seq::<String>::empty()) =~= Seq::<Seq<char>>::empty());
    }
    let mut r: Vec<String> = Vec::new();
    let mut i: usize = 0;
    while i < ts.len()
        invariant
            i <= ts@.len(),
            xs == types_view(ts@),
            xs.len() == ts@.len(),
            forall|j: int| 0 <= j < ts@.len() ==> #[trigger] xs[j] == ts@[j]@,
            r@.len() == i,
            strings_view(r@) == c_type_texts(xs.take(i as int)),
        decreases ts@.len() - i,
    {
        let name = map_type(&ts[i]);
        let ghost before = r@;
        let ghost name_view = name@;
        r.push(name);
        proof {
            let p = xs.take(i + 1);
            assert(p.drop_last() =~= xs.take(i as int));
            assert(p.last() == xs[i as int]);
            assert(strings_view(r@) =~= strings_view(before).push(name_view));
        }
        i = i + 1;
    }
    proof {
        assert(xs.take(i as int) =~= xs);
    }
    r
}

} // verus!

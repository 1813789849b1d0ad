use vstd::prelude::*;
use crate::ast::copy_tokens;
use crate::token::{tokens_view, Token, TokenView};
use crate::types::{copy_fields, copy_variants, fields_view, variants_view, EnumVariant, TypeExpr, TypeView, VariantView};

verus! {

/// A struct declaration of the program: its name, type parameters and
/// fields.
pub struct StructDeclaration {
    pub identifier: String,
    pub type_parameters: Vec<Token>,
    pub fields: Vec<(Token, TypeExpr)>,
}

/// An enum declaration of the program: its name, type parameters and
/// variants.
pub struct EnumDeclaration {
    pub identifier: String,
    pub type_parameters: Vec<Token>,
    pub variants: Vec<EnumVariant>,
}

/// The mathematical value of a struct declaration, without its name.
pub struct StructView {
    pub type_parameters: Seq<TokenView>,
    pub fields: Seq<(TokenView, TypeView)>,
}

/// The mathematical value of an enum declaration, without its name.
pub struct EnumView {
    pub type_parameters: Seq<TokenView>,
    pub variants: Seq<VariantView>,
}

pub open spec fn struct_view(d: StructDeclaration) -> StructView {
    StructView { type_parameters: tokens_view(d.type_parameters@), fields: fields_view(d.fields@) }
}

pub open spec fn enum_view(d: EnumDeclaration) -> EnumView {
    EnumView { type_parameters: tokens_view(d.type_parameters@), variants: variants_view(d.variants@) }
}

/// The structs of a list of declarations by name; a later declaration of
/// a name replaces an earlier one.
pub open spec fn struct_map(ds: Seq<StructDeclaration>) -> Map<Seq<char>, StructView>
    decreases ds.len(),
{
    if ds.len() == 0 {
        Map::empty()
    } else {
        struct_map(ds.drop_last()).insert(ds.last().identifier@, struct_view(ds.last()))
    }
}

/// The enums of a list of declarations by name; a later declaration of a
/// name replaces an earlier one.
pub open spec fn enum_map(ds: Seq<EnumDeclaration>) -> Map<Seq<char>, EnumView>
    decreases ds.len(),
{
    if ds.len() == 0 {
        Map::empty()
    } else {
        enum_map(ds.drop_last()).insert(ds.last().identifier@, enum_view(ds.last()))
    }
}

proof fn lemma_struct_map_absent(ds: Seq<StructDeclaration>, name: Seq<char>)
    requires
        forall|j: int| 0 <= j < ds.len() ==> #[trigger] ds[j].identifier@ != name,
    ensures
        !struct_map(ds).contains_key(name),
    decreases ds.len(),
{
    if ds.len() > 0 {
        assert forall|j: int| 0 <= j < ds.drop_last().len() implies #[trigger] ds.drop_last()[j].identifier@ != name by {
            assert(ds.drop_last()[j] == ds[j]);
        }
        lemma_struct_map_absent(ds.drop_last(), name);
        assert(ds.last() == ds[ds.len() - 1]);
    }
}

proof fn lemma_struct_map_last(ds: Seq<StructDeclaration>, i: int)
    requires
        0 <= i < ds.len(),
        forall|j: int| i < j < ds.len() ==> #[trigger] ds[j].identifier@ != ds[i].identifier@,
    ensures
        struct_map(ds).contains_key(ds[i].identifier@),
        struct_map(ds)[ds[i].identifier@] == struct_view(ds[i]),
    decreases ds.len(),
{
    if i < ds.len() - 1 {
        assert forall|j: int| i < j < ds.drop_last().len() implies #[trigger] ds.drop_last()[j].identifier@
            != ds.drop_last()[i].identifier@ by {
            assert(ds.drop_last()[j] == ds[j]);
        }
        lemma_struct_map_last(ds.drop_last(), i);
        assert(ds.last() == ds[ds.len() - 1]);
        assert(ds.drop_last()[i] == ds[i]);
    }
}

proof fn lemma_enum_map_absent(ds: Seq<EnumDeclaration>, name: Seq<char>)
    requires
        forall|j: int| 0 <= j < ds.len() ==> #[trigger] ds[j].identifier@ != name,
    ensures
        !enum_map(ds).contains_key(name),
    decreases ds.len(),
{
    if ds.len() > 0 {
        assert forall|j: int| 0 <= j < ds.drop_last().len() implies #[trigger] ds.drop_last()[j].identifier@ != name by {
            assert(ds.drop_last()[j] == ds[j]);
        }
        lemma_enum_map_absent(ds.drop_last(), name);
        assert(ds.last() == ds[ds.len() - 1]);
    }
}

proof fn lemma_enum_map_last(ds: Seq<EnumDeclaration>, i: int)
    requires
        0 <= i < ds.len(),
        forall|j: int| i < j < ds.len() ==> #[trigger] ds[j].identifier@ != ds[i].identifier@,
    ensures
        enum_map(ds).contains_key(ds[i].identifier@),
        enum_map(ds)[ds[i].identifier@] == enum_view(ds[i]),
    decreases ds.len(),
{
    if i < ds.len() - 1 {
        assert forall|j: int| i < j < ds.drop_last().len() implies #[trigger] ds.drop_last()[j].identifier@
            != ds.drop_last()[i].identifier@ by {
            assert(ds.drop_last()[j] == ds[j]);
        }
        lemma_enum_map_last(ds.drop_last(), i);
        assert(ds.last() == ds[ds.len() - 1]);
        assert(ds.drop_last()[i] == ds[i]);
    }
}

/// Whether `i` is the last position of a declaration named `name` in `ids`.
pub open spec fn last_of(ids: Seq<Seq<char>>, i: int, name: Seq<char>) -> bool {
    &&& 0 <= i < ids.len()
    &&& ids[i] == name
    &&& forall|j: int| i < j < ids.len() ==> #[trigger] ids[j] != name
}

proof fn lemma_last_exists(ids: Seq<Seq<char>>, j0: int)
    requires
        0 <= j0 < ids.len(),
    ensures
        exists|i: int| j0 <= i && last_of(ids, i, ids[j0]),
    decreases ids.len() - j0,
{
    if exists|k: int| j0 < k < ids.len() && ids[k] == ids[j0] {
        let k = choose|k: int| j0 < k < ids.len() && ids[k] == ids[j0];
        lemma_last_exists(ids, k);
        let i = choose|i: int| k <= i && last_of(ids, i, ids[k]);
        assert(j0 <= i && last_of(ids, i, ids[j0]));
    } else {
        assert(last_of(ids, j0, ids[j0]));
    }
}

/// `ns` lists, each once, the names of the structs of `m` without type
/// parameters.
pub open spec fn plain_struct_names(ns: Seq<Seq<char>>, m: Map<Seq<char>, StructView>) -> bool {
    &&& ns.no_duplicates()
    &&& forall|n: Seq<char>| #[trigger] ns.contains(n) <==> m.contains_key(n) && m[n].type_parameters.len() == 0
}

/// `ns` lists, each once, the names of the enums of `m` without type
/// parameters.
pub open spec fn plain_enum_names(ns: Seq<Seq<char>>, m: Map<Seq<char>, EnumView>) -> bool {
    &&& ns.no_duplicates()
    &&& forall|n: Seq<char>| #[trigger] ns.contains(n) <==> m.contains_key(n) && m[n].type_parameters.len() == 0
}

/// The values of a list of strings.
pub open spec fn strings_view_of(ss: Seq<String>) -> Seq<Seq<char>> {
    ss.map_values(|s: String| s@)
}

/// The names of `names` whose last occurrence is flagged in `plain`, each
/// once.
fn last_flagged(names: &Vec<String>, plain: &Vec<bool>) -> (r: Vec<String>)
    requires
        plain@.len() == names@.len(),
    ensures
        strings_view_of(r@).no_duplicates(),
        forall|n: Seq<char>| #[trigger] strings_view_of(r@).contains(n) <==> exists|j: int|
            last_of(strings_view_of(names@), j, n) && #[trigger] plain@[j],
{
    let ghost ids = strings_view_of(names@);
    let ghost mut pos: Seq<int> = Seq::empty();
    let mut r: Vec<String> = Vec::new();
    let mut i: usize = 0;
    while i < names.len()
        invariant
            i <= names@.len(),
            plain@.len() == names@.len(),
            ids == strings_view_of(names@),
            ids.len() == names@.len(),
            pos.len() == r@.len(),
            forall|k: int| 0 <= k < r@.len() ==> 0 <= #[trigger] pos[k] < i && last_of(ids, pos[k], ids[pos[k]])
                && plain@[pos[k]] && r@[k]@ == ids[pos[k]],
            forall|j: int| 0 <= j < i && last_of(ids, j, ids[j]) && #[trigger] plain@[j] ==> strings_view_of(
                r@,
            ).contains(ids[j]),
            strings_view_of(r@).no_duplicates(),
        decreases names@.len() - i,
    {
        let mut last = true;
        let mut k: usize = i + 1;
        while k < names.len()
            invariant
                i < k <= names@.len(),
                ids == strings_view_of(names@),
                ids.len() == names@.len(),
                last <==> forall|j: int| i < j < k ==> #[trigger] ids[j] != ids[i as int],
            decreases names@.len() - k,
        {
            proof {
                assert(ids[k as int] == names@[k as int]@);
                assert(ids[i as int] == names@[i as int]@);
            }
            if crate::c_names::same_text(&names[k], names[i].as_str()) {
                last = false;
            }
            k = k + 1;
        }
        proof {
            assert(last <==> last_of(ids, i as int, ids[i as int]));
        }
        let ghost before = r@;
        if last && plain[i] {
            proof {
                assert(ids[i as int] == names@[i as int]@);
                assert(!strings_view_of(before).contains(ids[i as int])) by {
                    if strings_view_of(before).contains(ids[i as int]) {
                        let m = choose|m: int| 0 <= m < before.len() && strings_view_of(before)[m] == ids[i as int];
                        assert(before[m]@ == strings_view_of(before)[m]);
                        assert(0 <= pos[m] < i && last_of(ids, pos[m], ids[pos[m]]));
                    }
                }
            }
            r.push(names[i].clone());
            proof {
                pos = pos.push(i as int);
                assert(strings_view_of(r@) =~= strings_view_of(before).push(ids[i as int]));
                assert forall|k: int| 0 <= k < r@.len() implies 0 <= #[trigger] pos[k] < i + 1 && last_of(
                    ids,
                    pos[k],
                    ids[pos[k]],
                ) && plain@[pos[k]] && r@[k]@ == ids[pos[k]] by {
                    if k < before.len() {
                        assert(r@[k] == before[k]);
                    }
                }
                assert forall|j: int| 0 <= j < i + 1 && last_of(ids, j, ids[j]) && #[trigger] plain@[j] implies strings_view_of(
                    r@,
                ).contains(ids[j]) by {
                    if j < i {
                        let m = choose|m: int| 0 <= m < before.len() && strings_view_of(before)[m] == ids[j];
                        assert(strings_view_of(r@)[m] == ids[j]);
                    } else {
                        assert(strings_view_of(r@)[before.len() as int] == ids[j]);
                    }
                }
            }
        }
        i = i + 1;
    }
    proof {
        let ns = strings_view_of(r@);
        assert forall|n: Seq<char>| #[trigger] ns.contains(n) <==> exists|j: int| last_of(ids, j, n) && #[trigger] plain@[j] by {
            if ns.contains(n) {
                let q = choose|q: int| 0 <= q < ns.len() && ns[q] == n;
                assert(r@[q]@ == ns[q]);
                assert(last_of(ids, pos[q], n) && plain@[pos[q]]);
            }
            if exists|j: int| last_of(ids, j, n) && #[trigger] plain@[j] {
                let j = choose|j: int| last_of(ids, j, n) && #[trigger] plain@[j];
                assert(ids[j] == n);
            }
        }
    }
    r
}

/// The structs, enums and functions a program declares, by name.
pub struct Declarations {
    structs: Vec<StructDeclaration>,
    enums: Vec<EnumDeclaration>,
    functions: Vec<String>,
}

impl Declarations {
    /// The declared structs by name.
    pub closed spec fn structs(&self) -> Map<Seq<char>, StructView> {
        struct_map(self.structs@)
    }

    /// The declared enums by name.
    pub closed spec fn enums(&self) -> Map<Seq<char>, EnumView> {
        enum_map(self.enums@)
    }

    /// The names of the declared functions.
    pub closed spec fn functions(&self) -> Set<Seq<char>> {
        Set::new(|n: Seq<char>| exists|i: int| 0 <= i < self.functions@.len() && #[trigger] self.functions@[i]@ == n)
    }

    /// Nothing declared.
    pub fn new() -> (r: Self)
        ensures
            r.structs() == Map::<Seq<char>, StructView>::empty(),
            r.enums() == Map::<Seq<char>, EnumView>::empty(),
            r.functions() == Set::<Seq<char>>::empty(),
    {
        let r = Declarations { structs: Vec::new(), enums: Vec::new(), functions: Vec::new() };
        proof {
            assert(r.functions() =~= Set::<Seq<char>>::empty());
        }
        r
    }

    /// Declares a struct, replacing an earlier one of the same name.
    pub fn add_struct(&mut self, d: StructDeclaration)
        ensures
            final(self).structs() == old(self).structs().insert(d.identifier@, struct_view(d)),
            final(self).enums() == old(self).enums(),
            final(self).functions() == old(self).functions(),
    {
        let ghost v = struct_view(d);
        let ghost n = d.identifier@;
        self.structs.push(d);
        proof {
            assert(self.structs@.drop_last() =~= old(self).structs@);
            assert(self.functions() =~= old(self).functions());
        }
    }

    /// Declares an enum, replacing an earlier one of the same name.
    pub fn add_enum(&mut self, d: EnumDeclaration)
        ensures
            final(self).enums() == old(self).enums().insert(d.identifier@, enum_view(d)),
            final(self).structs() == old(self).structs(),
            final(self).functions() == old(self).functions(),
    {
        self.enums.push(d);
        proof {
            assert(self.enums@.drop_last() =~= old(self).enums@);
            assert(self.functions() =~= old(self).functions());
        }
    }

    /// Declares a function by its name.
    pub fn add_function(&mut self, name: String)
        ensures
            final(self).functions() == old(self).functions().insert(name@),
            final(self).structs() == old(self).structs(),
            final(self).enums() == old(self).enums(),
    {
        let ghost n = name@;
        self.functions.push(name);
        proof {
            assert forall|m: Seq<char>| #[trigger] self.functions().contains(m) <==> old(self).functions().insert(
                n,
            ).contains(m) by {
                if old(self).functions().contains(m) {
                    let i = choose|i: int| 0 <= i < old(self).functions@.len() && #[trigger] old(self).functions@[i]@ == m;
                    assert(self.functions@[i] == old(self).functions@[i]);
                }
                if m == n {
                    assert(self.functions@[self.functions@.len() - 1]@ == n);
                }
                if self.functions().contains(m) {
                    let i = choose|i: int| 0 <= i < self.functions@.len() && #[trigger] self.functions@[i]@ == m;
                    if i < old(self).functions@.len() {
                        assert(self.functions@[i] == old(self).functions@[i]);
                    }
                }
            }
            assert(self.functions() =~= old(self).functions().insert(n));
        }
    }

    /// A copy of these declarations.
    pub fn copy(&self) -> (r: Declarations)
        ensures
            r.structs() == self.structs(),
            r.enums() == self.enums(),
            r.functions() == self.functions(),
    {
        let mut structs: Vec<StructDeclaration> = Vec::new();
        let mut i: usize = 0;
        while i < self.structs.len()
            invariant
                i <= self.structs@.len(),
                struct_map(structs@) == struct_map(self.structs@.take(i as int)),
            decreases self.structs@.len() - i,
        {
            let d = copy_struct_declaration(&self.structs[i]);
            let ghost before = structs@;
            structs.push(d);
            proof {
                assert(structs@.drop_last() =~= before);
                assert(self.structs@.take(i + 1).drop_last() =~= self.structs@.take(i as int));
            }
            i = i + 1;
        }
        let mut enums: Vec<EnumDeclaration> = Vec::new();
        let mut k: usize = 0;
        while k < self.enums.len()
            invariant
                k <= self.enums@.len(),
                enum_map(enums@) == enum_map(self.enums@.take(k as int)),
            decreases self.enums@.len() - k,
        {
            let d = copy_enum_declaration(&self.enums[k]);
            let ghost before = enums@;
            enums.push(d);
            proof {
                assert(enums@.drop_last() =~= before);
                assert(self.enums@.take(k + 1).drop_last() =~= self.enums@.take(k as int));
            }
            k = k + 1;
        }
        let mut functions: Vec<String> = Vec::new();
        let mut f: usize = 0;
        while f < self.functions.len()
            invariant
                f <= self.functions@.len(),
                functions@.len() == f,
                forall|j: int| 0 <= j < f ==> #[trigger] functions@[j]@ == self.functions@[j]@,
            decreases self.functions@.len() - f,
        {
            functions.push(self.functions[f].clone());
            f = f + 1;
        }
        proof {
            assert(self.structs@.take(i as int) =~= self.structs@);
            assert(self.enums@.take(k as int) =~= self.enums@);
        }
        let r = Declarations { structs, enums, functions };
        proof {
            assert forall|n: Seq<char>| #[trigger] r.functions().contains(n) <==> self.functions().contains(n) by {
                if r.functions().contains(n) {
                    let j = choose|j: int| 0 <= j < r.functions@.len() && #[trigger] r.functions@[j]@ == n;
                    assert(self.functions@[j]@ == n);
                }
                if self.functions().contains(n) {
                    let j = choose|j: int| 0 <= j < self.functions@.len() && #[trigger] self.functions@[j]@ == n;
                    assert(r.functions@[j]@ == n);
                }
            }
            assert(r.functions() =~= self.functions());
        }
        r
    }

    /// The names of the structs without type parameters, each once.
    pub fn plain_structs(&self) -> (r: Vec<String>)
        ensures
            plain_struct_names(strings_view_of(r@), self.structs()),
    {
        let ghost ds = self.structs@;
        let mut names: Vec<String> = Vec::new();
        let mut plain: Vec<bool> = Vec::new();
        let mut i: usize = 0;
        while i < self.structs.len()
            invariant
                i <= self.structs@.len(),
                ds == self.structs@,
                names@.len() == i,
                plain@.len() == i,
                forall|j: int| 0 <= j < i ==> #[trigger] names@[j]@ == ds[j].identifier@,
                forall|j: int| 0 <= j < i ==> #[trigger] plain@[j] == (ds[j].type_parameters@.len() == 0),
            decreases self.structs@.len() - i,
        {
            names.push(self.structs[i].identifier.clone());
            plain.push(self.structs[i].type_parameters.len() == 0);
            i = i + 1;
        }
        let r = last_flagged(&names, &plain);
        proof {
            let ids = strings_view_of(names@);
            assert(ids.len() == ds.len());
            assert forall|j: int| 0 <= j < ds.len() implies #[trigger] ids[j] == ds[j].identifier@ by {
                assert(ids[j] == names@[j]@);
            }
            let ns = strings_view_of(r@);
            let m = self.structs();
            assert forall|n: Seq<char>| #[trigger] ns.contains(n) <==> m.contains_key(n) && m[n].type_parameters.len()
                == 0 by {
                if ns.contains(n) {
                    let j = choose|j: int| last_of(ids, j, n) && #[trigger] plain@[j];
                    assert forall|q: int| j < q < ds.len() implies #[trigger] ds[q].identifier@ != ds[j].identifier@ by {
                        assert(ids[q] == ds[q].identifier@);
                    }
                    lemma_struct_map_last(ds, j);
                }
                if m.contains_key(n) && m[n].type_parameters.len() == 0 {
                    if forall|j: int| 0 <= j < ds.len() ==> #[trigger] ds[j].identifier@ != n {
                        lemma_struct_map_absent(ds, n);
                    }
                    let j0 = choose|j: int| 0 <= j < ds.len() && #[trigger] ds[j].identifier@ == n;
                    lemma_last_exists(ids, j0);
                    let j = choose|j: int| j0 <= j && last_of(ids, j, ids[j0]);
                    assert forall|q: int| j < q < ds.len() implies #[trigger] ds[q].identifier@ != ds[j].identifier@ by {
                        assert(ids[q] == ds[q].identifier@);
                    }
                    lemma_struct_map_last(ds, j);
                    assert(plain@[j]);
                }
            }
        }
        r
    }

    /// The names of the enums without type parameters, each once.
    pub fn plain_enums(&self) -> (r: Vec<String>)
        ensures
            plain_enum_names(strings_view_of(r@), self.enums()),
    {
        let ghost ds = self.enums@;
        let mut names: Vec<String> = Vec::new();
        let mut plain: Vec<bool> = Vec::new();
        let mut i: usize = 0;
        while i < self.enums.len()
            invariant
                i <= self.enums@.len(),
                ds == self.enums@,
                names@.len() == i,
                plain@.len() == i,
                forall|j: int| 0 <= j < i ==> #[trigger] names@[j]@ == ds[j].identifier@,
                forall|j: int| 0 <= j < i ==> #[trigger] plain@[j] == (ds[j].type_parameters@.len() == 0),
            decreases self.enums@.len() - i,
        {
            names.push(self.enums[i].identifier.clone());
            plain.push(self.enums[i].type_parameters.len() == 0);
            i = i + 1;
        }
        let r = last_flagged(&names, &plain);
        proof {
            let ids = strings_view_of(names@);
            assert(ids.len() == ds.len());
            assert forall|j: int| 0 <= j < ds.len() implies #[trigger] ids[j] == ds[j].identifier@ by {
                assert(ids[j] == names@[j]@);
            }
            let ns = strings_view_of(r@);
            let m = self.enums();
            assert forall|n: Seq<char>| #[trigger] ns.contains(n) <==> m.contains_key(n) && m[n].type_parameters.len()
                == 0 by {
                if ns.contains(n) {
                    let j = choose|j: int| last_of(ids, j, n) && #[trigger] plain@[j];
                    assert forall|q: int| j < q < ds.len() implies #[trigger] ds[q].identifier@ != ds[j].identifier@ by {
                        assert(ids[q] == ds[q].identifier@);
                    }
                    lemma_enum_map_last(ds, j);
                }
                if m.contains_key(n) && m[n].type_parameters.len() == 0 {
                    if forall|j: int| 0 <= j < ds.len() ==> #[trigger] ds[j].identifier@ != n {
                        lemma_enum_map_absent(ds, n);
                    }
                    let j0 = choose|j: int| 0 <= j < ds.len() && #[trigger] ds[j].identifier@ == n;
                    lemma_last_exists(ids, j0);
                    let j = choose|j: int| j0 <= j && last_of(ids, j, ids[j0]);
                    assert forall|q: int| j < q < ds.len() implies #[trigger] ds[q].identifier@ != ds[j].identifier@ by {
                        assert(ids[q] == ds[q].identifier@);
                    }
                    lemma_enum_map_last(ds, j);
                    assert(plain@[j]);
                }
            }
        }
        r
    }

    /// The declaration of the struct named `name`, if there is one.
    pub fn find_struct(&self, name: &String) -> (r: Option<&StructDeclaration>)
        ensures
            match r {
                Some(d) => self.structs().contains_key(name@) && self.structs()[name@] == struct_view(*d),
                None => !self.structs().contains_key(name@),
            },
    {
        let mut i: usize = self.structs.len();
        while i > 0
            invariant
                i <= self.structs@.len(),
                forall|j: int| i <= j < self.structs@.len() ==> #[trigger] self.structs@[j].identifier@ != name@,
            decreases i,
        {
            if crate::c_names::same_text(&self.structs[i - 1].identifier, name.as_str()) {
                proof {
                    lemma_struct_map_last(self.structs@, i - 1);
                }
                return Some(&self.structs[i - 1]);
            }
            i = i - 1;
        }
        proof {
            lemma_struct_map_absent(self.structs@, name@);
        }
        None
    }

    /// The declaration of the enum named `name`, if there is one.
    pub fn find_enum(&self, name: &String) -> (r: Option<&EnumDeclaration>)
        ensures
            match r {
                Some(d) => self.enums().contains_key(name@) && self.enums()[name@] == enum_view(*d),
                None => !self.enums().contains_key(name@),
            },
    {
        let mut i: usize = self.enums.len();
        while i > 0
            invariant
                i <= self.enums@.len(),
                forall|j: int| i <= j < self.enums@.len() ==> #[trigger] self.enums@[j].identifier@ != name@,
            decreases i,
        {
            if crate::c_names::same_text(&self.enums[i - 1].identifier, name.as_str()) {
                proof {
                    lemma_enum_map_last(self.enums@, i - 1);
                }
                return Some(&self.enums[i - 1]);
            }
            i = i - 1;
        }
        proof {
            lemma_enum_map_absent(self.enums@, name@);
        }
        None
    }

    /// Whether a function named `name` is declared.
    pub fn has_function(&self, name: &String) -> (b: bool)
        ensures
            b == self.functions().contains(name@),
    {
        let mut i: usize = 0;
        while i < self.functions.len()
            invariant
                i <= self.functions@.len(),
                forall|j: int| 0 <= j < i ==> #[trigger] self.functions@[j]@ != name@,
            decreases self.functions@.len() - i,
        {
            if crate::c_names::same_text(&self.functions[i], name.as_str()) {
                proof {
                    assert(self.functions@[i as int]@ == name@);
                }
                return true;
            }
            i = i + 1;
        }
        false
    }
}

/// A copy of a struct declaration.
pub fn copy_struct_declaration(d: &StructDeclaration) -> (r: StructDeclaration)
    ensures
        r.identifier@ == d.identifier@,
        struct_view(r) == struct_view(*d),
{
    StructDeclaration {
        identifier: d.identifier.clone(),
        type_parameters: copy_tokens(&d.type_parameters),
        fields: copy_fields(&d.fields),
    }
}

/// A copy of an enum declaration.
pub fn copy_enum_declaration(d: &EnumDeclaration) -> (r: EnumDeclaration)
    ensures
        r.identifier@ == d.identifier@,
        enum_view(r) == enum_view(*d),
{
    EnumDeclaration {
        identifier: d.identifier.clone(),
        type_parameters: copy_tokens(&d.type_parameters),
        variants: copy_variants(&d.variants),
    }
}

} // verus!

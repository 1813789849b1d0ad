use vstd::prelude::*;
use crate::code_generator::{add_line, exec_lines_view};

verus! {

/// The array struct over C type `c` (suffix `s`) and its constructor.
pub open spec fn array_make_lines(c: Seq<char>, s: Seq<char>) -> Seq<(nat, Seq<char>)> {
    seq![
        (0nat, "typedef struct { size_t length; size_t capacity; "@ + c + "* data; } Array_"@ + s + ";"@),
        (0nat, "Array_"@ + s + " make_Array_"@ + s + "(size_t length, "@ + c + " const* elems) {"@),
        (1nat, "Array_"@ + s + " arr; arr.length = length; arr.capacity = length;"@),
        (1nat, "arr.data = ("@ + c + "*)malloc(sizeof("@ + c + ") * length);"@),
        (1nat, "for (size_t i = 0; i < length; ++i) { arr.data[i] = elems[i]; }"@),
        (1nat, "return arr;"@),
        (0nat, "}"@),
        (0nat, ""@),
    ]
}

pub(crate) fn array_make_exec(c: &String, s: &String) -> (r: Vec<(usize, String)>)
    ensures
        exec_lines_view(r@) == array_make_lines(c@, s@),
        forall|i: int| 0 <= i < r@.len() ==> #[trigger] r@[i].0 <= 3,
{
    let mut lines: Vec<(usize, String)> = Vec::new();
    let mut l0 = "typedef struct { size_t length; size_t capacity; ".to_owned();
    crate::text::push_string(&mut l0, c);
    l0.push_str("* data; } Array_");
    crate::text::push_string(&mut l0, s);
    l0.push_str(";");
    add_line(&mut lines, 0, l0);
    let mut l1 = "Array_".to_owned();
    crate::text::push_string(&mut l1, s);
    l1.push_str(" make_Array_");
    crate::text::push_string(&mut l1, s);
    l1.push_str("(size_t length, ");
    crate::text::push_string(&mut l1, c);
    l1.push_str(" const* elems) {");
    add_line(&mut lines, 0, l1);
    let mut l2 = "Array_".to_owned();
    crate::text::push_string(&mut l2, s);
    l2.push_str(" arr; arr.length = length; arr.capacity = length;");
    add_line(&mut lines, 1, l2);
    let mut l3 = "arr.data = (".to_owned();
    crate::text::push_string(&mut l3, c);
    l3.push_str("*)malloc(sizeof(");
    crate::text::push_string(&mut l3, c);
    l3.push_str(") * length);");
    add_line(&mut lines, 1, l3);
    let l4 = "for (size_t i = 0; i < length; ++i) { arr.data[i] = elems[i]; }".to_owned();
    add_line(&mut lines, 1, l4);
    let l5 = "return arr;".to_owned();
    add_line(&mut lines, 1, l5);
    let l6 = "}".to_owned();
    add_line(&mut lines, 0, l6);
    let l7 = "".to_owned();
    add_line(&mut lines, 0, l7);
    proof {
        assert(exec_lines_view(lines@) =~= array_make_lines(c@, s@));
    }
    lines
}

/// The concatenation of two arrays over C type `c` (suffix `s`).
pub open spec fn array_concat_lines(c: Seq<char>, s: Seq<char>) -> Seq<(nat, Seq<char>)> {
    seq![
        (0nat, "Array_"@ + s + " array_concat_"@ + s + "(Array_"@ + s + " a, Array_"@ + s + " b) {"@),
        (1nat, "size_t total = a.length + b.length;"@),
        (1nat, "Array_"@ + s + " result;"@),
        (1nat, "result.length = total;"@),
        (1nat, "result.capacity = total;"@),
        (1nat, "result.data = ("@ + c + "*)malloc(sizeof("@ + c + ") * total);"@),
        (1nat, "if (!result.data) { fprintf(stderr, \"Out of memory in array_concat\\n\"); exit(1); }"@),
        (1nat, "for (size_t i = 0; i < a.length; ++i) { result.data[i] = a.data[i]; }"@),
        (1nat, "for (size_t i = 0; i < b.length; ++i) { result.data[a.length + i] = b.data[i]; }"@),
        (1nat, "return result;"@),
        (0nat, "}"@),
        (0nat, ""@),
    ]
}

pub(crate) fn array_concat_exec(c: &String, s: &String) -> (r: Vec<(usize, String)>)
    ensures
        exec_lines_view(r@) == array_concat_lines(c@, s@),
        forall|i: int| 0 <= i < r@.len() ==> #[trigger] r@[i].0 <= 3,
{
    let mut lines: Vec<(usize, String)> = Vec::new();
    let mut l0 = "Array_".to_owned();
    crate::text::push_string(&mut l0, s);
    l0.push_str(" array_concat_");
    crate::text::push_string(&mut l0, s);
    l0.push_str("(Array_");
    crate::text::push_string(&mut l0, s);
    l0.push_str(" a, Array_");
    crate::text::push_string(&mut l0, s);
    l0.push_str(" b) {");
    add_line(&mut lines, 0, l0);
    let l1 = "size_t total = a.length + b.length;".to_owned();
    add_line(&mut lines, 1, l1);
    let mut l2 = "Array_".to_owned();
    crate::text::push_string(&mut l2, s);
    l2.push_str(" result;");
    add_line(&mut lines, 1, l2);
    let l3 = "result.length = total;".to_owned();
    add_line(&mut lines, 1, l3);
    let l4 = "result.capacity = total;".to_owned();
    add_line(&mut lines, 1, l4);
    let mut l5 = "result.data = (".to_owned();
    crate::text::push_string(&mut l5, c);
    l5.push_str("*)malloc(sizeof(");
    crate::text::push_string(&mut l5, c);
    l5.push_str(") * total);");
    add_line(&mut lines, 1, l5);
    let l6 = "if (!result.data) { fprintf(stderr, \"Out of memory in array_concat\\n\"); exit(1); }".to_owned();
    add_line(&mut lines, 1, l6);
    let l7 = "for (size_t i = 0; i < a.length; ++i) { result.data[i] = a.data[i]; }".to_owned();
    add_line(&mut lines, 1, l7);
    let l8 = "for (size_t i = 0; i < b.length; ++i) { result.data[a.length + i] = b.data[i]; }".to_owned();
    add_line(&mut lines, 1, l8);
    let l9 = "return result;".to_owned();
    add_line(&mut lines, 1, l9);
    let l10 = "}".to_owned();
    add_line(&mut lines, 0, l10);
    let l11 = "".to_owned();
    add_line(&mut lines, 0, l11);
    proof {
        assert(exec_lines_view(lines@) =~= array_concat_lines(c@, s@));
    }
    lines
}

/// The loop that copies every element of array `source` into `result`,
/// element `i` going to index `offset` followed by `i`.
pub open spec fn copy_into_result(source: Seq<char>, offset: Seq<char>) -> Seq<char> {
    "for (size_t i = 0; i < "@ + source + ".length; ++i) { result.data["@ + offset + "i] = "@ + source
        + ".data[i]; }"@
}

/// Law: the concatenation of `a` and `b` is `a` followed by `b`. Its
/// length is the sum of both lengths, element `i` of `a` is stored at
/// index `i`, and element `i` of `b` at index `a.length + i`, after `a`.
pub proof fn law_array_concat_places_b_after_a(c: Seq<char>, s: Seq<char>)
    ensures
        exists|j: int|
            0 <= j < array_concat_lines(c, s).len() && #[trigger] array_concat_lines(c, s)[j] == (
            1nat,
            "size_t total = a.length + b.length;"@,
        ),
        exists|j: int, k: int|
            0 <= j < k < array_concat_lines(c, s).len() && #[trigger] array_concat_lines(c, s)[j] == (
            1nat,
            copy_into_result("a"@, ""@),
        ) && #[trigger] array_concat_lines(c, s)[k] == (1nat, copy_into_result("b"@, "a.length + "@)),
{
    let lines = array_concat_lines(c, s);
    reveal_strlit("size_t total = a.length + b.length;");
    reveal_strlit("for (size_t i = 0; i < ");
    reveal_strlit(".length; ++i) { result.data[");
    reveal_strlit("i] = ");
    reveal_strlit(".data[i]; }");
    reveal_strlit("a");
    reveal_strlit("b");
    reveal_strlit("");
    reveal_strlit("a.length + ");
    reveal_strlit("for (size_t i = 0; i < a.length; ++i) { result.data[i] = a.data[i]; }");
    reveal_strlit("for (size_t i = 0; i < b.length; ++i) { result.data[a.length + i] = b.data[i]; }");
    assert(lines[1] == (1nat, "size_t total = a.length + b.length;"@));
    assert(lines[7].1 =~= copy_into_result("a"@, ""@));
    assert(lines[8].1 =~= copy_into_result("b"@, "a.length + "@));
    assert(lines[7] == (1nat, copy_into_result("a"@, ""@)));
    assert(lines[8] == (1nat, copy_into_result("b"@, "a.length + "@)));
}

/// The repetition of an array over C type `c` (suffix `s`).
pub open spec fn array_repeat_lines(c: Seq<char>, s: Seq<char>) -> Seq<(nat, Seq<char>)> {
    seq![
        (0nat, "Array_"@ + s + " array_repeat_"@ + s + "(Array_"@ + s + " a, int n) {"@),
        (1nat, "Array_"@ + s + " result;"@),
        (1nat, "if (n <= 0) { result.length = 0; result.capacity = 0; result.data = NULL; return result; }"@),
        (1nat, "size_t total = a.length * (size_t)n;"@),
        (1nat, "result.length = total;"@),
        (1nat, "result.capacity = total;"@),
        (1nat, "result.data = ("@ + c + "*)malloc(sizeof("@ + c + ") * total);"@),
        (1nat, "if (!result.data) { fprintf(stderr, \"Out of memory in array_repeat\\n\"); exit(1); }"@),
        (1nat, "for (int rep = 0; rep < n; ++rep) {"@),
        (2nat, "for (size_t i = 0; i < a.length; ++i) { result.data[(size_t)rep * a.length + i] = a.data[i]; }"@),
        (1nat, "}"@),
        (1nat, "return result;"@),
        (0nat, "}"@),
        (0nat, ""@),
    ]
}

/// Law: repeating `a` `n` times lays `n` copies of `a` end to end: the
/// result holds `a.length * n` elements, and in round `rep` element `i` of
/// `a` is stored at index `rep * a.length + i`.
pub proof fn law_array_repeat_places_copies_in_turn(c: Seq<char>, s: Seq<char>)
    ensures
        exists|j: int|
            0 <= j < array_repeat_lines(c, s).len() && #[trigger] array_repeat_lines(c, s)[j] == (
            1nat,
            "size_t total = a.length * (size_t)n;"@,
        ),
        exists|j: int|
            0 <= j && j + 1 < array_repeat_lines(c, s).len() && #[trigger] array_repeat_lines(c, s)[j] == (
            1nat,
            "for (int rep = 0; rep < n; ++rep) {"@,
        ) && array_repeat_lines(c, s)[j + 1] == (2nat, copy_into_result("a"@, "(size_t)rep * a.length + "@)),
{
    let lines = array_repeat_lines(c, s);
    reveal_strlit("for (size_t i = 0; i < ");
    reveal_strlit(".length; ++i) { result.data[");
    reveal_strlit("i] = ");
    reveal_strlit(".data[i]; }");
    reveal_strlit("a");
    reveal_strlit("(size_t)rep * a.length + ");
    reveal_strlit("for (size_t i = 0; i < a.length; ++i) { result.data[(size_t)rep * a.length + i] = a.data[i]; }");
    assert(lines[3] == (1nat, "size_t total = a.length * (size_t)n;"@));
    assert(lines[8] == (1nat, "for (int rep = 0; rep < n; ++rep) {"@));
    assert(lines[9].1 =~= copy_into_result("a"@, "(size_t)rep * a.length + "@));
    assert(lines[9] == (2nat, copy_into_result("a"@, "(size_t)rep * a.length + "@)));
}

pub(crate) fn array_repeat_exec(c: &String, s: &String) -> (r: Vec<(usize, String)>)
    ensures
        exec_lines_view(r@) == array_repeat_lines(c@, s@),
        forall|i: int| 0 <= i < r@.len() ==> #[trigger] r@[i].0 <= 3,
{
    let mut lines: Vec<(usize, String)> = Vec::new();
    let mut l0 = "Array_".to_owned();
    crate::text::push_string(&mut l0, s);
    l0.push_str(" array_repeat_");
    crate::text::push_string(&mut l0, s);
    l0.push_str("(Array_");
    crate::text::push_string(&mut l0, s);
    l0.push_str(" a, int n) {");
    add_line(&mut lines, 0, l0);
    let mut l1 = "Array_".to_owned();
    crate::text::push_string(&mut l1, s);
    l1.push_str(" result;");
    add_line(&mut lines, 1, l1);
    let l2 = "if (n <= 0) { result.length = 0; result.capacity = 0; result.data = NULL; return result; }".to_owned();
    add_line(&mut lines, 1, l2);
    let l3 = "size_t total = a.length * (size_t)n;".to_owned();
    add_line(&mut lines, 1, l3);
    let l4 = "result.length = total;".to_owned();
    add_line(&mut lines, 1, l4);
    let l5 = "result.capacity = total;".to_owned();
    add_line(&mut lines, 1, l5);
    let mut l6 = "result.data = (".to_owned();
    crate::text::push_string(&mut l6, c);
    l6.push_str("*)malloc(sizeof(");
    crate::text::push_string(&mut l6, c);
    l6.push_str(") * total);");
    add_line(&mut lines, 1, l6);
    let l7 = "if (!result.data) { fprintf(stderr, \"Out of memory in array_repeat\\n\"); exit(1); }".to_owned();
    add_line(&mut lines, 1, l7);
    let l8 = "for (int rep = 0; rep < n; ++rep) {".to_owned();
    add_line(&mut lines, 1, l8);
    let l9 = "for (size_t i = 0; i < a.length; ++i) { result.data[(size_t)rep * a.length + i] = a.data[i]; }".to_owned();
    add_line(&mut lines, 2, l9);
    let l10 = "}".to_owned();
    add_line(&mut lines, 1, l10);
    let l11 = "return result;".to_owned();
    add_line(&mut lines, 1, l11);
    let l12 = "}".to_owned();
    add_line(&mut lines, 0, l12);
    let l13 = "".to_owned();
    add_line(&mut lines, 0, l13);
    proof {
        assert(exec_lines_view(lines@) =~= array_repeat_lines(c@, s@));
    }
    lines
}

/// The slot and map structs of a map from `k` to `v` (suffix `x`, map type `m`, slot type `slot`), and the declaration of its setter.
pub open spec fn map_decls_lines(k: Seq<char>, v: Seq<char>, x: Seq<char>, m: Seq<char>, slot: Seq<char>) -> Seq<(nat, Seq<char>)> {
    seq![
        (0nat, "typedef struct { bool occupied; "@ + k + " key; "@ + v + " value; } "@ + slot + ";"@),
        (0nat, "typedef struct { size_t length; size_t capacity; "@ + slot + "* slots; } "@ + m + ";"@),
        (0nat, ""@),
        (0nat, "void map_set_"@ + x + "("@ + m + "* m, "@ + k + " key, "@ + v + " value);"@),
        (0nat, ""@),
    ]
}

pub(crate) fn map_decls_exec(k: &String, v: &String, x: &String, m: &String, slot: &String) -> (r: Vec<(usize, String)>)
    ensures
        exec_lines_view(r@) == map_decls_lines(k@, v@, x@, m@, slot@),
        forall|i: int| 0 <= i < r@.len() ==> #[trigger] r@[i].0 <= 3,
{
    let mut lines: Vec<(usize, String)> = Vec::new();
    let mut l0 = "typedef struct { bool occupied; ".to_owned();
    crate::text::push_string(&mut l0, k);
    l0.push_str(" key; ");
    crate::text::push_string(&mut l0, v);
    l0.push_str(" value; } ");
    crate::text::push_string(&mut l0, slot);
    l0.push_str(";");
    add_line(&mut lines, 0, l0);
    let mut l1 = "typedef struct { size_t length; size_t capacity; ".to_owned();
    crate::text::push_string(&mut l1, slot);
    l1.push_str("* slots; } ");
    crate::text::push_string(&mut l1, m);
    l1.push_str(";");
    add_line(&mut lines, 0, l1);
    let l2 = "".to_owned();
    add_line(&mut lines, 0, l2);
    let mut l3 = "void map_set_".to_owned();
    crate::text::push_string(&mut l3, x);
    l3.push_str("(");
    crate::text::push_string(&mut l3, m);
    l3.push_str("* m, ");
    crate::text::push_string(&mut l3, k);
    l3.push_str(" key, ");
    crate::text::push_string(&mut l3, v);
    l3.push_str(" value);");
    add_line(&mut lines, 0, l3);
    let l4 = "".to_owned();
    add_line(&mut lines, 0, l4);
    proof {
        assert(exec_lines_view(lines@) =~= map_decls_lines(k@, v@, x@, m@, slot@));
    }
    lines
}

/// The linear probe of a map from `k` (suffix `x`), comparing keys by `eq` and hashing by `hash`.
pub open spec fn map_probe_lines(k: Seq<char>, x: Seq<char>, slot: Seq<char>, eq: Seq<char>, hash: Seq<char>) -> Seq<(nat, Seq<char>)> {
    seq![
        (0nat, "size_t map_probe_"@ + x + "("@ + slot + "* slots, size_t capacity, "@ + k + " key) {"@),
        (1nat, "size_t mask = capacity - 1;"@),
        (1nat, "size_t idx = "@ + hash + " & mask;"@),
        (1nat, "while (slots[idx].occupied) {"@),
        (2nat, k + " a = slots[idx].key; "@ + k + " b = key;"@),
        (2nat, "if ("@ + eq + ") { return idx; }"@),
        (2nat, "idx = (idx + 1) & mask;"@),
        (1nat, "}"@),
        (1nat, "return idx;"@),
        (0nat, "}"@),
        (0nat, ""@),
    ]
}

pub(crate) fn map_probe_exec(k: &String, x: &String, slot: &String, eq: &String, hash: &String) -> (r: Vec<(usize, String)>)
    ensures
        exec_lines_view(r@) == map_probe_lines(k@, x@, slot@, eq@, hash@),
        forall|i: int| 0 <= i < r@.len() ==> #[trigger] r@[i].0 <= 3,
{
    let mut lines: Vec<(usize, String)> = Vec::new();
    let mut l0 = "size_t map_probe_".to_owned();
    crate::text::push_string(&mut l0, x);
    l0.push_str("(");
    crate::text::push_string(&mut l0, slot);
    l0.push_str("* slots, size_t capacity, ");
    crate::text::push_string(&mut l0, k);
    l0.push_str(" key) {");
    add_line(&mut lines, 0, l0);
    let l1 = "size_t mask = capacity - 1;".to_owned();
    add_line(&mut lines, 1, l1);
    let mut l2 = "size_t idx = ".to_owned();
    crate::text::push_string(&mut l2, hash);
    l2.push_str(" & mask;");
    add_line(&mut lines, 1, l2);
    let l3 = "while (slots[idx].occupied) {".to_owned();
    add_line(&mut lines, 1, l3);
    let mut l4 = k.clone();
    l4.push_str(" a = slots[idx].key; ");
    crate::text::push_string(&mut l4, k);
    l4.push_str(" b = key;");
    add_line(&mut lines, 2, l4);
    let mut l5 = "if (".to_owned();
    crate::text::push_string(&mut l5, eq);
    l5.push_str(") { return idx; }");
    add_line(&mut lines, 2, l5);
    let l6 = "idx = (idx + 1) & mask;".to_owned();
    add_line(&mut lines, 2, l6);
    let l7 = "}".to_owned();
    add_line(&mut lines, 1, l7);
    let l8 = "return idx;".to_owned();
    add_line(&mut lines, 1, l8);
    let l9 = "}".to_owned();
    add_line(&mut lines, 0, l9);
    let l10 = "".to_owned();
    add_line(&mut lines, 0, l10);
    proof {
        assert(exec_lines_view(lines@) =~= map_probe_lines(k@, x@, slot@, eq@, hash@));
    }
    lines
}

/// The rehashing of a map (suffix `x`, map type `m`, slot type `slot`) into a new capacity.
pub open spec fn map_resize_lines(x: Seq<char>, m: Seq<char>, slot: Seq<char>) -> Seq<(nat, Seq<char>)> {
    seq![
        (0nat, "void map_resize_"@ + x + "("@ + m + "* m, size_t new_capacity) {"@),
        (1nat, slot + "* old_slots = m->slots;"@),
        (1nat, "size_t old_capacity = m->capacity;"@),
        (1nat, slot + "* new_slots = ("@ + slot + "*)calloc(new_capacity, sizeof("@ + slot + "));"@),
        (1nat, "if (!new_slots) { fprintf(stderr, \"Out of memory in map_resize\\n\"); exit(1); }"@),
        (1nat, "m->slots = new_slots;"@),
        (1nat, "m->capacity = new_capacity;"@),
        (1nat, "for (size_t i = 0; i < old_capacity; ++i) {"@),
        (2nat, "if (!old_slots[i].occupied) { continue; }"@),
        (2nat, "size_t target = map_probe_"@ + x + "(new_slots, new_capacity, old_slots[i].key);"@),
        (2nat, "new_slots[target].occupied = true;"@),
        (2nat, "new_slots[target].key = old_slots[i].key;"@),
        (2nat, "new_slots[target].value = old_slots[i].value;"@),
        (1nat, "}"@),
        (1nat, "free(old_slots);"@),
        (0nat, "}"@),
        (0nat, ""@),
    ]
}

pub(crate) fn map_resize_exec(x: &String, m: &String, slot: &String) -> (r: Vec<(usize, String)>)
    ensures
        exec_lines_view(r@) == map_resize_lines(x@, m@, slot@),
        forall|i: int| 0 <= i < r@.len() ==> #[trigger] r@[i].0 <= 3,
{
    let mut lines: Vec<(usize, String)> = Vec::new();
    let mut l0 = "void map_resize_".to_owned();
    crate::text::push_string(&mut l0, x);
    l0.push_str("(");
    crate::text::push_string(&mut l0, m);
    l0.push_str("* m, size_t new_capacity) {");
    add_line(&mut lines, 0, l0);
    let mut l1 = slot.clone();
    l1.push_str("* old_slots = m->slots;");
    add_line(&mut lines, 1, l1);
    let l2 = "size_t old_capacity = m->capacity;".to_owned();
    add_line(&mut lines, 1, l2);
    let mut l3 = slot.clone();
    l3.push_str("* new_slots = (");
    crate::text::push_string(&mut l3, slot);
    l3.push_str("*)calloc(new_capacity, sizeof(");
    crate::text::push_string(&mut l3, slot);
    l3.push_str("));");
    add_line(&mut lines, 1, l3);
    let l4 = "if (!new_slots) { fprintf(stderr, \"Out of memory in map_resize\\n\"); exit(1); }".to_owned();
    add_line(&mut lines, 1, l4);
    let l5 = "m->slots = new_slots;".to_owned();
    add_line(&mut lines, 1, l5);
    let l6 = "m->capacity = new_capacity;".to_owned();
    add_line(&mut lines, 1, l6);
    let l7 = "for (size_t i = 0; i < old_capacity; ++i) {".to_owned();
    add_line(&mut lines, 1, l7);
    let l8 = "if (!old_slots[i].occupied) { continue; }".to_owned();
    add_line(&mut lines, 2, l8);
    let mut l9 = "size_t target = map_probe_".to_owned();
    crate::text::push_string(&mut l9, x);
    l9.push_str("(new_slots, new_capacity, old_slots[i].key);");
    add_line(&mut lines, 2, l9);
    let l10 = "new_slots[target].occupied = true;".to_owned();
    add_line(&mut lines, 2, l10);
    let l11 = "new_slots[target].key = old_slots[i].key;".to_owned();
    add_line(&mut lines, 2, l11);
    let l12 = "new_slots[target].value = old_slots[i].value;".to_owned();
    add_line(&mut lines, 2, l12);
    let l13 = "}".to_owned();
    add_line(&mut lines, 1, l13);
    let l14 = "free(old_slots);".to_owned();
    add_line(&mut lines, 1, l14);
    let l15 = "}".to_owned();
    add_line(&mut lines, 0, l15);
    let l16 = "".to_owned();
    add_line(&mut lines, 0, l16);
    proof {
        assert(exec_lines_view(lines@) =~= map_resize_lines(x@, m@, slot@));
    }
    lines
}

/// The lookup of a key in a map from `k` to `v` (suffix `x`, map type `m`).
pub open spec fn map_get_lines(k: Seq<char>, v: Seq<char>, x: Seq<char>, m: Seq<char>) -> Seq<(nat, Seq<char>)> {
    seq![
        (0nat, v + " map_get_"@ + x + "("@ + m + " m, "@ + k + " key) {"@),
        (1nat, "if (m.capacity == 0) { fprintf(stderr, \"Map key not found\\n\"); exit(1); }"@),
        (1nat, "size_t idx = map_probe_"@ + x + "(m.slots, m.capacity, key);"@),
        (1nat, "if (!m.slots[idx].occupied) { fprintf(stderr, \"Map key not found\\n\"); exit(1); }"@),
        (1nat, "return m.slots[idx].value;"@),
        (0nat, "}"@),
        (0nat, ""@),
    ]
}

pub(crate) fn map_get_exec(k: &String, v: &String, x: &String, m: &String) -> (r: Vec<(usize, String)>)
    ensures
        exec_lines_view(r@) == map_get_lines(k@, v@, x@, m@),
        forall|i: int| 0 <= i < r@.len() ==> #[trigger] r@[i].0 <= 3,
{
    let mut lines: Vec<(usize, String)> = Vec::new();
    let mut l0 = v.clone();
    l0.push_str(" map_get_");
    crate::text::push_string(&mut l0, x);
    l0.push_str("(");
    crate::text::push_string(&mut l0, m);
    l0.push_str(" m, ");
    crate::text::push_string(&mut l0, k);
    l0.push_str(" key) {");
    add_line(&mut lines, 0, l0);
    let l1 = "if (m.capacity == 0) { fprintf(stderr, \"Map key not found\\n\"); exit(1); }".to_owned();
    add_line(&mut lines, 1, l1);
    let mut l2 = "size_t idx = map_probe_".to_owned();
    crate::text::push_string(&mut l2, x);
    l2.push_str("(m.slots, m.capacity, key);");
    add_line(&mut lines, 1, l2);
    let l3 = "if (!m.slots[idx].occupied) { fprintf(stderr, \"Map key not found\\n\"); exit(1); }".to_owned();
    add_line(&mut lines, 1, l3);
    let l4 = "return m.slots[idx].value;".to_owned();
    add_line(&mut lines, 1, l4);
    let l5 = "}".to_owned();
    add_line(&mut lines, 0, l5);
    let l6 = "".to_owned();
    add_line(&mut lines, 0, l6);
    proof {
        assert(exec_lines_view(lines@) =~= map_get_lines(k@, v@, x@, m@));
    }
    lines
}

/// The update of a key in a map from `k` to `v` (suffix `x`, map type `m`).
pub open spec fn map_set_lines(k: Seq<char>, v: Seq<char>, x: Seq<char>, m: Seq<char>) -> Seq<(nat, Seq<char>)> {
    seq![
        (0nat, "void map_set_"@ + x + "("@ + m + "* m, "@ + k + " key, "@ + v + " value) {"@),
        (1nat, "if (m->capacity == 0) {"@),
        (2nat, "map_resize_"@ + x + "(m, 8);"@),
        (1nat, "} else if ((m->length + 1) * 2 >= m->capacity) {"@),
        (2nat, "map_resize_"@ + x + "(m, m->capacity * 2);"@),
        (1nat, "}"@),
        (1nat, "size_t idx = map_probe_"@ + x + "(m->slots, m->capacity, key);"@),
        (1nat, "if (m->slots[idx].occupied) {"@),
        (2nat, "m->slots[idx].value = value;"@),
        (2nat, "return;"@),
        (1nat, "}"@),
        (1nat, "m->slots[idx].occupied = true;"@),
        (1nat, "m->slots[idx].key = key;"@),
        (1nat, "m->slots[idx].value = value;"@),
        (1nat, "++m->length;"@),
        (0nat, "}"@),
        (0nat, ""@),
    ]
}

pub(crate) fn map_set_exec(k: &String, v: &String, x: &String, m: &String) -> (r: Vec<(usize, String)>)
    ensures
        exec_lines_view(r@) == map_set_lines(k@, v@, x@, m@),
        forall|i: int| 0 <= i < r@.len() ==> #[trigger] r@[i].0 <= 3,
{
    let mut lines: Vec<(usize, String)> = Vec::new();
    let mut l0 = "void map_set_".to_owned();
    crate::text::push_string(&mut l0, x);
    l0.push_str("(");
    crate::text::push_string(&mut l0, m);
    l0.push_str("* m, ");
    crate::text::push_string(&mut l0, k);
    l0.push_str(" key, ");
    crate::text::push_string(&mut l0, v);
    l0.push_str(" value) {");
    add_line(&mut lines, 0, l0);
    let l1 = "if (m->capacity == 0) {".to_owned();
    add_line(&mut lines, 1, l1);
    let mut l2 = "map_resize_".to_owned();
    crate::text::push_string(&mut l2, x);
    l2.push_str("(m, 8);");
    add_line(&mut lines, 2, l2);
    let l3 = "} else if ((m->length + 1) * 2 >= m->capacity) {".to_owned();
    add_line(&mut lines, 1, l3);
    let mut l4 = "map_resize_".to_owned();
    crate::text::push_string(&mut l4, x);
    l4.push_str("(m, m->capacity * 2);");
    add_line(&mut lines, 2, l4);
    let l5 = "}".to_owned();
    add_line(&mut lines, 1, l5);
    let mut l6 = "size_t idx = map_probe_".to_owned();
    crate::text::push_string(&mut l6, x);
    l6.push_str("(m->slots, m->capacity, key);");
    add_line(&mut lines, 1, l6);
    let l7 = "if (m->slots[idx].occupied) {".to_owned();
    add_line(&mut lines, 1, l7);
    let l8 = "m->slots[idx].value = value;".to_owned();
    add_line(&mut lines, 2, l8);
    let l9 = "return;".to_owned();
    add_line(&mut lines, 2, l9);
    let l10 = "}".to_owned();
    add_line(&mut lines, 1, l10);
    let l11 = "m->slots[idx].occupied = true;".to_owned();
    add_line(&mut lines, 1, l11);
    let l12 = "m->slots[idx].key = key;".to_owned();
    add_line(&mut lines, 1, l12);
    let l13 = "m->slots[idx].value = value;".to_owned();
    add_line(&mut lines, 1, l13);
    let l14 = "++m->length;".to_owned();
    add_line(&mut lines, 1, l14);
    let l15 = "}".to_owned();
    add_line(&mut lines, 0, l15);
    let l16 = "".to_owned();
    add_line(&mut lines, 0, l16);
    proof {
        assert(exec_lines_view(lines@) =~= map_set_lines(k@, v@, x@, m@));
    }
    lines
}

/// The construction of a map from `k` to `v` (suffix `x`, map type `m`) from arrays of keys and values.
pub open spec fn map_make_lines(k: Seq<char>, v: Seq<char>, x: Seq<char>, m: Seq<char>) -> Seq<(nat, Seq<char>)> {
    seq![
        (0nat, m + " make_"@ + m + "(size_t count, "@ + k + " const* in_keys, "@ + v + " const* in_values) {"@),
        (1nat, m + " m;"@),
        (1nat, "m.length = 0;"@),
        (1nat, "m.capacity = 0;"@),
        (1nat, "m.slots = NULL;"@),
        (1nat, "for (size_t i = 0; i < count; ++i) {"@),
        (2nat, "map_set_"@ + x + "(&m, in_keys[i], in_values[i]);"@),
        (1nat, "}"@),
        (1nat, "return m;"@),
        (0nat, "}"@),
        (0nat, ""@),
    ]
}

pub(crate) fn map_make_exec(k: &String, v: &String, x: &String, m: &String) -> (r: Vec<(usize, String)>)
    ensures
        exec_lines_view(r@) == map_make_lines(k@, v@, x@, m@),
        forall|i: int| 0 <= i < r@.len() ==> #[trigger] r@[i].0 <= 3,
{
    let mut lines: Vec<(usize, String)> = Vec::new();
    let mut l0 = m.clone();
    l0.push_str(" make_");
    crate::text::push_string(&mut l0, m);
    l0.push_str("(size_t count, ");
    crate::text::push_string(&mut l0, k);
    l0.push_str(" const* in_keys, ");
    crate::text::push_string(&mut l0, v);
    l0.push_str(" const* in_values) {");
    add_line(&mut lines, 0, l0);
    let mut l1 = m.clone();
    l1.push_str(" m;");
    add_line(&mut lines, 1, l1);
    let l2 = "m.length = 0;".to_owned();
    add_line(&mut lines, 1, l2);
    let l3 = "m.capacity = 0;".to_owned();
    add_line(&mut lines, 1, l3);
    let l4 = "m.slots = NULL;".to_owned();
    add_line(&mut lines, 1, l4);
    let l5 = "for (size_t i = 0; i < count; ++i) {".to_owned();
    add_line(&mut lines, 1, l5);
    let mut l6 = "map_set_".to_owned();
    crate::text::push_string(&mut l6, x);
    l6.push_str("(&m, in_keys[i], in_values[i]);");
    add_line(&mut lines, 2, l6);
    let l7 = "}".to_owned();
    add_line(&mut lines, 1, l7);
    let l8 = "return m;".to_owned();
    add_line(&mut lines, 1, l8);
    let l9 = "}".to_owned();
    add_line(&mut lines, 0, l9);
    let l10 = "".to_owned();
    add_line(&mut lines, 0, l10);
    proof {
        assert(exec_lines_view(lines@) =~= map_make_lines(k@, v@, x@, m@));
    }
    lines
}

/// The history struct of values of C type `c` (suffix `s`, struct `h`) and its cursor hooks.
pub open spec fn history_struct_lines(c: Seq<char>, s: Seq<char>, h: Seq<char>) -> Seq<(nat, Seq<char>)> {
    seq![
        (0nat, "typedef struct {"@),
        (1nat, c + "* states;"@),
        (1nat, "DeloEventId* event_ids;"@),
        (1nat, "size_t length;"@),
        (1nat, "size_t capacity;"@),
        (1nat, "size_t cursor;"@),
        (1nat, "DeloEventId* log_events;"@),
        (1nat, c + "* log_values;"@),
        (1nat, "size_t log_len;"@),
        (1nat, "size_t log_cap;"@),
        (0nat, "} "@ + h + ";"@),
        (0nat, ""@),
        (0nat, "static void history_reset_cursor_"@ + s + "(void* p) { (("@ + h + "*)p)->cursor = 0; }"@),
        (0nat, "static void history_truncate_"@ + s + "(void* p) { (("@ + h + "*)p)->length = (("@ + h + "*)p)->cursor; }"@),
        (0nat, ""@),
    ]
}

pub(crate) fn history_struct_exec(c: &String, s: &String, h: &String) -> (r: Vec<(usize, String)>)
    ensures
        exec_lines_view(r@) == history_struct_lines(c@, s@, h@),
        forall|i: int| 0 <= i < r@.len() ==> #[trigger] r@[i].0 <= 3,
{
    let mut lines: Vec<(usize, String)> = Vec::new();
    let l0 = "typedef struct {".to_owned();
    add_line(&mut lines, 0, l0);
    let mut l1 = c.clone();
    l1.push_str("* states;");
    add_line(&mut lines, 1, l1);
    let l2 = "DeloEventId* event_ids;".to_owned();
    add_line(&mut lines, 1, l2);
    let l3 = "size_t length;".to_owned();
    add_line(&mut lines, 1, l3);
    let l4 = "size_t capacity;".to_owned();
    add_line(&mut lines, 1, l4);
    let l5 = "size_t cursor;".to_owned();
    add_line(&mut lines, 1, l5);
    let l6 = "DeloEventId* log_events;".to_owned();
    add_line(&mut lines, 1, l6);
    let mut l7 = c.clone();
    l7.push_str("* log_values;");
    add_line(&mut lines, 1, l7);
    let l8 = "size_t log_len;".to_owned();
    add_line(&mut lines, 1, l8);
    let l9 = "size_t log_cap;".to_owned();
    add_line(&mut lines, 1, l9);
    let mut l10 = "} ".to_owned();
    crate::text::push_string(&mut l10, h);
    l10.push_str(";");
    add_line(&mut lines, 0, l10);
    let l11 = "".to_owned();
    add_line(&mut lines, 0, l11);
    let mut l12 = "static void history_reset_cursor_".to_owned();
    crate::text::push_string(&mut l12, s);
    l12.push_str("(void* p) { ((");
    crate::text::push_string(&mut l12, h);
    l12.push_str("*)p)->cursor = 0; }");
    add_line(&mut lines, 0, l12);
    let mut l13 = "static void history_truncate_".to_owned();
    crate::text::push_string(&mut l13, s);
    l13.push_str("(void* p) { ((");
    crate::text::push_string(&mut l13, h);
    l13.push_str("*)p)->length = ((");
    crate::text::push_string(&mut l13, h);
    l13.push_str("*)p)->cursor; }");
    add_line(&mut lines, 0, l13);
    let l14 = "".to_owned();
    add_line(&mut lines, 0, l14);
    proof {
        assert(exec_lines_view(lines@) =~= history_struct_lines(c@, s@, h@));
    }
    lines
}

/// The allocation and registration of a history (suffix `s`, struct `h`).
pub open spec fn history_alloc_lines(c: Seq<char>, s: Seq<char>, h: Seq<char>) -> Seq<(nat, Seq<char>)> {
    seq![
        (0nat, "static "@ + h + "* history_alloc_"@ + s + "(void) {"@),
        (1nat, h + "* h = ("@ + h + "*)malloc(sizeof("@ + h + "));"@),
        (1nat, "h->capacity = 4;"@),
        (1nat, "h->states = ("@ + c + "*)malloc(sizeof("@ + c + ") * h->capacity);"@),
        (1nat, "h->event_ids = (DeloEventId*)malloc(sizeof(DeloEventId) * h->capacity);"@),
        (1nat, "h->length = 0;"@),
        (1nat, "h->cursor = 0;"@),
        (1nat, "h->log_cap = 0;"@),
        (1nat, "h->log_len = 0;"@),
        (1nat, "h->log_events = NULL;"@),
        (1nat, "h->log_values = NULL;"@),
        (1nat, "delo_register_history((void*)h, history_reset_cursor_"@ + s + ", history_truncate_"@ + s + ");"@),
        (1nat, "return h;"@),
        (0nat, "}"@),
        (0nat, ""@),
    ]
}

pub(crate) fn history_alloc_exec(c: &String, s: &String, h: &String) -> (r: Vec<(usize, String)>)
    ensures
        exec_lines_view(r@) == history_alloc_lines(c@, s@, h@),
        forall|i: int| 0 <= i < r@.len() ==> #[trigger] r@[i].0 <= 3,
{
    let mut lines: Vec<(usize, String)> = Vec::new();
    let mut l0 = "static ".to_owned();
    crate::text::push_string(&mut l0, h);
    l0.push_str("* history_alloc_");
    crate::text::push_string(&mut l0, s);
    l0.push_str("(void) {");
    add_line(&mut lines, 0, l0);
    let mut l1 = h.clone();
    l1.push_str("* h = (");
    crate::text::push_string(&mut l1, h);
    l1.push_str("*)malloc(sizeof(");
    crate::text::push_string(&mut l1, h);
    l1.push_str("));");
    add_line(&mut lines, 1, l1);
    let l2 = "h->capacity = 4;".to_owned();
    add_line(&mut lines, 1, l2);
    let mut l3 = "h->states = (".to_owned();
    crate::text::push_string(&mut l3, c);
    l3.push_str("*)malloc(sizeof(");
    crate::text::push_string(&mut l3, c);
    l3.push_str(") * h->capacity);");
    add_line(&mut lines, 1, l3);
    let l4 = "h->event_ids = (DeloEventId*)malloc(sizeof(DeloEventId) * h->capacity);".to_owned();
    add_line(&mut lines, 1, l4);
    let l5 = "h->length = 0;".to_owned();
    add_line(&mut lines, 1, l5);
    let l6 = "h->cursor = 0;".to_owned();
    add_line(&mut lines, 1, l6);
    let l7 = "h->log_cap = 0;".to_owned();
    add_line(&mut lines, 1, l7);
    let l8 = "h->log_len = 0;".to_owned();
    add_line(&mut lines, 1, l8);
    let l9 = "h->log_events = NULL;".to_owned();
    add_line(&mut lines, 1, l9);
    let l10 = "h->log_values = NULL;".to_owned();
    add_line(&mut lines, 1, l10);
    let mut l11 = "delo_register_history((void*)h, history_reset_cursor_".to_owned();
    crate::text::push_string(&mut l11, s);
    l11.push_str(", history_truncate_");
    crate::text::push_string(&mut l11, s);
    l11.push_str(");");
    add_line(&mut lines, 1, l11);
    let l12 = "return h;".to_owned();
    add_line(&mut lines, 1, l12);
    let l13 = "}".to_owned();
    add_line(&mut lines, 0, l13);
    let l14 = "".to_owned();
    add_line(&mut lines, 0, l14);
    proof {
        assert(exec_lines_view(lines@) =~= history_alloc_lines(c@, s@, h@));
    }
    lines
}

/// The lookup of a logged value of a history (suffix `s`, struct `h`) for an event.
pub open spec fn history_check_log_lines(c: Seq<char>, s: Seq<char>, h: Seq<char>) -> Seq<(nat, Seq<char>)> {
    seq![
        (0nat, "static bool history_check_log_"@ + s + "("@ + h + "* h, DeloEventId current, "@ + c + "* out) {"@),
        (1nat, "for (size_t i = 0; i < h->log_len; i++) {"@),
        (2nat, "if (delo_event_id_eq(h->log_events[i], current)) { *out = h->log_values[i]; return true; }"@),
        (1nat, "}"@),
        (1nat, "return false;"@),
        (0nat, "}"@),
        (0nat, ""@),
    ]
}

pub(crate) fn history_check_log_exec(c: &String, s: &String, h: &String) -> (r: Vec<(usize, String)>)
    ensures
        exec_lines_view(r@) == history_check_log_lines(c@, s@, h@),
        forall|i: int| 0 <= i < r@.len() ==> #[trigger] r@[i].0 <= 3,
{
    let mut lines: Vec<(usize, String)> = Vec::new();
    let mut l0 = "static bool history_check_log_".to_owned();
    crate::text::push_string(&mut l0, s);
    l0.push_str("(");
    crate::text::push_string(&mut l0, h);
    l0.push_str("* h, DeloEventId current, ");
    crate::text::push_string(&mut l0, c);
    l0.push_str("* out) {");
    add_line(&mut lines, 0, l0);
    let l1 = "for (size_t i = 0; i < h->log_len; i++) {".to_owned();
    add_line(&mut lines, 1, l1);
    let l2 = "if (delo_event_id_eq(h->log_events[i], current)) { *out = h->log_values[i]; return true; }".to_owned();
    add_line(&mut lines, 2, l2);
    let l3 = "}".to_owned();
    add_line(&mut lines, 1, l3);
    let l4 = "return false;".to_owned();
    add_line(&mut lines, 1, l4);
    let l5 = "}".to_owned();
    add_line(&mut lines, 0, l5);
    let l6 = "".to_owned();
    add_line(&mut lines, 0, l6);
    proof {
        assert(exec_lines_view(lines@) =~= history_check_log_lines(c@, s@, h@));
    }
    lines
}

/// The logging of a value of a history (suffix `s`, struct `h`) for an event.
pub open spec fn history_log_lines(c: Seq<char>, s: Seq<char>, h: Seq<char>) -> Seq<(nat, Seq<char>)> {
    seq![
        (0nat, "static void history_log_"@ + s + "("@ + h + "* h, DeloEventId target, "@ + c + " val) {"@),
        (1nat, "for (size_t i = 0; i < h->log_len; i++) {"@),
        (2nat, "if (delo_event_id_eq(h->log_events[i], target)) { h->log_values[i] = val; return; }"@),
        (1nat, "}"@),
        (1nat, "if (h->log_len >= h->log_cap) {"@),
        (2nat, "h->log_cap = h->log_cap == 0 ? 4 : h->log_cap * 2;"@),
        (2nat, "h->log_events = (DeloEventId*)realloc(h->log_events, sizeof(DeloEventId) * h->log_cap);"@),
        (2nat, "h->log_values = ("@ + c + "*)realloc(h->log_values, sizeof("@ + c + ") * h->log_cap);"@),
        (1nat, "}"@),
        (1nat, "h->log_events[h->log_len] = target;"@),
        (1nat, "h->log_values[h->log_len] = val;"@),
        (1nat, "h->log_len++;"@),
        (0nat, "}"@),
        (0nat, ""@),
    ]
}

pub(crate) fn history_log_exec(c: &String, s: &String, h: &String) -> (r: Vec<(usize, String)>)
    ensures
        exec_lines_view(r@) == history_log_lines(c@, s@, h@),
        forall|i: int| 0 <= i < r@.len() ==> #[trigger] r@[i].0 <= 3,
{
    let mut lines: Vec<(usize, String)> = Vec::new();
    let mut l0 = "static void history_log_".to_owned();
    crate::text::push_string(&mut l0, s);
    l0.push_str("(");
    crate::text::push_string(&mut l0, h);
    l0.push_str("* h, DeloEventId target, ");
    crate::text::push_string(&mut l0, c);
    l0.push_str(" val) {");
    add_line(&mut lines, 0, l0);
    let l1 = "for (size_t i = 0; i < h->log_len; i++) {".to_owned();
    add_line(&mut lines, 1, l1);
    let l2 = "if (delo_event_id_eq(h->log_events[i], target)) { h->log_values[i] = val; return; }".to_owned();
    add_line(&mut lines, 2, l2);
    let l3 = "}".to_owned();
    add_line(&mut lines, 1, l3);
    let l4 = "if (h->log_len >= h->log_cap) {".to_owned();
    add_line(&mut lines, 1, l4);
    let l5 = "h->log_cap = h->log_cap == 0 ? 4 : h->log_cap * 2;".to_owned();
    add_line(&mut lines, 2, l5);
    let l6 = "h->log_events = (DeloEventId*)realloc(h->log_events, sizeof(DeloEventId) * h->log_cap);".to_owned();
    add_line(&mut lines, 2, l6);
    let mut l7 = "h->log_values = (".to_owned();
    crate::text::push_string(&mut l7, c);
    l7.push_str("*)realloc(h->log_values, sizeof(");
    crate::text::push_string(&mut l7, c);
    l7.push_str(") * h->log_cap);");
    add_line(&mut lines, 2, l7);
    let l8 = "}".to_owned();
    add_line(&mut lines, 1, l8);
    let l9 = "h->log_events[h->log_len] = target;".to_owned();
    add_line(&mut lines, 1, l9);
    let l10 = "h->log_values[h->log_len] = val;".to_owned();
    add_line(&mut lines, 1, l10);
    let l11 = "h->log_len++;".to_owned();
    add_line(&mut lines, 1, l11);
    let l12 = "}".to_owned();
    add_line(&mut lines, 0, l12);
    let l13 = "".to_owned();
    add_line(&mut lines, 0, l13);
    proof {
        assert(exec_lines_view(lines@) =~= history_log_lines(c@, s@, h@));
    }
    lines
}

/// The assignment of a value to a history (suffix `s`, struct `h`), replaying logged values.
pub open spec fn history_assign_lines(c: Seq<char>, s: Seq<char>, h: Seq<char>) -> Seq<(nat, Seq<char>)> {
    seq![
        (0nat, "static void history_assign_"@ + s + "("@ + h + "* h, "@ + c + " computed_val) {"@),
        (1nat, "delo_increment_local_event();"@),
        (1nat, "DeloEventId evt = delo_capture_event_id();"@),
        (1nat, c + " val = computed_val;"@),
        (1nat, c + " forced;"@),
        (1nat, "if (delo_replay_mode && history_check_log_"@ + s + "(h, evt, &forced)) val = forced;"@),
        (1nat, "if (h->cursor < h->length) {"@),
        (2nat, "h->states[h->cursor] = val;"@),
        (2nat, "h->event_ids[h->cursor] = evt;"@),
        (1nat, "} else {"@),
        (2nat, "if (h->length >= h->capacity) {"@),
        (3nat, "h->capacity *= 2;"@),
        (3nat, "h->states = ("@ + c + "*)realloc(h->states, sizeof("@ + c + ") * h->capacity);"@),
        (3nat, "h->event_ids = (DeloEventId*)realloc(h->event_ids, sizeof(DeloEventId) * h->capacity);"@),
        (2nat, "}"@),
        (2nat, "h->states[h->length] = val;"@),
        (2nat, "h->event_ids[h->length] = evt;"@),
        (2nat, "h->length++;"@),
        (1nat, "}"@),
        (1nat, "h->cursor++;"@),
        (1nat, "if (delo_replay_mode && delo_at_resume_event(evt)) { delo_replay_mode = false; delo_truncate_all(); }"@),
        (0nat, "}"@),
        (0nat, ""@),
    ]
}

pub(crate) fn history_assign_exec(c: &String, s: &String, h: &String) -> (r: Vec<(usize, String)>)
    ensures
        exec_lines_view(r@) == history_assign_lines(c@, s@, h@),
        forall|i: int| 0 <= i < r@.len() ==> #[trigger] r@[i].0 <= 3,
{
    let mut lines: Vec<(usize, String)> = Vec::new();
    let mut l0 = "static void history_assign_".to_owned();
    crate::text::push_string(&mut l0, s);
    l0.push_str("(");
    crate::text::push_string(&mut l0, h);
    l0.push_str("* h, ");
    crate::text::push_string(&mut l0, c);
    l0.push_str(" computed_val) {");
    add_line(&mut lines, 0, l0);
    let l1 = "delo_increment_local_event();".to_owned();
    add_line(&mut lines, 1, l1);
    let l2 = "DeloEventId evt = delo_capture_event_id();".to_owned();
    add_line(&mut lines, 1, l2);
    let mut l3 = c.clone();
    l3.push_str(" val = computed_val;");
    add_line(&mut lines, 1, l3);
    let mut l4 = c.clone();
    l4.push_str(" forced;");
    add_line(&mut lines, 1, l4);
    let mut l5 = "if (delo_replay_mode && history_check_log_".to_owned();
    crate::text::push_string(&mut l5, s);
    l5.push_str("(h, evt, &forced)) val = forced;");
    add_line(&mut lines, 1, l5);
    let l6 = "if (h->cursor < h->length) {".to_owned();
    add_line(&mut lines, 1, l6);
    let l7 = "h->states[h->cursor] = val;".to_owned();
    add_line(&mut lines, 2, l7);
    let l8 = "h->event_ids[h->cursor] = evt;".to_owned();
    add_line(&mut lines, 2, l8);
    let l9 = "} else {".to_owned();
    add_line(&mut lines, 1, l9);
    let l10 = "if (h->length >= h->capacity) {".to_owned();
    add_line(&mut lines, 2, l10);
    let l11 = "h->capacity *= 2;".to_owned();
    add_line(&mut lines, 3, l11);
    let mut l12 = "h->states = (".to_owned();
    crate::text::push_string(&mut l12, c);
    l12.push_str("*)realloc(h->states, sizeof(");
    crate::text::push_string(&mut l12, c);
    l12.push_str(") * h->capacity);");
    add_line(&mut lines, 3, l12);
    let l13 = "h->event_ids = (DeloEventId*)realloc(h->event_ids, sizeof(DeloEventId) * h->capacity);".to_owned();
    add_line(&mut lines, 3, l13);
    let l14 = "}".to_owned();
    add_line(&mut lines, 2, l14);
    let l15 = "h->states[h->length] = val;".to_owned();
    add_line(&mut lines, 2, l15);
    let l16 = "h->event_ids[h->length] = evt;".to_owned();
    add_line(&mut lines, 2, l16);
    let l17 = "h->length++;".to_owned();
    add_line(&mut lines, 2, l17);
    let l18 = "}".to_owned();
    add_line(&mut lines, 1, l18);
    let l19 = "h->cursor++;".to_owned();
    add_line(&mut lines, 1, l19);
    let l20 = "if (delo_replay_mode && delo_at_resume_event(evt)) { delo_replay_mode = false; delo_truncate_all(); }".to_owned();
    add_line(&mut lines, 1, l20);
    let l21 = "}".to_owned();
    add_line(&mut lines, 0, l21);
    let l22 = "".to_owned();
    add_line(&mut lines, 0, l22);
    proof {
        assert(exec_lines_view(lines@) =~= history_assign_lines(c@, s@, h@));
    }
    lines
}

/// The reads of the current and of an earlier value of a history (suffix `s`, struct `h`).
pub open spec fn history_access_lines(c: Seq<char>, s: Seq<char>, h: Seq<char>) -> Seq<(nat, Seq<char>)> {
    seq![
        (0nat, "static "@ + c + " history_current_"@ + s + "("@ + h + "* h) { return h->states[h->cursor - 1]; }"@),
        (0nat, ""@),
        (0nat, "static "@ + c + " history_get_"@ + s + "("@ + h + "* h, size_t index) {"@),
        (1nat, "if (index >= h->length) { fprintf(stderr, \"time-travel index out of range\\n\"); exit(1); }"@),
        (1nat, "return h->states[index];"@),
        (0nat, "}"@),
        (0nat, ""@),
    ]
}

pub(crate) fn history_access_exec(c: &String, s: &String, h: &String) -> (r: Vec<(usize, String)>)
    ensures
        exec_lines_view(r@) == history_access_lines(c@, s@, h@),
        forall|i: int| 0 <= i < r@.len() ==> #[trigger] r@[i].0 <= 3,
{
    let mut lines: Vec<(usize, String)> = Vec::new();
    let mut l0 = "static ".to_owned();
    crate::text::push_string(&mut l0, c);
    l0.push_str(" history_current_");
    crate::text::push_string(&mut l0, s);
    l0.push_str("(");
    crate::text::push_string(&mut l0, h);
    l0.push_str("* h) { return h->states[h->cursor - 1]; }");
    add_line(&mut lines, 0, l0);
    let l1 = "".to_owned();
    add_line(&mut lines, 0, l1);
    let mut l2 = "static ".to_owned();
    crate::text::push_string(&mut l2, c);
    l2.push_str(" history_get_");
    crate::text::push_string(&mut l2, s);
    l2.push_str("(");
    crate::text::push_string(&mut l2, h);
    l2.push_str("* h, size_t index) {");
    add_line(&mut lines, 0, l2);
    let l3 = "if (index >= h->length) { fprintf(stderr, \"time-travel index out of range\\n\"); exit(1); }".to_owned();
    add_line(&mut lines, 1, l3);
    let l4 = "return h->states[index];".to_owned();
    add_line(&mut lines, 1, l4);
    let l5 = "}".to_owned();
    add_line(&mut lines, 0, l5);
    let l6 = "".to_owned();
    add_line(&mut lines, 0, l6);
    proof {
        assert(exec_lines_view(lines@) =~= history_access_lines(c@, s@, h@));
    }
    lines
}

/// The write of an earlier value of a history (suffix `s`, struct `h`), which replays the program.
pub open spec fn history_tt_write_lines(c: Seq<char>, s: Seq<char>, h: Seq<char>) -> Seq<(nat, Seq<char>)> {
    seq![
        (0nat, "static void history_tt_write_"@ + s + "("@ + h + "* h, size_t index, "@ + c + " val) {"@),
        (1nat, "delo_increment_local_event();"@),
        (1nat, "DeloEventId evt = delo_capture_event_id();"@),
        (1nat, "if (delo_replay_mode) {"@),
        (2nat, "if (delo_at_resume_event(evt)) { delo_replay_mode = false; delo_truncate_all(); }"@),
        (2nat, "return;"@),
        (1nat, "}"@),
        (1nat, "if (index >= h->length) { fprintf(stderr, \"time-travel write index out of range\\n\"); exit(1); }"@),
        (1nat, "DeloEventId target = h->event_ids[index];"@),
        (1nat, "history_log_"@ + s + "(h, target, val);"@),
        (1nat, "delo_trigger_replay(evt);"@),
        (0nat, "}"@),
        (0nat, ""@),
    ]
}

pub(crate) fn history_tt_write_exec(c: &String, s: &String, h: &String) -> (r: Vec<(usize, String)>)
    ensures
        exec_lines_view(r@) == history_tt_write_lines(c@, s@, h@),
        forall|i: int| 0 <= i < r@.len() ==> #[trigger] r@[i].0 <= 3,
{
    let mut lines: Vec<(usize, String)> = Vec::new();
    let mut l0 = "static void history_tt_write_".to_owned();
    crate::text::push_string(&mut l0, s);
    l0.push_str("(");
    crate::text::push_string(&mut l0, h);
    l0.push_str("* h, size_t index, ");
    crate::text::push_string(&mut l0, c);
    l0.push_str(" val) {");
    add_line(&mut lines, 0, l0);
    let l1 = "delo_increment_local_event();".to_owned();
    add_line(&mut lines, 1, l1);
    let l2 = "DeloEventId evt = delo_capture_event_id();".to_owned();
    add_line(&mut lines, 1, l2);
    let l3 = "if (delo_replay_mode) {".to_owned();
    add_line(&mut lines, 1, l3);
    let l4 = "if (delo_at_resume_event(evt)) { delo_replay_mode = false; delo_truncate_all(); }".to_owned();
    add_line(&mut lines, 2, l4);
    let l5 = "return;".to_owned();
    add_line(&mut lines, 2, l5);
    let l6 = "}".to_owned();
    add_line(&mut lines, 1, l6);
    let l7 = "if (index >= h->length) { fprintf(stderr, \"time-travel write index out of range\\n\"); exit(1); }".to_owned();
    add_line(&mut lines, 1, l7);
    let l8 = "DeloEventId target = h->event_ids[index];".to_owned();
    add_line(&mut lines, 1, l8);
    let mut l9 = "history_log_".to_owned();
    crate::text::push_string(&mut l9, s);
    l9.push_str("(h, target, val);");
    add_line(&mut lines, 1, l9);
    let l10 = "delo_trigger_replay(evt);".to_owned();
    add_line(&mut lines, 1, l10);
    let l11 = "}".to_owned();
    add_line(&mut lines, 0, l11);
    let l12 = "".to_owned();
    add_line(&mut lines, 0, l12);
    proof {
        assert(exec_lines_view(lines@) =~= history_tt_write_lines(c@, s@, h@));
    }
    lines
}

} // verus!

use vstd::prelude::*;
use crate::c_names::strings_view;
use crate::text::chars_of;

verus! {

/// Whether text `a` comes before text `b`: at the first character where
/// they differ, `a` has the smaller one, or `a` is a proper prefix of `b`.
/// (This is the order of the UTF-8 bytes of the two texts.)
pub open spec fn text_less(a: Seq<char>, b: Seq<char>) -> bool
    decreases a.len(),
{
    if b.len() == 0 {
        false
    } else if a.len() == 0 {
        true
    } else if a[0] != b[0] {
        a[0] < b[0]
    } else {
        text_less(a.skip(1), b.skip(1))
    }
}

/// Whether the list of texts `a` comes before `b`, text by text in the
/// order of `text_less`, a proper prefix first.
pub open spec fn key_less(a: Seq<Seq<char>>, b: Seq<Seq<char>>) -> bool
    decreases a.len(),
{
    if b.len() == 0 {
        false
    } else if a.len() == 0 {
        true
    } else if a[0] != b[0] {
        text_less(a[0], b[0])
    } else {
        key_less(a.skip(1), b.skip(1))
    }
}

/// The texts of each key.
pub open spec fn keys_view(ks: Seq<Vec<String>>) -> Seq<Seq<Seq<char>>> {
    ks.map_values(|k: Vec<String>| strings_view(k@))
}

/// Each key comes before every later one: the keys are sorted and none
/// occurs twice.
pub open spec fn sorted_keys(ks: Seq<Seq<Seq<char>>>) -> bool {
    forall|i: int, j: int| 0 <= i < j < ks.len() ==> key_less(#[trigger] ks[i], #[trigger] ks[j])
}

proof fn lemma_text_irreflexive(a: Seq<char>)
    ensures
        !text_less(a, a),
    decreases a.len(),
{
    if a.len() > 0 {
        lemma_text_irreflexive(a.skip(1));
    }
}

proof fn lemma_text_total(a: Seq<char>, b: Seq<char>)
    ensures
        a != b ==> text_less(a, b) || text_less(b, a),
        !(text_less(a, b) && text_less(b, a)),
    decreases a.len(),
{
    if a.len() > 0 && b.len() > 0 {
        if a[0] == b[0] {
            lemma_text_total(a.skip(1), b.skip(1));
            if a != b {
                assert(a =~= seq![a[0]] + a.skip(1));
                assert(b =~= seq![b[0]] + b.skip(1));
            }
        }
    } else if a.len() == 0 && b.len() == 0 {
        assert(a =~= b);
    }
}

proof fn lemma_text_transitive(a: Seq<char>, b: Seq<char>, c: Seq<char>)
    requires
        text_less(a, b),
        text_less(b, c),
    ensures
        text_less(a, c),
    decreases a.len(),
{
    if a.len() > 0 && b.len() > 0 && c.len() > 0 && a[0] == b[0] && b[0] == c[0] {
        lemma_text_transitive(a.skip(1), b.skip(1), c.skip(1));
    }
}

pub proof fn lemma_key_irreflexive(a: Seq<Seq<char>>)
    ensures
        !key_less(a, a),
    decreases a.len(),
{
    if a.len() > 0 {
        lemma_key_irreflexive(a.skip(1));
    }
}

proof fn lemma_key_total(a: Seq<Seq<char>>, b: Seq<Seq<char>>)
    ensures
        a != b ==> key_less(a, b) || key_less(b, a),
        !(key_less(a, b) && key_less(b, a)),
    decreases a.len(),
{
    if a.len() > 0 && b.len() > 0 {
        lemma_text_total(a[0], b[0]);
        if a[0] == b[0] {
            lemma_key_total(a.skip(1), b.skip(1));
            if a != b {
                assert(a =~= seq![a[0]] + a.skip(1));
                assert(b =~= seq![b[0]] + b.skip(1));
            }
        }
    } else if a.len() == 0 && b.len() == 0 {
        assert(a =~= b);
    }
}

proof fn lemma_key_transitive(a: Seq<Seq<char>>, b: Seq<Seq<char>>, c: Seq<Seq<char>>)
    requires
        key_less(a, b),
        key_less(b, c),
    ensures
        key_less(a, c),
    decreases a.len(),
{
    if a.len() > 0 && b.len() > 0 && c.len() > 0 {
        if a[0] == b[0] && b[0] == c[0] {
            lemma_key_transitive(a.skip(1), b.skip(1), c.skip(1));
        } else if a[0] == b[0] {
        } else if b[0] == c[0] {
        } else {
            lemma_text_transitive(a[0], b[0], c[0]);
            if a[0] == c[0] {
                lemma_text_total(a[0], b[0]);
            }
        }
    }
}

/// Whether text `a` comes before text `b`.
pub fn text_before(a: &String, b: &String) -> (r: bool)
    ensures
        r == text_less(a@, b@),
{
    let x = chars_of(a.as_str());
    let y = chars_of(b.as_str());
    let mut i: usize = 0;
    proof {
        assert(x@.skip(0) =~= x@);
        assert(y@.skip(0) =~= y@);
    }
    while i < x.len() && i < y.len() && x[i] == y[i]
        invariant
            i <= x@.len(),
            i <= y@.len(),
            x@ == a@,
            y@ == b@,
            text_less(a@, b@) == text_less(x@.skip(i as int), y@.skip(i as int)),
        decreases x@.len() - i,
    {
        proof {
            assert(x@.skip(i as int).skip(1) =~= x@.skip(i + 1));
            assert(y@.skip(i as int).skip(1) =~= y@.skip(i + 1));
        }
        i = i + 1;
    }
    if i == y.len() {
        false
    } else if i == x.len() {
        true
    } else {
        x[i] < y[i]
    }
}

/// Whether the list of texts `a` comes before `b`.
pub fn key_before(a: &Vec<String>, b: &Vec<String>) -> (r: bool)
    ensures
        r == key_less(strings_view(a@), strings_view(b@)),
{
    let ghost x = strings_view(a@);
    let ghost y = strings_view(b@);
    let mut i: usize = 0;
    proof {
        assert(x.skip(0) =~= x);
        assert(y.skip(0) =~= y);
    }
    while i < a.len() && i < b.len() && a[i] == b[i]
        invariant
            i <= a@.len(),
            i <= b@.len(),
            x == strings_view(a@),
            y == strings_view(b@),
            key_less(x, y) == key_less(x.skip(i as int), y.skip(i as int)),
        decreases a@.len() - i,
    {
        proof {
            assert(x.skip(i as int).skip(1) =~= x.skip(i + 1));
            assert(y.skip(i as int).skip(1) =~= y.skip(i + 1));
            assert(x.skip(i as int)[0] == a@[i as int]@);
            assert(y.skip(i as int)[0] == b@[i as int]@);
        }
        i = i + 1;
    }
    proof {
        if i < a@.len() && i < b@.len() {
            assert(x.skip(i as int)[0] == a@[i as int]@);
            assert(y.skip(i as int)[0] == b@[i as int]@);
        }
    }
    if i == b.len() {
        false
    } else if i == a.len() {
        true
    } else {
        text_before(&a[i], &b[i])
    }
}

/// Adds `key` to a sorted list of keys, where it belongs, unless it is
/// there already.
pub fn insert_key(keys: &mut Vec<Vec<String>>, key: Vec<String>)
    requires
        sorted_keys(keys_view(old(keys)@)),
    ensures
        sorted_keys(keys_view(final(keys)@)),
        forall|k: Seq<Seq<char>>| #[trigger] keys_view(final(keys)@).contains(k) <==> keys_view(old(keys)@).contains(k)
            || k == strings_view(key@),
{
    let ghost kv = strings_view(key@);
    let ghost before = keys_view(keys@);
    let mut i: usize = 0;
    while i < keys.len() && key_before(&keys[i], &key)
        invariant
            i <= keys@.len(),
            keys@ == old(keys)@,
            before == keys_view(keys@),
            kv == strings_view(key@),
            sorted_keys(before),
            forall|j: int| 0 <= j < i ==> key_less(#[trigger] before[j], kv),
        decreases keys@.len() - i,
    {
        i = i + 1;
    }
    if i < keys.len() && !key_before(&key, &keys[i]) {
        proof {
            lemma_key_total(before[i as int], kv);
            assert(before[i as int] == kv);
            assert forall|k: Seq<Seq<char>>| #[trigger] keys_view(keys@).contains(k) <==> before.contains(k) || k
                == kv by {
                if k == kv {
                    assert(before[i as int] == k);
                }
            }
        }
        return;
    }
    keys.insert(i, key);
    proof {
        let after = keys_view(keys@);
        assert(after =~= before.insert(i as int, kv));
        if i < before.len() {
            lemma_key_total(before[i as int], kv);
        }
        assert forall|a: int, b: int| 0 <= a < b < after.len() implies key_less(#[trigger] after[a], #[trigger] after[b])
            by {
            if b < i {
            } else if a < i && b == i {
            } else if a < i {
                if i < before.len() {
                    assert(key_less(kv, before[i as int]));
                    if b - 1 > i {
                        lemma_key_transitive(kv, before[i as int], before[b - 1]);
                    }
                    lemma_key_transitive(before[a], kv, before[b - 1]);
                }
            } else if a == i {
                assert(key_less(kv, before[i as int]));
                if b - 1 > i {
                    lemma_key_transitive(kv, before[i as int], before[b - 1]);
                }
            } else {
                assert(after[a] == before[a - 1]);
                assert(after[b] == before[b - 1]);
            }
        }
        assert forall|k: Seq<Seq<char>>| #[trigger] after.contains(k) <==> before.contains(k) || k == kv by {
            if after.contains(k) {
                let j = choose|j: int| 0 <= j < after.len() && after[j] == k;
                if j < i {
                    assert(before[j] == k);
                } else if j > i {
                    assert(before[j - 1] == k);
                }
            }
            if before.contains(k) {
                let j = choose|j: int| 0 <= j < before.len() && before[j] == k;
                if j < i {
                    assert(after[j] == k);
                } else {
                    assert(after[j + 1] == k);
                }
            }
            if k == kv {
                assert(after[i as int] == k);
            }
        }
    }
}

} // verus!

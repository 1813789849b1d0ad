use vstd::prelude::*;
use crate::text::chars_of;

verus! {

/// Whether `c` has the Unicode White_Space property.
pub open spec fn white_space(c: char) -> bool {
    let n = c as u32;
    (0x9 <= n <= 0xD) || n == 0x20 || n == 0x85 || n == 0xA0 || n == 0x1680 || (0x2000 <= n <= 0x200A) || n == 0x2028
        || n == 0x2029 || n == 0x202F || n == 0x205F || n == 0x3000
}

/// Whether `c` has the Unicode White_Space property.
pub fn is_white_space(c: char) -> (b: bool)
    ensures
        b == white_space(c),
{
    let n = c as u32;
    (0x9 <= n && n <= 0xD) || n == 0x20 || n == 0x85 || n == 0xA0 || n == 0x1680 || (0x2000 <= n && n <= 0x200A) || n
        == 0x2028 || n == 0x2029 || n == 0x202F || n == 0x205F || n == 0x3000
}

/// `s` without its leading white space.
pub open spec fn trimmed_start(s: Seq<char>) -> Seq<char>
    decreases s.len(),
{
    if s.len() > 0 && white_space(s[0]) {
        trimmed_start(s.skip(1))
    } else {
        s
    }
}

/// `s` without its trailing white space.
pub open spec fn trimmed_end(s: Seq<char>) -> Seq<char>
    decreases s.len(),
{
    if s.len() > 0 && white_space(s.last()) {
        trimmed_end(s.drop_last())
    } else {
        s
    }
}

/// `s` without its leading and trailing white space.
pub open spec fn trimmed(s: Seq<char>) -> Seq<char> {
    trimmed_end(trimmed_start(s))
}

/// Whether `s` begins with `p`.
pub open spec fn starts_with(s: Seq<char>, p: Seq<char>) -> bool {
    p.len() <= s.len() && s.take(p.len() as int) == p
}

/// The characters of `v` from `lo` up to, not including, `hi`.
pub fn sub_chars(v: &Vec<char>, lo: usize, hi: usize) -> (r: Vec<char>)
    requires
        lo <= hi <= v@.len(),
    ensures
        r@ == v@.subrange(lo as int, hi as int),
{
    let mut r: Vec<char> = Vec::new();
    let mut k: usize = lo;
    while k < hi
        invariant
            lo <= k <= hi,
            hi <= v@.len(),
            r@ == v@.subrange(lo as int, k as int),
        decreases hi - k,
    {
        r.push(v[k]);
        proof {
            assert(r@ =~= v@.subrange(lo as int, k + 1));
        }
        k = k + 1;
    }
    r
}

/// A string of the characters of `v`.
pub fn string_of(v: &Vec<char>) -> (s: String)
    ensures
        s@ == v@,
{
    let mut s = String::new();
    let mut k: usize = 0;
    while k < v.len()
        invariant
            k <= v@.len(),
            s@ == v@.take(k as int),
        decreases v@.len() - k,
    {
        s.push(v[k]);
        proof {
            assert(s@ =~= v@.take(k + 1));
        }
        k = k + 1;
    }
    proof {
        assert(v@.take(k as int) =~= v@);
    }
    s
}

/// `v` without its leading white space.
pub fn trim_start_chars(v: &Vec<char>) -> (r: Vec<char>)
    ensures
        r@ == trimmed_start(v@),
{
    let mut i: usize = 0;
    proof {
        assert(v@.skip(0) =~= v@);
    }
    while i < v.len() && is_white_space(v[i])
        invariant
            i <= v@.len(),
            trimmed_start(v@) == trimmed_start(v@.skip(i as int)),
        decreases v@.len() - i,
    {
        proof {
            assert(v@.skip(i as int)[0] == v@[i as int]);
            assert(v@.skip(i as int).skip(1) =~= v@.skip(i + 1));
        }
        i = i + 1;
    }
    let r = sub_chars(v, i, v.len());
    proof {
        assert(v@.subrange(i as int, v@.len() as int) =~= v@.skip(i as int));
        if v@.skip(i as int).len() > 0 {
            assert(v@.skip(i as int)[0] == v@[i as int]);
        }
    }
    r
}

/// `v` without its trailing white space.
pub fn trim_end_chars(v: &Vec<char>) -> (r: Vec<char>)
    ensures
        r@ == trimmed_end(v@),
{
    let mut j: usize = v.len();
    proof {
        assert(v@.take(j as int) =~= v@);
    }
    while j > 0 && is_white_space(v[j - 1])
        invariant
            j <= v@.len(),
            trimmed_end(v@) == trimmed_end(v@.take(j as int)),
        decreases j,
    {
        proof {
            assert(v@.take(j as int).last() == v@[j - 1]);
            assert(v@.take(j as int).drop_last() =~= v@.take(j - 1));
        }
        j = j - 1;
    }
    let r = sub_chars(v, 0, j);
    proof {
        assert(v@.subrange(0, j as int) =~= v@.take(j as int));
        if j > 0 {
            assert(v@.take(j as int).last() == v@[j - 1]);
        }
    }
    r
}

/// `v` without its leading and trailing white space.
pub fn trim_chars(v: &Vec<char>) -> (r: Vec<char>)
    ensures
        r@ == trimmed(v@),
{
    let t = trim_start_chars(v);
    trim_end_chars(&t)
}

/// Whether `v` begins with `p`.
pub fn starts_with_chars(v: &Vec<char>, p: &Vec<char>) -> (b: bool)
    ensures
        b == starts_with(v@, p@),
{
    if p.len() > v.len() {
        return false;
    }
    let mut k: usize = 0;
    while k < p.len()
        invariant
            k <= p@.len(),
            p@.len() <= v@.len(),
            forall|m: int| 0 <= m < k ==> v@[m] == p@[m],
        decreases p@.len() - k,
    {
        if v[k] != p[k] {
            proof {
                assert(v@.take(p@.len() as int)[k as int] != p@[k as int]);
            }
            return false;
        }
        k = k + 1;
    }
    proof {
        assert(v@.take(p@.len() as int) =~= p@);
    }
    true
}

/// The lines of `s` from position `i` on, `current` holding the characters
/// of the line under way: lines end at `\n`, a `\r` just before it is
/// dropped, and a last line without `\n` counts only if it is not empty.
pub open spec fn lines_from(s: Seq<char>, i: int, current: Seq<char>) -> Seq<Seq<char>>
    decreases s.len() - i,
{
    if i >= s.len() || i < 0 {
        if current.len() == 0 {
            Seq::empty()
        } else {
            seq![current]
        }
    } else if s[i] == '\n' {
        let line = if current.len() > 0 && current.last() == '\r' {
            current.drop_last()
        } else {
            current
        };
        seq![line] + lines_from(s, i + 1, Seq::empty())
    } else {
        lines_from(s, i + 1, current.push(s[i]))
    }
}

/// The lines of `s`, as `str::lines` splits it.
pub open spec fn lines_of(s: Seq<char>) -> Seq<Seq<char>> {
    lines_from(s, 0, Seq::empty())
}

/// The lines of `s`.
pub fn split_lines(s: &str) -> (r: Vec<Vec<char>>)
    ensures
        r@.map_values(|l: Vec<char>| l@) == lines_of(s@),
{
    let cs = chars_of(s);
    let mut out: Vec<Vec<char>> = Vec::new();
    let mut current: Vec<char> = Vec::new();
    let mut i: usize = 0;
    while i < cs.len()
        invariant
            i <= cs@.len(),
            cs@ == s@,
            out@.map_values(|l: Vec<char>| l@) + lines_from(cs@, i as int, current@) == lines_of(s@),
        decreases cs@.len() - i,
    {
        let c = cs[i];
        if c == '\n' {
            let ghost before = out@.map_values(|l: Vec<char>| l@);
            let ghost cur = current@;
            let n = current.len();
            if n > 0 && current[n - 1] == '\r' {
                current.pop();
            }
            let line = current;
            let ghost lv = line@;
            out.push(line);
            current = Vec::new();
            proof {
                assert(out@.map_values(|l: Vec<char>| l@) =~= before.push(lv));
                assert(before + lines_from(cs@, i as int, cur) =~= before.push(lv) + lines_from(
                    cs@,
                    i + 1,
                    Seq::empty(),
                ));
                assert(current@ =~= Seq::<char>::empty());
            }
        } else {
            current.push(c);
        }
        i = i + 1;
    }
    if current.len() > 0 {
        let ghost before = out@.map_values(|l: Vec<char>| l@);
        let ghost lv = current@;
        out.push(current);
        proof {
            assert(out@.map_values(|l: Vec<char>| l@) =~= before.push(lv));
            assert(before + seq![lv] =~= before.push(lv));
        }
    } else {
        proof {
            assert(out@.map_values(|l: Vec<char>| l@) + Seq::<Seq<char>>::empty() =~= out@.map_values(
                |l: Vec<char>| l@,
            ));
        }
    }
    out
}

/// `ls` joined by newlines.
pub open spec fn joined_lines(ls: Seq<Seq<char>>) -> Seq<char>
    decreases ls.len(),
{
    if ls.len() == 0 {
        Seq::empty()
    } else if ls.len() == 1 {
        ls[0]
    } else {
        joined_lines(ls.drop_last()) + seq!['\n'] + ls.last()
    }
}

/// `ls` joined by newlines, as a string.
pub fn join_lines(ls: &Vec<Vec<char>>) -> (s: String)
    ensures
        s@ == joined_lines(ls@.map_values(|l: Vec<char>| l@)),
{
    let ghost xs = ls@.map_values(|l: Vec<char>| l@);
    let mut s = String::new();
    proof {
        assert(xs.take(0) =~= Seq::<Seq<char>>::empty());
    }
    let mut i: usize = 0;
    while i < ls.len()
        invariant
            i <= ls@.len(),
            xs == ls@.map_values(|l: Vec<char>| l@),
            s@ == joined_lines(xs.take(i as int)),
        decreases ls@.len() - i,
    {
        if i > 0 {
            s.push('\n');
        }
        let line = &ls[i];
        let mut k: usize = 0;
        let ghost s0 = s@;
        while k < line.len()
            invariant
                k <= line@.len(),
                s@ == s0 + line@.take(k as int),
            decreases line@.len() - k,
        {
            s.push(line[k]);
            proof {
                assert(s@ =~= s0 + line@.take(k + 1));
            }
            k = k + 1;
        }
        proof {
            assert(line@.take(k as int) =~= line@);
            let p = xs.take(i + 1);
            assert(p.drop_last() =~= xs.take(i as int));
            assert(p.last() == line@);
            if i == 0 {
                assert(p.len() == 1);
                assert(s@ =~= joined_lines(p));
            } else {
                assert(s@ =~= joined_lines(p));
            }
        }
        i = i + 1;
    }
    proof {
        assert(xs.take(i as int) =~= xs);
    }
    s
}

/// `s` with every `\r\n` replaced by `\n`, scanning from the left.
pub open spec fn crlf_to_lf(s: Seq<char>) -> Seq<char>
    decreases s.len(),
{
    if s.len() == 0 {
        Seq::empty()
    } else if s.len() >= 2 && s[0] == '\r' && s[1] == '\n' {
        seq!['\n'] + crlf_to_lf(s.skip(2))
    } else {
        seq![s[0]] + crlf_to_lf(s.skip(1))
    }
}

/// `s` with every `\r\n` replaced by `\n`.
pub fn replace_crlf(s: &str) -> (r: String)
    ensures
        r@ == crlf_to_lf(s@),
{
    let cs = chars_of(s);
    let mut out = String::new();
    let mut i: usize = 0;
    proof {
        assert(cs@.skip(0) =~= cs@);
    }
    while i < cs.len()
        invariant
            i <= cs@.len(),
            cs@ == s@,
            out@ + crlf_to_lf(cs@.skip(i as int)) == crlf_to_lf(s@),
        decreases cs@.len() - i,
    {
        let ghost o = out@;
        let ghost rest = cs@.skip(i as int);
        if i + 1 < cs.len() && cs[i] == '\r' && cs[i + 1] == '\n' {
            out.push('\n');
            proof {
                assert(rest[0] == '\r' && rest[1] == '\n');
                assert(rest.skip(2) =~= cs@.skip(i + 2));
                assert(out@ + crlf_to_lf(cs@.skip(i + 2)) =~= o + crlf_to_lf(rest));
            }
            i = i + 2;
        } else {
            out.push(cs[i]);
            proof {
                assert(rest[0] == cs@[i as int]);
                assert(rest.skip(1) =~= cs@.skip(i + 1));
                assert(out@ + crlf_to_lf(cs@.skip(i + 1)) =~= o + crlf_to_lf(rest));
            }
            i = i + 1;
        }
    }
    proof {
        assert(cs@.skip(i as int).len() == 0);
        assert(out@ + Seq::<char>::empty() =~= out@);
    }
    out
}

} // verus!

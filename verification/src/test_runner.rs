use vstd::prelude::*;
use vstd::utf8::{decode_utf8, valid_utf8};
use crate::lines::{
    crlf_to_lf, join_lines, joined_lines, lines_of, replace_crlf, split_lines, starts_with, starts_with_chars, string_of,
    sub_chars, trim_chars, trim_end_chars, trim_start_chars, trimmed, trimmed_end, trimmed_start,
};
use crate::text::{chars_of, push_string};

verus! {

/// What `String::from_utf8_lossy` makes of `bytes`.
pub uninterp spec fn lossy_text(bytes: Seq<u8>) -> Seq<char>;

/// `String::from_utf8_lossy`, made an owned string.  Claimed: the result is
/// `lossy_text(bytes)`, and where the bytes are valid UTF-8 it is the text
/// they encode.  Which replacement characters stand for invalid sequences
/// is not stated.
#[verifier::external_body]
fn decode_lossy(bytes: &[u8]) -> (s: String)
    ensures
        s@ == lossy_text(bytes@),
        valid_utf8(bytes@) ==> s@ == decode_utf8(bytes@),
{
    String::from_utf8_lossy(bytes).into_owned()
}

/// The text of `bytes`, read as UTF-8 with invalid sequences replaced,
/// without leading and trailing white space.
pub fn trim(bytes: &[u8]) -> (r: String)
    ensures
        r@ == trimmed(lossy_text(bytes@)),
        valid_utf8(bytes@) ==> r@ == trimmed(decode_utf8(bytes@)),
{
    let text = decode_lossy(bytes);
    let cs = chars_of(text.as_str());
    let t = trim_chars(&cs);
    string_of(&t)
}

/// Whether a line of compiler output points at a source position.
pub open spec fn position_line(l: Seq<char>) -> bool {
    starts_with(trimmed_start(l), "@ "@)
}

/// The lines kept by `normalize_error`: those neither empty nor pointing
/// at a source position.
pub open spec fn kept_error_lines(ls: Seq<Seq<char>>) -> Seq<Seq<char>>
    decreases ls.len(),
{
    if ls.len() == 0 {
        Seq::empty()
    } else if ls.last().len() == 0 || position_line(ls.last()) {
        kept_error_lines(ls.drop_last())
    } else {
        kept_error_lines(ls.drop_last()).push(ls.last())
    }
}

/// Compiler error output without the lines that give source positions (and
/// without empty lines), so that it does not depend on file names.
pub fn normalize_error(string: &str) -> (r: String)
    ensures
        r@ == joined_lines(kept_error_lines(lines_of(string@))),
{
    let ls = split_lines(string);
    let ghost lv = ls@.map_values(|l: Vec<char>| l@);
    let marker = chars_of("@ ");
    let mut kept: Vec<Vec<char>> = Vec::new();
    let mut i: usize = 0;
    proof {
        assert(lv.take(0) =~= Seq::<Seq<char>>::empty());
        assert(kept@.map_values(|l: Vec<char>| l@) =~= Seq::<Seq<char>>::empty());
    }
    while i < ls.len()
        invariant
            i <= ls@.len(),
            lv == ls@.map_values(|l: Vec<char>| l@),
            marker@ == "@ "@,
            kept@.map_values(|l: Vec<char>| l@) == kept_error_lines(lv.take(i as int)),
        decreases ls@.len() - i,
    {
        let line = &ls[i];
        let start = trim_start_chars(line);
        let ghost before = kept@.map_values(|l: Vec<char>| l@);
        let skip = line.len() == 0 || starts_with_chars(&start, &marker);
        if !skip {
            let copy = sub_chars(line, 0, line.len());
            kept.push(copy);
        }
        proof {
            let p = lv.take(i + 1);
            assert(p.drop_last() =~= lv.take(i as int));
            assert(p.last() == line@);
            assert(line@.subrange(0, line@.len() as int) =~= line@);
            assert(kept@.map_values(|l: Vec<char>| l@) =~= kept_error_lines(p));
        }
        i = i + 1;
    }
    proof {
        assert(lv.take(i as int) =~= lv);
    }
    join_lines(&kept)
}

/// The lines of `ls`, each without its trailing white space.
pub open spec fn trimmed_lines(ls: Seq<Seq<char>>) -> Seq<Seq<char>>
    decreases ls.len(),
{
    if ls.len() == 0 {
        Seq::empty()
    } else {
        trimmed_lines(ls.drop_last()).push(trimmed_end(ls.last()))
    }
}

/// Program output with Windows line endings made plain and trailing white
/// space removed from every line.
pub fn normalize_output(string: &str) -> (r: String)
    ensures
        r@ == joined_lines(trimmed_lines(lines_of(crlf_to_lf(string@)))),
{
    let plain = replace_crlf(string);
    let ls = split_lines(plain.as_str());
    let ghost lv = ls@.map_values(|l: Vec<char>| l@);
    let mut out: Vec<Vec<char>> = Vec::new();
    let mut i: usize = 0;
    proof {
        assert(lv.take(0) =~= Seq::<Seq<char>>::empty());
        assert(out@.map_values(|l: Vec<char>| l@) =~= Seq::<Seq<char>>::empty());
    }
    while i < ls.len()
        invariant
            i <= ls@.len(),
            lv == ls@.map_values(|l: Vec<char>| l@),
            out@.map_values(|l: Vec<char>| l@) == trimmed_lines(lv.take(i as int)),
        decreases ls@.len() - i,
    {
        let t = trim_end_chars(&ls[i]);
        let ghost before = out@.map_values(|l: Vec<char>| l@);
        let ghost tv = t@;
        out.push(t);
        proof {
            let p = lv.take(i + 1);
            assert(p.drop_last() =~= lv.take(i as int));
            assert(p.last() == ls@[i as int]@);
            assert(out@.map_values(|l: Vec<char>| l@) =~= before.push(tv));
        }
        i = i + 1;
    }
    proof {
        assert(lv.take(i as int) =~= lv);
    }
    join_lines(&out)
}

} // verus!

verus! {

/// One test of a test file: what it checks, the code, and the output it
/// expects.
#[derive(Debug)]
pub struct Test {
    pub description: String,
    pub code: String,
    pub expected: String,
}

/// The value of a test.
pub struct TestView {
    pub description: Seq<char>,
    pub code: Seq<char>,
    pub expected: Seq<char>,
}

impl View for Test {
    type V = TestView;

    open spec fn view(&self) -> TestView {
        TestView { description: self.description@, code: self.code@, expected: self.expected@ }
    }
}

/// The values of a list of tests.
pub open spec fn tests_view(ts: Seq<Test>) -> Seq<TestView> {
    ts.map_values(|t: Test| t@)
}

/// Whether a line starts a test.
pub open spec fn test_header(l: Seq<char>) -> bool {
    starts_with(trimmed(l), "// TEST:"@)
}

/// Whether a line starts the expected output of a test.
pub open spec fn expect_header(l: Seq<char>) -> bool {
    starts_with(trimmed(l), "// EXPECT:"@)
}

/// The first line from `i` on that starts an expected output, or the
/// number of lines.
pub open spec fn next_expect(ls: Seq<Seq<char>>, i: int) -> int
    decreases ls.len() - i,
{
    if i >= ls.len() || expect_header(ls[i]) {
        i
    } else {
        next_expect(ls, i + 1)
    }
}

/// The first line from `i` on that starts a test, or the number of lines.
pub open spec fn next_test(ls: Seq<Seq<char>>, i: int) -> int
    decreases ls.len() - i,
{
    if i >= ls.len() || test_header(ls[i]) {
        i
    } else {
        next_test(ls, i + 1)
    }
}

pub proof fn lemma_next_bounds(ls: Seq<Seq<char>>, i: int)
    requires
        0 <= i <= ls.len(),
    ensures
        i <= next_expect(ls, i) <= ls.len(),
        i <= next_test(ls, i) <= ls.len(),
    decreases ls.len() - i,
{
    if i < ls.len() {
        lemma_next_bounds(ls, i + 1);
    }
}

/// The lines from `i` up to, not including, `j`, each followed by a newline.
pub open spec fn block_text(ls: Seq<Seq<char>>, i: int, j: int) -> Seq<char>
    decreases j - i,
{
    if j <= i {
        Seq::empty()
    } else {
        block_text(ls, i, j - 1) + ls[j - 1] + seq!['\n']
    }
}

/// The tests of the lines from `i` on, or the message of the first error:
/// a line starting with `// TEST:` begins a test, whose description is the
/// rest of that line; its code runs up to a line starting with
/// `// EXPECT:`, and its expected output from there up to the next test,
/// without trailing white space.  A test with no code, or with no expected
/// output section, is an error.
pub open spec fn parsed_tests(ls: Seq<Seq<char>>, i: int, path: Seq<char>) -> Result<Seq<TestView>, Seq<char>>
    decreases ls.len() - i,
{
    if i < 0 || i >= ls.len() {
        Ok(Seq::empty())
    } else if test_header(ls[i]) {
        let description = trimmed(trimmed(ls[i]).skip(8));
        let ce = next_expect(ls, i + 1);
        let code = block_text(ls, i + 1, ce);
        if trimmed_end(code).len() == 0 {
            Err("No code found for test '"@ + description + "' in '"@ + path + "'"@)
        } else if ce >= ls.len() {
            Err("Missing '// EXPECT:' section for test '"@ + description + "' in '"@ + path + "'"@)
        } else {
            let te = next_test(ls, ce + 1);
            let expected = trimmed_end(block_text(ls, ce + 1, te));
            proof {
                lemma_next_bounds(ls, i + 1);
                lemma_next_bounds(ls, ce + 1);
            }
            match parsed_tests(ls, te, path) {
                Ok(rest) => Ok(seq![TestView { description, code, expected }] + rest),
                Err(e) => Err(e),
            }
        }
    } else {
        parsed_tests(ls, i + 1, path)
    }
}

fn append_line(block: &mut Vec<char>, line: &Vec<char>)
    ensures
        final(block)@ == old(block)@ + line@ + seq!['\n'],
{
    let mut k: usize = 0;
    while k < line.len()
        invariant
            k <= line@.len(),
            block@ == old(block)@ + line@.take(k as int),
        decreases line@.len() - k,
    {
        block.push(line[k]);
        proof {
            assert(block@ =~= old(block)@ + line@.take(k + 1));
        }
        k = k + 1;
    }
    block.push('\n');
    proof {
        assert(line@.take(k as int) =~= line@);
        assert(block@ =~= old(block)@ + line@ + seq!['\n']);
    }
}

fn test_error(first: &str, description: &Vec<char>, path: &str) -> (s: String)
    ensures
        s@ == first@ + description@ + "' in '"@ + path@ + "'"@,
{
    let mut s = first.to_owned();
    push_string(&mut s, &string_of(description));
    s.push_str("' in '");
    s.push_str(path);
    s.push_str("'");
    s
}

/// The tests in the text of a test file at `path`, or the message of the
/// first error in it.
pub fn parse_test_file(content: &str, path: &str) -> (r: Result<Vec<Test>, String>)
    ensures
        match r {
            Ok(tests) => parsed_tests(lines_of(content@), 0, path@) == Ok::<Seq<TestView>, Seq<char>>(
                tests_view(tests@),
            ),
            Err(m) => parsed_tests(lines_of(content@), 0, path@) == Err::<Seq<TestView>, Seq<char>>(m@),
        },
{
    let lines = split_lines(content);
    let ghost ls = lines@.map_values(|l: Vec<char>| l@);
    let test_marker = chars_of("// TEST:");
    let expect_marker = chars_of("// EXPECT:");
    let mut tests: Vec<Test> = Vec::new();
    let mut i: usize = 0;
    proof {
        reveal_strlit("// TEST:");
        assert(tests_view(tests@) =~= Seq::<TestView>::empty());
        assert(Seq::<TestView>::empty() + Seq::<TestView>::empty() =~= Seq::<TestView>::empty());
    }
    while i < lines.len()
        invariant
            i <= lines@.len(),
            ls == lines@.map_values(|l: Vec<char>| l@),
            ls == lines_of(content@),
            test_marker@ == "// TEST:"@,
            test_marker@.len() == 8,
            expect_marker@ == "// EXPECT:"@,
            parsed_tests(ls, 0, path@) == match parsed_tests(ls, i as int, path@) {
                Ok(rest) => Ok(tests_view(tests@) + rest),
                Err(e) => Err(e),
            },
        decreases lines@.len() - i,
    {
        let header = trim_chars(&lines[i]);
        if starts_with_chars(&header, &test_marker) {
            let start = i;
            let rest_of_header = sub_chars(&header, 8, header.len());
            let description = trim_chars(&rest_of_header);
            proof {
                assert(rest_of_header@ =~= trimmed(ls[start as int]).skip(8));
            }
            let mut code: Vec<char> = Vec::new();
            i = i + 1;
            proof {
                assert(code@ =~= block_text(ls, start + 1, i as int));
            }
            while i < lines.len() && !starts_with_chars(&trim_chars(&lines[i]), &expect_marker)
                invariant
                    start < i <= lines@.len(),
                    ls == lines@.map_values(|l: Vec<char>| l@),
                    expect_marker@ == "// EXPECT:"@,
                    code@ == block_text(ls, start + 1, i as int),
                    next_expect(ls, start + 1) == next_expect(ls, i as int),
                decreases lines@.len() - i,
            {
                append_line(&mut code, &lines[i]);
                i = i + 1;
            }
            let code_end = trim_end_chars(&code);
            if code_end.len() == 0 {
                return Err(test_error("No code found for test '", &description, path));
            } else if i >= lines.len() {
                return Err(test_error("Missing '// EXPECT:' section for test '", &description, path));
            }
            let ce = i;
            let mut expected: Vec<char> = Vec::new();
            i = i + 1;
            proof {
                assert(expected@ =~= block_text(ls, ce + 1, i as int));
            }
            while i < lines.len() && !starts_with_chars(&trim_chars(&lines[i]), &test_marker)
                invariant
                    ce < i <= lines@.len(),
                    ls == lines@.map_values(|l: Vec<char>| l@),
                    test_marker@ == "// TEST:"@,
                    expected@ == block_text(ls, ce + 1, i as int),
                    next_test(ls, ce + 1) == next_test(ls, i as int),
                decreases lines@.len() - i,
            {
                append_line(&mut expected, &lines[i]);
                i = i + 1;
            }
            let expected_end = trim_end_chars(&expected);
            let ghost before = tests_view(tests@);
            let test = Test {
                description: string_of(&description),
                code: string_of(&code),
                expected: string_of(&expected_end),
            };
            let ghost tv = test@;
            tests.push(test);
            proof {
                assert(tests_view(tests@) =~= before.push(tv));
                assert(before.push(tv) + match parsed_tests(ls, i as int, path@) {
                    Ok(rest) => rest,
                    Err(e) => Seq::empty(),
                } =~= before + (seq![tv] + match parsed_tests(ls, i as int, path@) {
                    Ok(rest) => rest,
                    Err(e) => Seq::empty(),
                }));
            }
        } else {
            i = i + 1;
        }
    }
    proof {
        assert(tests_view(tests@) + Seq::<TestView>::empty() =~= tests_view(tests@));
    }
    Ok(tests)
}

} // verus!

verus! {

/// The output a test expects, as it is compared: without surrounding white
/// space, and normalized as program output is.
pub fn expected_output(expected: &str) -> (r: String)
    ensures
        r@ == joined_lines(trimmed_lines(lines_of(crlf_to_lf(trimmed(expected@))))),
{
    let cs = chars_of(expected);
    let t = string_of(&trim_chars(&cs));
    normalize_output(t.as_str())
}

/// The error output of a failed compilation, as it is compared with what a
/// test expects.
pub fn compiler_error_output(stderr: &[u8]) -> (r: String)
    ensures
        r@ == joined_lines(
            trimmed_lines(lines_of(crlf_to_lf(joined_lines(kept_error_lines(lines_of(trimmed(lossy_text(stderr@)))))))),
        ),
{
    let raw = trim(stderr);
    let errors = normalize_error(raw.as_str());
    normalize_output(errors.as_str())
}

/// The output of a compiled program, as it is compared with what a test
/// expects.
pub fn program_output(output: &[u8]) -> (r: String)
    ensures
        r@ == joined_lines(trimmed_lines(lines_of(crlf_to_lf(trimmed(lossy_text(output@)))))),
{
    let raw = trim(output);
    normalize_output(raw.as_str())
}

/// Whether `c` is numeric, as `char::is_numeric` decides by the Unicode
/// tables of the standard library.
pub uninterp spec fn numeric(c: char) -> bool;

/// `char::is_numeric`: whether `c` has one of the general categories for
/// numbers.  Claimed: the answer is `numeric(c)`, and for an ASCII
/// character it is true exactly for `0`-`9`.
#[verifier::external_body]
fn is_numeric(c: char) -> (b: bool)
    ensures
        b == numeric(c),
        (c as u32) < 128 ==> (b <==> ('0' <= c && c <= '9')),
{
    c.is_numeric()
}

/// `s` without the numerals and underscores it starts with.
pub open spec fn without_number_prefix(s: Seq<char>) -> Seq<char>
    decreases s.len(),
{
    if s.len() > 0 && (numeric(s[0]) || s[0] == '_') {
        without_number_prefix(s.skip(1))
    } else {
        s
    }
}

/// `s` with every occurrence of `p` removed, scanning from the left.
pub open spec fn without_pattern(s: Seq<char>, p: Seq<char>) -> Seq<char>
    decreases s.len(),
{
    if s.len() == 0 {
        Seq::empty()
    } else if p.len() > 0 && starts_with(s, p) {
        without_pattern(s.skip(p.len() as int), p)
    } else {
        seq![s[0]] + without_pattern(s.skip(1), p)
    }
}

/// `s` with ASCII lowercase letters made uppercase.
pub open spec fn ascii_uppercase(s: Seq<char>) -> Seq<char> {
    Seq::new(s.len(), |i: int| if 'a' <= s[i] && s[i] <= 'z' { ((s[i] as u32) - 32) as char } else { s[i] })
}

/// The title of a test section or subsection, from the name of its
/// directory or file: the leading numerals and underscores dropped,
/// underscores shown as spaces, the `.delo` extension removed from a file
/// name, and letters made uppercase.
pub open spec fn title_text(name: Seq<char>, is_file: bool) -> Seq<char> {
    let t = without_number_prefix(name);
    let spaced = Seq::new(t.len(), |i: int| if t[i] == '_' { ' ' } else { t[i] });
    ascii_uppercase(if is_file { without_pattern(spaced, ".delo"@) } else { spaced })
}

/// The title of a test section (a directory) or subsection (a file).
pub fn section_title(name: &str, is_file: bool) -> (r: String)
    ensures
        r@ == title_text(name@, is_file),
{
    let cs = chars_of(name);
    let mut i: usize = 0;
    proof {
        assert(cs@.skip(0) =~= cs@);
    }
    while i < cs.len() && (is_numeric(cs[i]) || cs[i] == '_')
        invariant
            i <= cs@.len(),
            cs@ == name@,
            without_number_prefix(name@) == without_number_prefix(cs@.skip(i as int)),
        decreases cs@.len() - i,
    {
        proof {
            assert(cs@.skip(i as int)[0] == cs@[i as int]);
            assert(cs@.skip(i as int).skip(1) =~= cs@.skip(i + 1));
        }
        i = i + 1;
    }
    let ghost t = cs@.skip(i as int);
    proof {
        if t.len() > 0 {
            assert(t[0] == cs@[i as int]);
        }
    }
    let mut spaced: Vec<char> = Vec::new();
    let mut k: usize = i;
    while k < cs.len()
        invariant
            i <= k <= cs@.len(),
            t == cs@.skip(i as int),
            spaced@ == Seq::new((k - i) as nat, |m: int| if t[m] == '_' { ' ' } else { t[m] }),
        decreases cs@.len() - k,
    {
        if cs[k] == '_' {
            spaced.push(' ');
        } else {
            spaced.push(cs[k]);
        }
        proof {
            assert(spaced@ =~= Seq::new((k + 1 - i) as nat, |m: int| if t[m] == '_' { ' ' } else { t[m] }));
        }
        k = k + 1;
    }
    let ghost sp = spaced@;
    let mut kept: Vec<char> = Vec::new();
    if is_file {
        let pattern = chars_of(".delo");
        proof {
            reveal_strlit(".delo");
        }
        let mut j: usize = 0;
        proof {
            assert(sp.skip(0) =~= sp);
        }
        while j < spaced.len()
            invariant
                j <= sp.len(),
                sp == spaced@,
                pattern@ == ".delo"@,
                pattern@.len() == 5,
                kept@ + without_pattern(sp.skip(j as int), pattern@) == without_pattern(sp, pattern@),
            decreases sp.len() - j,
        {
            let ghost rest = sp.skip(j as int);
            let ghost before = kept@;
            let tail = sub_chars(&spaced, j, spaced.len());
            proof {
                assert(tail@ =~= rest);
            }
            if starts_with_chars(&tail, &pattern) {
                proof {
                    assert(rest.skip(5) =~= sp.skip(j + 5));
                }
                j = j + 5;
            } else {
                kept.push(spaced[j]);
                proof {
                    assert(rest[0] == sp[j as int]);
                    assert(rest.skip(1) =~= sp.skip(j + 1));
                    assert(kept@ + without_pattern(sp.skip(j + 1), pattern@) =~= before + without_pattern(
                        rest,
                        pattern@,
                    ));
                }
                j = j + 1;
            }
        }
        proof {
            assert(sp.skip(j as int).len() == 0);
            assert(kept@ + Seq::<char>::empty() =~= kept@);
        }
    } else {
        kept = spaced;
    }
    let ghost kv = kept@;
    let mut out = String::new();
    let mut m: usize = 0;
    while m < kept.len()
        invariant
            m <= kept@.len(),
            kv == kept@,
            out@ == ascii_uppercase(kv).take(m as int),
        decreases kept@.len() - m,
    {
        let c = kept[m];
        if 'a' <= c && c <= 'z' {
            let u: u8 = (c as u8) - 32;
            out.push(u as char);
        } else {
            out.push(c);
        }
        proof {
            assert(out@ =~= ascii_uppercase(kv).take(m + 1));
        }
        m = m + 1;
    }
    proof {
        assert(ascii_uppercase(kv).take(m as int) =~= ascii_uppercase(kv));
    }
    out
}

} // verus!

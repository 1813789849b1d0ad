use vstd::prelude::*;
use vstd::string::*;
use vstd::utf8::encode_utf8;
use crate::error::ErrorWithLocation;
use crate::text::{decimal, push_decimal, push_string};

verus! {

/// `n` copies of `c`.
pub open spec fn repeat_char(c: char, n: nat) -> Seq<char> {
    Seq::new(n, |i: int| c)
}

/// Appends `n` copies of `c` to `s`.
pub fn push_repeated(s: &mut String, c: char, n: usize)
    ensures
        final(s)@ == old(s)@ + repeat_char(c, n as nat),
{
    let mut i: usize = 0;
    while i < n
        invariant
            i <= n,
            s@ == old(s)@ + repeat_char(c, i as nat),
        decreases n - i,
    {
        s.push(c);
        i = i + 1;
        proof {
            assert(s@ =~= old(s)@ + repeat_char(c, i as nat));
        }
    }
}

/// The number of bytes of the UTF-8 encoding of `s`, as `str::len` gives it.
pub open spec fn byte_len(s: Seq<char>) -> nat {
    (encode_utf8(s).len() as usize) as nat
}

/// The lines by which an error is reported: the message; then, where the
/// error has a line, the file and position, and, where that line exists in
/// `source_lines`, the line itself in a gutter as wide as its number, with
/// a caret under the column (or carets under the whole line where there is
/// no column); and last an empty line.
pub open spec fn report_lines(
    message: Seq<char>,
    line: Option<u32>,
    column: Option<u32>,
    source_lines: Seq<Seq<char>>,
    file_path: Seq<char>,
) -> Seq<Seq<char>> {
    let head = seq!["error: "@ + message];
    let located = match line {
        None => head,
        Some(l) => {
            let position = "@ "@ + file_path + ":"@ + decimal(l as nat) + ":"@ + match column {
                Some(c) => decimal(c as nat),
                None => "?"@,
            };
            let with_position = head.push(position);
            if 1 <= l && l - 1 < source_lines.len() {
                let src = source_lines[l - 1];
                let gutter = repeat_char(' ', decimal(l as nat).len());
                let marker = match column {
                    Some(c) => repeat_char(' ', (c - 1) as nat) + "^"@,
                    None => repeat_char('^', byte_len(src)),
                };
                with_position.push(gutter + " |"@).push(decimal(l as nat) + " | "@ + src).push(gutter + " | "@ + marker)
            } else {
                with_position
            }
        },
    };
    located.push(Seq::empty())
}

/// The lines by which `error` is reported for the file at `file_path`,
/// whose lines are `source_lines`.
pub fn error_report<E: ErrorWithLocation>(error: &E, source_lines: &Vec<String>, file_path: &str) -> (r: Vec<String>)
    requires
        error.line_of() matches Some(l) ==> l >= 1,
        error.line_of() matches Some(l) && l - 1 < source_lines@.len() ==> (error.column_of() matches Some(c) ==> c
            >= 1),
    ensures
        r@.map_values(|s: String| s@) == report_lines(
            error.message_text(),
            error.line_of(),
            error.column_of(),
            source_lines@.map_values(|s: String| s@),
            file_path@,
        ),
{
    let ghost lines = source_lines@.map_values(|s: String| s@);
    let mut r: Vec<String> = Vec::new();
    let mut first = String::new();
    first.push_str("error: ");
    let message = error.message();
    push_string(&mut first, &message);
    r.push(first);
    let ghost head = seq!["error: "@ + error.message_text()];
    proof {
        assert(r@.map_values(|s: String| s@) =~= head);
    }
    let line = error.line();
    let column = error.column();
    match line {
        None => {},
        Some(l) => {
            let mut position = String::new();
            position.push_str("@ ");
            position.push_str(file_path);
            position.push_str(":");
            push_decimal(&mut position, l as u64);
            position.push_str(":");
            match column {
                Some(c) => push_decimal(&mut position, c as u64),
                None => position.push_str("?"),
            }
            proof {
                assert(position@ =~= "@ "@ + file_path@ + ":"@ + decimal(l as nat) + ":"@ + match column {
                    Some(c) => decimal(c as nat),
                    None => "?"@,
                });
            }
            let ghost with_position = head.push(position@);
            r.push(position);
            proof {
                assert(r@.map_values(|s: String| s@) =~= with_position);
            }
            let index: usize = (l - 1) as usize;
            if index < source_lines.len() {
                let src = &source_lines[index];
                let mut number = String::new();
                push_decimal(&mut number, l as u64);
                let digits = number.as_str().unicode_len();
                let mut g1 = String::new();
                push_repeated(&mut g1, ' ', digits);
                g1.push_str(" |");
                r.push(g1);
                let mut shown = String::new();
                push_string(&mut shown, &number);
                shown.push_str(" | ");
                push_string(&mut shown, src);
                r.push(shown);
                let mut g2 = String::new();
                push_repeated(&mut g2, ' ', digits);
                g2.push_str(" | ");
                match column {
                    Some(c) => {
                        push_repeated(&mut g2, ' ', (c - 1) as usize);
                        g2.push_str("^");
                    },
                    None => {
                        let width = src.as_str().len();
                        push_repeated(&mut g2, '^', width);
                    },
                }
                r.push(g2);
                proof {
                    let gutter = repeat_char(' ', decimal(l as nat).len());
                    assert(digits == decimal(l as nat).len());
                    assert(lines[l - 1] == src@);
                    assert(r@[2]@ =~= gutter + " |"@);
                    assert(r@[3]@ =~= decimal(l as nat) + " | "@ + src@);
                    assert(r@[4]@ =~= gutter + " | "@ + match column {
                        Some(c) => repeat_char(' ', (c - 1) as nat) + "^"@,
                        None => repeat_char('^', byte_len(src@)),
                    });
                    assert(r@.map_values(|s: String| s@) =~= with_position.push(r@[2]@).push(r@[3]@).push(r@[4]@));
                }
            }
        },
    }
    r.push(String::new());
    proof {
        let spec = report_lines(error.message_text(), error.line_of(), error.column_of(), lines, file_path@);
        assert(r@.map_values(|s: String| s@) =~= spec);
    }
    r
}

/// The kinds of error a compilation can stop on.
#[derive(Debug, Clone, Copy, PartialEq, Eq, Structural)]
pub enum ErrorKind {
    Parse,
    Scan,
    Type,
    Codegen,
    CompilerRunner,
    Unknown,
}

/// How a kind of error is named in the banner above the errors.
pub open spec fn kind_text(k: ErrorKind) -> Seq<char> {
    match k {
        ErrorKind::Parse => "parse"@,
        ErrorKind::Scan => "scan"@,
        ErrorKind::Type => "type"@,
        ErrorKind::Codegen => "codegen"@,
        ErrorKind::CompilerRunner => "compiler runner"@,
        ErrorKind::Unknown => "unknown"@,
    }
}

/// The headline above `count` errors of kind `k`.
pub open spec fn banner_text(count: nat, k: ErrorKind) -> Seq<char> {
    ">>> Found "@ + decimal(count) + " "@ + kind_text(k) + " error"@ + (if count == 1 {
        Seq::empty()
    } else {
        "s"@
    }) + " <<<"@
}

/// The lines printed above a list of `count` errors of kind `kind`: the
/// headline between two rules of `=` as long as it is (it is ASCII, so its
/// length in characters is its length in bytes), then an empty line.
pub fn error_banner(count: usize, kind: ErrorKind) -> (r: Vec<String>)
    ensures
        r@.map_values(|s: String| s@) == seq![
            repeat_char('=', banner_text(count as nat, kind).len()),
            banner_text(count as nat, kind),
            repeat_char('=', banner_text(count as nat, kind).len()),
            Seq::<char>::empty(),
        ],
{
    let mut headline = String::new();
    headline.push_str(">>> Found ");
    push_decimal(&mut headline, count as u64);
    headline.push_str(" ");
    match kind {
        ErrorKind::Parse => headline.push_str("parse"),
        ErrorKind::Scan => headline.push_str("scan"),
        ErrorKind::Type => headline.push_str("type"),
        ErrorKind::Codegen => headline.push_str("codegen"),
        ErrorKind::CompilerRunner => headline.push_str("compiler runner"),
        ErrorKind::Unknown => headline.push_str("unknown"),
    }
    headline.push_str(" error");
    if count != 1 {
        headline.push_str("s");
    }
    headline.push_str(" <<<");
    let width = headline.as_str().unicode_len();
    proof {
        assert(headline@ =~= banner_text(count as nat, kind));
    }
    let mut border = String::new();
    push_repeated(&mut border, '=', width);
    let mut border2 = String::new();
    push_repeated(&mut border2, '=', width);
    let mut r: Vec<String> = Vec::new();
    r.push(border);
    r.push(headline);
    r.push(border2);
    r.push(String::new());
    proof {
        assert(r@.map_values(|s: String| s@) =~= seq![
            repeat_char('=', banner_text(count as nat, kind).len()),
            banner_text(count as nat, kind),
            repeat_char('=', banner_text(count as nat, kind).len()),
            Seq::<char>::empty(),
        ]);
    }
    r
}

} // verus!

use vstd::prelude::*;
use vstd::string::*;

verus! {

/// `String::push` appends one character to the end of the string.
pub assume_specification[ std::string::String::push ](s: &mut std::string::String, ch: char)
    ensures
        final(s)@ == old(s)@.push(ch),
;

/// `String::push_str` appends the characters of a string slice to the end
/// of the string.
pub assume_specification[ std::string::String::push_str ](s: &mut std::string::String, t: &str)
    ensures
        final(s)@ == old(s)@ + t@,
;

/// The characters of `s`, in order.
pub fn chars_of(s: &str) -> (v: Vec<char>)
    ensures
        v@ == s@,
{
    let mut v: Vec<char> = Vec::new();
    for c in it: s.chars()
        invariant
            v@ == it.seq().take(it.index() as int),
    {
        v.push(c);
    }
    v
}

/// The decimal digit `d` as a character.
pub open spec fn digit_char(d: nat) -> char {
    (48 + d) as char
}

/// The decimal numeral of `n`, without leading zeros.
pub open spec fn decimal(n: nat) -> Seq<char>
    decreases n,
{
    if n < 10 {
        seq![digit_char(n)]
    } else {
        decimal(n / 10).push(digit_char(n % 10))
    }
}

/// Appends the decimal numeral of `n` to `s`.
pub fn push_decimal(s: &mut String, n: u64)
    ensures
        final(s)@ == old(s)@ + decimal(n as nat),
    decreases n,
{
    if n >= 10 {
        push_decimal(s, n / 10);
    }
    let d: u8 = (n % 10) as u8;
    let c: char = (48u8 + d) as char;
    s.push(c);
    proof {
        assert(decimal(n as nat) == (if n < 10 { seq![digit_char(n as nat)] } else { decimal((n / 10) as nat).push(
            digit_char((n % 10) as nat),
        ) }));
    }
}

/// Appends the characters of `t` to `s`.
pub fn push_string(s: &mut String, t: &String)
    ensures
        final(s)@ == old(s)@ + t@,
{
    s.push_str(t.as_str());
}

/// The decimal numeral of `n`, with a minus sign when `n` is negative.
pub open spec fn signed_decimal(n: int) -> Seq<char> {
    if n < 0 {
        seq!['-'] + decimal((-n) as nat)
    } else {
        decimal(n as nat)
    }
}

/// Appends the decimal numeral of `n` to `s`.
pub fn push_signed_decimal(s: &mut String, n: i32)
    ensures
        final(s)@ == old(s)@ + signed_decimal(n as int),
{
    if n < 0 {
        s.push('-');
        let m: i64 = n as i64;
        push_decimal(s, (-m) as u64);
        proof {
            assert(s@ =~= old(s)@ + signed_decimal(n as int));
        }
    } else {
        push_decimal(s, n as u64);
    }
}

/// The strings of `ss`, separated by a comma and a space.
pub open spec fn joined_strings(ss: Seq<String>) -> Seq<char>
    decreases ss.len(),
{
    if ss.len() == 0 {
        Seq::empty()
    } else if ss.len() == 1 {
        ss[0]@
    } else {
        joined_strings(ss.drop_last()) + ", "@ + ss.last()@
    }
}

/// Appends the strings of `ss` to `s`, separated by a comma and a space.
pub fn push_joined_strings(s: &mut String, ss: &Vec<String>)
    ensures
        final(s)@ == old(s)@ + joined_strings(ss@),
{
    let ghost s0 = s@;
    proof {
        assert(ss@.take(0) =~= Seq::<String>::empty());
        assert(s@ =~= s0 + joined_strings(ss@.take(0)));
    }
    let mut i: usize = 0;
    while i < ss.len()
        invariant
            i <= ss@.len(),
            s@ == s0 + joined_strings(ss@.take(i as int)),
        decreases ss@.len() - i,
    {
        if i > 0 {
            s.push_str(", ");
        }
        push_string(s, &ss[i]);
        proof {
            let p = ss@.take(i + 1);
            assert(p.drop_last() =~= ss@.take(i as int));
            assert(p.last() == ss@[i as int]);
            if i == 0 {
                assert(p.len() == 1);
                assert(s@ =~= s0 + joined_strings(p));
            } else {
                assert(s@ =~= s0 + joined_strings(p));
            }
        }
        i = i + 1;
    }
    proof {
        assert(ss@.take(i as int) =~= ss@);
    }
}

} // verus!

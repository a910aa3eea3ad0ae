//! Decimal text form of index values: spec-level rendering and evaluation of
//! digit sequences, the round-trip law between them, and the executable
//! conversions the path text form is built on.

use vstd::prelude::*;
use vstd::arithmetic::div_mod::lemma_fundamental_div_mod;
use vstd::string::{StrSliceExecFns, StringExecFns};

verus! {

/// Whether a character is a decimal digit.
pub open spec fn is_digit(c: char) -> bool {
    c == '0' || c == '1' || c == '2' || c == '3' || c == '4' || c == '5' || c == '6' || c == '7'
        || c == '8' || c == '9'
}

/// Numeric value of a decimal digit (10 on any other character).
pub open spec fn digit_val(c: char) -> int {
    if c == '0' {
        0
    } else if c == '1' {
        1
    } else if c == '2' {
        2
    } else if c == '3' {
        3
    } else if c == '4' {
        4
    } else if c == '5' {
        5
    } else if c == '6' {
        6
    } else if c == '7' {
        7
    } else if c == '8' {
        8
    } else if c == '9' {
        9
    } else {
        10
    }
}

/// The digit character of a value below ten.
pub open spec fn digit_char(d: int) -> char {
    if d == 0 {
        '0'
    } else if d == 1 {
        '1'
    } else if d == 2 {
        '2'
    } else if d == 3 {
        '3'
    } else if d == 4 {
        '4'
    } else if d == 5 {
        '5'
    } else if d == 6 {
        '6'
    } else if d == 7 {
        '7'
    } else if d == 8 {
        '8'
    } else {
        '9'
    }
}

/// Decimal rendering of a number, most significant digit first, without
/// leading zeros (except for the number zero itself).
pub open spec fn dec_rep(n: nat) -> Seq<char>
    decreases n,
{
    if n < 10 {
        seq![digit_char(n as int)]
    } else {
        dec_rep(n / 10).push(digit_char((n % 10) as int))
    }
}

/// Numeric value of a digit sequence, read most significant digit first.
pub open spec fn dec_val(s: Seq<char>) -> int
    decreases s.len(),
{
    if s.len() == 0 {
        0
    } else {
        dec_val(s.drop_last()) * 10 + digit_val(s.last())
    }
}

/// Whether every character of a sequence is a decimal digit.
pub open spec fn all_digits(s: Seq<char>) -> bool {
    forall|i: int| 0 <= i < s.len() ==> is_digit(s[i])
}

/// A rendered number is a non-empty sequence of digits.
pub proof fn lemma_dec_rep_digits(n: nat)
    ensures
        all_digits(dec_rep(n)),
        dec_rep(n).len() >= 1,
    decreases n,
{
    if n >= 10 {
        lemma_dec_rep_digits(n / 10);
        assert forall|i: int| 0 <= i < dec_rep(n).len() implies is_digit(dec_rep(n)[i]) by {
            if i < dec_rep(n / 10).len() {
                assert(dec_rep(n)[i] == dec_rep(n / 10)[i]);
            }
        }
    }
}

/// Evaluating the rendering of a number gives the number back.
pub proof fn lemma_dec_rep_val(n: nat)
    ensures
        dec_val(dec_rep(n)) == n,
    decreases n,
{
    if n < 10 {
        let r = seq![digit_char(n as int)];
        assert(r.drop_last() =~= Seq::<char>::empty());
        assert(dec_val(r) == dec_val(r.drop_last()) * 10 + digit_val(r.last()));
    } else {
        lemma_dec_rep_val(n / 10);
        let r = dec_rep(n / 10).push(digit_char((n % 10) as int));
        assert(r.drop_last() =~= dec_rep(n / 10));
        assert(r.last() == digit_char((n % 10) as int));
        lemma_fundamental_div_mod(n as int, 10);
    }
}

/// A digit sequence evaluates to a non-negative number.
pub proof fn lemma_dec_val_nonneg(s: Seq<char>)
    requires
        all_digits(s),
    ensures
        dec_val(s) >= 0,
    decreases s.len(),
{
    if s.len() > 0 {
        assert(all_digits(s.drop_last()));
        lemma_dec_val_nonneg(s.drop_last());
        assert(digit_val(s.last()) >= 0);
    }
}

/// One digit extends the value of the prefix before it.
pub proof fn lemma_dec_val_step(s: Seq<char>, i: int)
    requires
        0 <= i < s.len(),
    ensures
        dec_val(s.take(i + 1)) == dec_val(s.take(i)) * 10 + digit_val(s[i]),
{
    assert(s.take(i + 1).drop_last() =~= s.take(i));
    assert(s.take(i + 1).last() == s[i]);
}

/// The value of a digit sequence dominates the value of any of its prefixes.
pub proof fn lemma_dec_val_prefix(s: Seq<char>, i: int)
    requires
        all_digits(s),
        0 <= i <= s.len(),
    ensures
        dec_val(s.take(i)) <= dec_val(s),
    decreases s.len() - i,
{
    if i == s.len() {
        assert(s.take(i) =~= s);
    } else {
        lemma_dec_val_step(s, i);
        assert(all_digits(s.take(i)));
        lemma_dec_val_nonneg(s.take(i));
        lemma_dec_val_prefix(s, i + 1);
    }
}

/// Digit characters are distinct from the path separator and the hardened
/// marker.
pub proof fn lemma_digit_not_marker(c: char)
    requires
        is_digit(c),
    ensures
        c != '/',
        c != 'h',
{
}

/// The digit character of a value below ten.
pub fn digit_char_exec(d: u32) -> (c: char)
    requires
        d < 10,
    ensures
        c == digit_char(d as int),
{
    if d == 0 {
        '0'
    } else if d == 1 {
        '1'
    } else if d == 2 {
        '2'
    } else if d == 3 {
        '3'
    } else if d == 4 {
        '4'
    } else if d == 5 {
        '5'
    } else if d == 6 {
        '6'
    } else if d == 7 {
        '7'
    } else if d == 8 {
        '8'
    } else {
        '9'
    }
}

/// Numeric value of a digit character, or 10 on any other character.
pub fn digit_val_exec(c: char) -> (r: u32)
    ensures
        r == digit_val(c),
{
    if c == '0' {
        0
    } else if c == '1' {
        1
    } else if c == '2' {
        2
    } else if c == '3' {
        3
    } else if c == '4' {
        4
    } else if c == '5' {
        5
    } else if c == '6' {
        6
    } else if c == '7' {
        7
    } else if c == '8' {
        8
    } else if c == '9' {
        9
    } else {
        10
    }
}

/// Renders a value in decimal, most significant digit first.
pub fn dec_render(v: u32) -> (out: Vec<char>)
    ensures
        out@ == dec_rep(v as nat),
{
    let mut out: Vec<char> = Vec::new();
    if v == 0 {
        out.push('0');
        assert(out@ =~= dec_rep(0));
        return out;
    }
    let mut cur: u32 = v;
    while cur > 0
        invariant
            cur > 0 ==> dec_rep(v as nat) =~= dec_rep(cur as nat) + out@,
            cur == 0 ==> dec_rep(v as nat) =~= out@,
        decreases cur,
    {
        let d = cur % 10;
        let c = digit_char_exec(d);
        let ghost old_out = out@;
        out.insert(0, c);
        assert(out@ =~= seq![c] + old_out);
        proof {
            if cur >= 10 {
                assert(dec_rep(cur as nat) =~= dec_rep((cur / 10) as nat).push(c));
                assert(dec_rep((cur / 10) as nat).push(c) + old_out =~= dec_rep(
                    (cur / 10) as nat,
                ) + (seq![c] + old_out));
            } else {
                assert(dec_rep(cur as nat) =~= seq![c]);
            }
        }
        cur = cur / 10;
    }
    out
}

/// Appends one character of a derivation path text — a digit, the hardened
/// marker or the separator — to a string under construction.
pub fn append_path_char(s: &mut String, c: char)
    requires
        is_digit(c) || c == 'h' || c == '/',
    ensures
        final(s)@ == old(s)@.push(c),
{
    if c == '0' {
        s.append("0");
        proof {
            reveal_strlit("0");
            assert(s@ =~= old(s)@.push(c));
        }
    } else if c == '1' {
        s.append("1");
        proof {
            reveal_strlit("1");
            assert(s@ =~= old(s)@.push(c));
        }
    } else if c == '2' {
        s.append("2");
        proof {
            reveal_strlit("2");
            assert(s@ =~= old(s)@.push(c));
        }
    } else if c == '3' {
        s.append("3");
        proof {
            reveal_strlit("3");
            assert(s@ =~= old(s)@.push(c));
        }
    } else if c == '4' {
        s.append("4");
        proof {
            reveal_strlit("4");
            assert(s@ =~= old(s)@.push(c));
        }
    } else if c == '5' {
        s.append("5");
        proof {
            reveal_strlit("5");
            assert(s@ =~= old(s)@.push(c));
        }
    } else if c == '6' {
        s.append("6");
        proof {
            reveal_strlit("6");
            assert(s@ =~= old(s)@.push(c));
        }
    } else if c == '7' {
        s.append("7");
        proof {
            reveal_strlit("7");
            assert(s@ =~= old(s)@.push(c));
        }
    } else if c == '8' {
        s.append("8");
        proof {
            reveal_strlit("8");
            assert(s@ =~= old(s)@.push(c));
        }
    } else if c == '9' {
        s.append("9");
        proof {
            reveal_strlit("9");
            assert(s@ =~= old(s)@.push(c));
        }
    } else if c == 'h' {
        s.append("h");
        proof {
            reveal_strlit("h");
            assert(s@ =~= old(s)@.push(c));
        }
    } else {
        s.append("/");
        proof {
            reveal_strlit("/");
            assert(s@ =~= old(s)@.push(c));
        }
    }
}

/// Reads the characters of a text into a vector.
pub fn str_chars(s: &str) -> (out: Vec<char>)
    ensures
        out@ == s@,
{
    let n = s.unicode_len();
    let mut out: Vec<char> = Vec::new();
    let mut i: usize = 0;
    while i < n
        invariant
            n == s@.len(),
            0 <= i <= n,
            out@ == s@.take(i as int),
        decreases n - i,
    {
        out.push(s.get_char(i));
        i = i + 1;
    }
    proof {
        assert(s@.take(n as int) =~= s@);
    }
    out
}

/// Parses a digit sequence as a 32-bit value; fails exactly when the sequence
/// is empty, holds a non-digit, or evaluates beyond the 32-bit range.
pub fn dec_parse(token: &Vec<char>) -> (r: Option<u32>)
    ensures
        r is Some <==> token@.len() > 0 && all_digits(token@) && dec_val(token@) <= u32::MAX,
        r matches Some(v) ==> v == dec_val(token@),
{
    if token.len() == 0 {
        return None;
    }
    let mut acc: u64 = 0;
    let mut i: usize = 0;
    while i < token.len()
        invariant
            0 <= i <= token@.len(),
            all_digits(token@.take(i as int)),
            acc == dec_val(token@.take(i as int)),
            acc <= u32::MAX,
        decreases token@.len() - i,
    {
        let d = digit_val_exec(token[i]);
        if d >= 10 {
            assert(!is_digit(token@[i as int]));
            return None;
        }
        proof {
            lemma_dec_val_step(token@, i as int);
            assert(all_digits(token@.take(i as int + 1)));
        }
        let next: u64 = acc * 10 + (d as u64);
        if next > u32::MAX as u64 {
            proof {
                if all_digits(token@) {
                    lemma_dec_val_prefix(token@, i as int + 1);
                }
            }
            return None;
        }
        acc = next;
        i = i + 1;
    }
    proof {
        assert(token@.take(token@.len() as int) =~= token@);
    }
    Some(acc as u32)
}

} // verus!

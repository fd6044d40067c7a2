use vstd::prelude::*;
use vstd::string::StrSliceExecFns;
use vstd::string::StringExecFns;

verus! {

/// The decimal digit character for a value below ten.
pub open spec fn dec_digit(d: nat) -> char {
    if d == 0 {
        '0'
    } else if d == 1 {
        '1'
    } else if d == 2 {
        '2'
    } else if d == 3 {
        '3'
    } else if d == 4 {
        '4'
    } else if d == 5 {
        '5'
    } else if d == 6 {
        '6'
    } else if d == 7 {
        '7'
    } else if d == 8 {
        '8'
    } else {
        '9'
    }
}

/// The decimal text of a natural number, most significant digit first.
pub open spec fn dec_str(n: nat) -> Seq<char>
    decreases n,
{
    if n < 10 {
        seq![dec_digit(n)]
    } else {
        dec_str(n / 10).push(dec_digit(n % 10))
    }
}

/// The decimal text of an integer: a minus sign before the magnitude when negative.
pub open spec fn dec_str_signed(v: int) -> Seq<char> {
    if v < 0 {
        seq!['-'] + dec_str((-v) as nat)
    } else {
        dec_str(v as nat)
    }
}

/// Relies on String::push: appends one character at the end of the string.
#[verifier::external_body]
pub fn push_char(s: &mut String, c: char)
    ensures
        final(s)@ == old(s)@.push(c),
{
    s.push(c);
}

fn dec_digit_char(d: u64) -> (c: char)
    requires
        d < 10,
    ensures
        c == dec_digit(d as nat),
{
    if d == 0 {
        '0'
    } else if d == 1 {
        '1'
    } else if d == 2 {
        '2'
    } else if d == 3 {
        '3'
    } else if d == 4 {
        '4'
    } else if d == 5 {
        '5'
    } else if d == 6 {
        '6'
    } else if d == 7 {
        '7'
    } else if d == 8 {
        '8'
    } else {
        '9'
    }
}

/// Appends the decimal text of `n` to `out`.
pub fn push_dec_u64(out: &mut String, n: u64)
    ensures
        final(out)@ == old(out)@ + dec_str(n as nat),
    decreases n,
{
    if n < 10 {
        push_char(out, dec_digit_char(n));
        proof {
            assert(old(out)@.push(dec_digit(n as nat)) =~= old(out)@ + dec_str(n as nat));
        }
    } else {
        push_dec_u64(out, n / 10);
        push_char(out, dec_digit_char(n % 10));
        proof {
            assert((old(out)@ + dec_str((n / 10) as nat)).push(dec_digit((n % 10) as nat)) =~= old(
                out,
            )@ + dec_str(n as nat));
        }
    }
}

/// Appends the decimal text of `n` to `out`.
pub fn push_dec_usize(out: &mut String, n: usize)
    ensures
        final(out)@ == old(out)@ + dec_str(n as nat),
{
    push_dec_u64(out, n as u64);
}

/// Appends the decimal text of `v` to `out`, with a minus sign when negative.
pub fn push_dec_i32(out: &mut String, v: i32)
    ensures
        final(out)@ == old(out)@ + dec_str_signed(v as int),
{
    if v >= 0 {
        push_dec_u64(out, v as u64);
    } else {
        push_char(out, '-');
        let m: u64 = (-(v as i64)) as u64;
        push_dec_u64(out, m);
        proof {
            assert(old(out)@.push('-') + dec_str(m as nat) =~= old(out)@ + dec_str_signed(
                v as int,
            ));
        }
    }
}

/// Compares two text slices character by character.
pub fn str_eq(a: &str, b: &str) -> (r: bool)
    ensures
        r == (a@ == b@),
{
    let la = a.unicode_len();
    let lb = b.unicode_len();
    if la != lb {
        return false;
    }
    let mut i: usize = 0;
    while i < la
        invariant
            la == a@.len(),
            lb == b@.len(),
            la == lb,
            i <= la,
            forall|j: int| 0 <= j < i ==> a@[j] == b@[j],
        decreases la - i,
    {
        let ca = a.get_char(i);
        let cb = b.get_char(i);
        if ca != cb {
            return false;
        }
        i = i + 1;
    }
    proof {
        assert(a@ =~= b@);
    }
    true
}


/// Decimal text holds digit characters only, and at least one.
pub proof fn lemma_dec_str_digits(n: nat)
    ensures
        dec_str(n).len() >= 1,
        forall|j: int|
            0 <= j < dec_str(n).len() ==> 48 <= (#[trigger] dec_str(n)[j] as u32) <= 57,
    decreases n,
{
    if n >= 10 {
        lemma_dec_str_digits(n / 10);
    }
}

/// Reading decimal text back gives the number it was made from.
pub proof fn lemma_dec_str_value(n: nat)
    ensures
        crate::parser::digits_val(dec_str(n)) == n,
    decreases n,
{
    lemma_digit_char_value(n % 10);
    if n < 10 {
        assert(dec_str(n) =~= seq![dec_digit(n)]);
        assert(dec_str(n).drop_last() =~= Seq::<char>::empty());
        assert(crate::parser::digits_val(Seq::<char>::empty()) == 0);
        assert(crate::parser::digits_val(dec_str(n)) == crate::parser::digits_val(
            dec_str(n).drop_last(),
        ) * 10 + crate::parser::digit_of(dec_str(n).last()));
    } else {
        lemma_dec_str_value(n / 10);
        assert(dec_str(n).drop_last() =~= dec_str(n / 10));
        assert(dec_str(n).last() == dec_digit(n % 10));
        assert(crate::parser::digits_val(dec_str(n)) == crate::parser::digits_val(
            dec_str(n).drop_last(),
        ) * 10 + crate::parser::digit_of(dec_str(n).last()));
    }
}

/// The digit character of a value below ten reads back as that value.
pub proof fn lemma_digit_char_value(d: nat)
    requires
        d < 10,
    ensures
        crate::parser::digit_of(dec_digit(d)) == d,
{
    if d == 0 {
        assert(('0' as u32) == 48);
    } else if d == 1 {
        assert(('1' as u32) == 49);
    } else if d == 2 {
        assert(('2' as u32) == 50);
    } else if d == 3 {
        assert(('3' as u32) == 51);
    } else if d == 4 {
        assert(('4' as u32) == 52);
    } else if d == 5 {
        assert(('5' as u32) == 53);
    } else if d == 6 {
        assert(('6' as u32) == 54);
    } else if d == 7 {
        assert(('7' as u32) == 55);
    } else if d == 8 {
        assert(('8' as u32) == 56);
    } else {
        assert(('9' as u32) == 57);
    }
}

} // verus!

//! Replacing one character of a string.

use vstd::prelude::*;
use vstd::string::{StrSliceExecFns, StringExecFns};

verus! {

/// The character of a decimal digit.
pub open spec fn digit_char(d: nat) -> char
    recommends
        d < 10,
{
    (48 + d) as u8 as char
}

/// The decimal numeral of a number, without leading zeros.
pub open spec fn decimal(n: nat) -> Seq<char>
    decreases n,
{
    if n < 10 {
        seq![digit_char(n)]
    } else {
        decimal(n / 10).push(digit_char(n % 10))
    }
}

/// What `swap_char` reports when the index is not below the length.
pub open spec fn out_of_bounds_message(index: nat, len: nat) -> Seq<char> {
    "Index "@ + decimal(index) + " out of bounds for string of length "@ + decimal(len)
}

/// Appends the decimal numeral of `n`.
fn push_decimal(out: &mut String, n: usize)
    ensures
        final(out)@ == old(out)@ + decimal(n as nat),
    decreases n,
{
    if n >= 10 {
        push_decimal(out, n / 10);
    }
    let d: u8 = (n % 10) as u8;
    out.push((48 + d) as char);
    proof {
        if n >= 10 {
            assert(final(out)@ == (old(out)@ + decimal((n / 10) as nat)).push(
                digit_char((n % 10) as nat),
            ));
            assert((old(out)@ + decimal((n / 10) as nat)).push(digit_char((n % 10) as nat))
                == old(out)@ + decimal((n / 10) as nat).push(digit_char((n % 10) as nat)));
        } else {
            assert(final(out)@ == old(out)@ + seq![digit_char(n as nat)]);
        }
    }
}

/// Replaces the character at `index`, counted in characters, by `new_char`.
///
/// Where `index` is below the length the string is changed at that place
/// and nowhere else.  Otherwise the string stays as it is and the error
/// says so.
pub fn swap_char(s: &mut String, index: usize, new_char: char) -> (res: Result<(), String>)
    ensures
        index < old(s)@.len() ==> res is Ok && final(s)@ == old(s)@.update(index as int, new_char),
        index >= old(s)@.len() ==> final(s)@ == old(s)@ && match res {
            Ok(_) => false,
            Err(message) => message@ == out_of_bounds_message(index as nat, old(s)@.len()),
        },
{
    let len = s.as_str().unicode_len();
    if index >= len {
        let mut message = String::from_str("Index ");
        push_decimal(&mut message, index);
        message.append(" out of bounds for string of length ");
        push_decimal(&mut message, len);
        return Err(message);
    }
    let mut swapped = String::new();
    let mut at: usize = 0;
    for c in it: s.as_str().chars()
        invariant
            it.seq() == s@,
            s@.len() == len,
            at == it.index(),
            swapped@.len() == at,
            forall|i: int|
                0 <= i < at ==> #[trigger] swapped@[i] == if i == index {
                    new_char
                } else {
                    s@[i]
                },
    {
        if at == index {
            swapped.push(new_char);
        } else {
            swapped.push(c);
        }
        at += 1;
    }
    proof {
        assert(swapped@ == s@.update(index as int, new_char));
    }
    *s = swapped;
    Ok(())
}

} // verus!

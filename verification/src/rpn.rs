//! The ground evaluator: postfix text over the literals `0` and `1`.

use vstd::prelude::*;
use crate::error::MalformedFormula;
use crate::formula::is_variable;
use crate::postfix::{is_binary_operator, is_operator};

verus! {

/// The two truth values as they are written in ground text.
pub open spec fn is_literal_char(c: char) -> bool {
    c == '0' || c == '1'
}

/// What a binary connective makes of its operands, `a` the one that was
/// pushed first.
pub open spec fn apply_binary(op: char, a: bool, b: bool) -> bool
    recommends
        is_binary_operator(op),
{
    if op == '&' {
        a && b
    } else if op == '|' {
        a || b
    } else if op == '^' {
        a != b
    } else if op == '=' {
        a == b
    } else {
        !a || b
    }
}

/// The value stack after one more character, or `None` where the character
/// is outside the ground alphabet or finds too few operands.
pub open spec fn ground_step(stack: Seq<bool>, c: char) -> Option<Seq<bool>> {
    if is_literal_char(c) {
        Some(stack.push(c == '1'))
    } else if c == '!' {
        if stack.len() >= 1 {
            Some(stack.drop_last().push(!stack.last()))
        } else {
            None
        }
    } else if is_binary_operator(c) {
        if stack.len() >= 2 {
            Some(
                stack.take(stack.len() - 2).push(
                    apply_binary(c, stack[stack.len() - 2], stack[stack.len() - 1]),
                ),
            )
        } else {
            None
        }
    } else {
        None
    }
}

/// The value stack after the whole text, read from left to right.
pub open spec fn ground_stack(text: Seq<char>) -> Option<Seq<bool>>
    decreases text.len(),
{
    if text.len() == 0 {
        Some(Seq::empty())
    } else {
        match ground_stack(text.drop_last()) {
            Some(stack) => ground_step(stack, text.last()),
            None => None,
        }
    }
}

/// The value of a ground text: the one value that the text leaves on the
/// stack.  `None` where the text is malformed.
pub open spec fn ground_value(text: Seq<char>) -> Option<bool> {
    match ground_stack(text) {
        Some(stack) => if stack.len() == 1 {
            Some(stack[0])
        } else {
            None
        },
        None => None,
    }
}

/// Every character is a variable or a connective.
pub open spec fn is_formula_text(text: Seq<char>) -> bool {
    forall|i: int| 0 <= i < text.len() ==> is_variable(#[trigger] text[i]) || is_operator(text[i])
}

/// Once a prefix of a ground text has failed, the text has failed.
pub proof fn lemma_ground_failure_persists(text: Seq<char>, n: int)
    requires
        0 <= n <= text.len(),
        ground_stack(text.take(n)) is None,
    ensures
        ground_stack(text) is None,
    decreases text.len(),
{
    if n == text.len() {
        assert(text.take(n) == text);
    } else {
        assert(text.drop_last().take(n) == text.take(n));
        lemma_ground_failure_persists(text.drop_last(), n);
    }
}

/// Checks the alphabet of a formula: upper-case variables and the six
/// connectives, no literal.
pub fn rpn_format(formula: &str) -> (res: Result<(), MalformedFormula>)
    ensures
        res is Ok <==> is_formula_text(formula@),
{
    for c in it: formula.chars()
        invariant
            it.seq() == formula@,
            is_formula_text(formula@.take(it.index())),
    {
        let known = (c >= 'A' && c <= 'Z') || c == '!' || c == '&' || c == '|' || c == '^' || c
            == '=' || c == '>';
        if !known {
            proof {
                assert(formula@[it.index()] == c);
            }
            return Err(MalformedFormula);
        }
        proof {
            let n = it.index();
            assert forall|i: int| 0 <= i < n + 1 implies is_variable(
                #[trigger] formula@.take(n + 1)[i],
            ) || is_operator(formula@.take(n + 1)[i]) by {
                if i < n {
                    assert(formula@.take(n + 1)[i] == formula@.take(n)[i]);
                }
            }
        }
    }
    proof {
        assert(formula@.take(formula@.len() as int) == formula@);
    }
    Ok(())
}

/// Every character is a literal or a connective.
pub open spec fn is_ground_text(text: Seq<char>) -> bool {
    forall|i: int|
        0 <= i < text.len() ==> is_literal_char(#[trigger] text[i]) || is_operator(text[i])
}

/// Checks the alphabet of a ground formula: the literals `0` and `1` and
/// the six connectives, no variable.
pub fn ground_format(formula: &str) -> (res: Result<(), MalformedFormula>)
    ensures
        res is Ok <==> is_ground_text(formula@),
{
    for c in it: formula.chars()
        invariant
            it.seq() == formula@,
            is_ground_text(formula@.take(it.index())),
    {
        let known = c == '0' || c == '1' || c == '!' || c == '&' || c == '|' || c == '^' || c
            == '=' || c == '>';
        if !known {
            proof {
                assert(formula@[it.index()] == c);
            }
            return Err(MalformedFormula);
        }
        proof {
            let n = it.index();
            assert forall|i: int| 0 <= i < n + 1 implies is_literal_char(
                #[trigger] formula@.take(n + 1)[i],
            ) || is_operator(formula@.take(n + 1)[i]) by {
                if i < n {
                    assert(formula@.take(n + 1)[i] == formula@.take(n)[i]);
                }
            }
        }
    }
    proof {
        assert(formula@.take(formula@.len() as int) == formula@);
    }
    Ok(())
}

/// Evaluates ground text held as a vector of characters.
pub fn evaluate_chars(text: &Vec<char>) -> (res: Result<bool, MalformedFormula>)
    ensures
        match res {
            Ok(value) => ground_value(text@) == Some(value),
            Err(_) => ground_value(text@) is None,
        },
{
    let mut stack: Vec<bool> = Vec::new();
    let mut i: usize = 0;
    while i < text.len()
        invariant
            i <= text.len(),
            ground_stack(text@.take(i as int)) == Some(stack@),
        decreases text.len() - i,
    {
        let c = text[i];
        let ghost before = stack@;
        proof {
            assert(text@.take(i + 1).drop_last() == text@.take(i as int));
            assert(text@.take(i + 1).last() == c);
        }
        if c == '0' || c == '1' {
            stack.push(c == '1');
        } else if c == '!' {
            match stack.pop() {
                Some(a) => {
                    stack.push(!a);
                },
                None => {
                    proof {
                        lemma_ground_failure_persists(text@, i + 1);
                    }
                    return Err(MalformedFormula);
                },
            }
        } else if c == '&' || c == '|' || c == '^' || c == '=' || c == '>' {
            if stack.len() < 2 {
                proof {
                    lemma_ground_failure_persists(text@, i + 1);
                }
                return Err(MalformedFormula);
            }
            let b = stack.pop().unwrap();
            let a = stack.pop().unwrap();
            let value = if c == '&' {
                a && b
            } else if c == '|' {
                a || b
            } else if c == '^' {
                a != b
            } else if c == '=' {
                a == b
            } else {
                !a || b
            };
            stack.push(value);
            proof {
                assert(stack@ == before.take(before.len() - 2).push(
                    apply_binary(c, before[before.len() - 2], before[before.len() - 1]),
                ));
            }
        } else {
            proof {
                lemma_ground_failure_persists(text@, i + 1);
            }
            return Err(MalformedFormula);
        }
        i += 1;
    }
    proof {
        assert(text@.take(text@.len() as int) == text@);
    }
    if stack.len() != 1 {
        return Err(MalformedFormula);
    }
    Ok(stack[0])
}

/// The characters of a text, in order.
pub fn chars_of(text: &str) -> (res: Vec<char>)
    ensures
        res@ == text@,
{
    let mut res: Vec<char> = Vec::new();
    for c in it: text.chars()
        invariant
            it.seq() == text@,
            res@ == text@.take(it.index()),
    {
        res.push(c);
    }
    proof {
        assert(text@.take(text@.len() as int) == text@);
    }
    res
}

/// Evaluates a ground formula.
///
/// Succeeds exactly on the texts to which `ground_value` gives a value, and
/// returns that value; every other text is malformed.
pub fn evaluate(formula: &str) -> (res: Result<bool, MalformedFormula>)
    ensures
        match res {
            Ok(value) => ground_value(formula@) == Some(value),
            Err(_) => ground_value(formula@) is None,
        },
{
    let text = chars_of(formula);
    evaluate_chars(&text)
}

/// Evaluates a ground formula that is known to be well formed.
pub fn rpn(formula: &str) -> (res: bool)
    requires
        ground_value(formula@) is Some,
    ensures
        ground_value(formula@) == Some(res),
{
    match evaluate(formula) {
        Ok(value) => value,
        Err(_) => vstd::pervasive::unreached(),
    }
}

} // verus!

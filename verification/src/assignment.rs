//! Assignments, substitution of literals for variables, and the rows of a
//! truth table.

use vstd::arithmetic::div_mod::lemma_div_denominator;
use vstd::arithmetic::power2::{lemma_pow2_pos, lemma_pow2_unfold, pow2};
use vstd::prelude::*;
use crate::formula::{is_variable, Assignment, Evaluator};
use crate::postfix::{binary_node, is_binary_operator, is_operator, parse_spec, parse_stack};
use crate::rpn::{apply_binary, ground_stack, ground_value, is_formula_text};

verus! {

/// The literal that stands for a truth value in ground text.
pub open spec fn literal_char(value: bool) -> char {
    if value {
        '1'
    } else {
        '0'
    }
}

/// The text with the literal of each variable's value in the variable's
/// place.
pub open spec fn substitute(text: Seq<char>, env: Assignment) -> Seq<char> {
    Seq::new(
        text.len(),
        |i: int|
            if is_variable(text[i]) {
                literal_char(env(text[i]))
            } else {
                text[i]
            },
    )
}

/// The values of the operands on a stack.
pub open spec fn values(stack: Seq<Evaluator>, env: Assignment) -> Seq<bool> {
    Seq::new(stack.len(), |i: int| stack[i].eval(env))
}

/// Some assignment makes the formula true.
pub open spec fn satisfiable(e: Evaluator) -> bool {
    exists|env: Assignment| #[trigger] e.eval(env)
}

/// The variables that occur in a text.
pub open spec fn text_variables(text: Seq<char>) -> Set<char> {
    Set::new(|c: char| is_variable(c) && text.contains(c))
}

/// Each member is less than the next.
pub open spec fn strictly_increasing(vars: Seq<char>) -> bool {
    forall|i: int, j: int| 0 <= i < j < vars.len() ==> (#[trigger] vars[i]) < (#[trigger] vars[j])
}

/// The binary digit of `n` with weight `2^k`.
pub open spec fn bit(n: nat, k: nat) -> bool {
    (n / pow2(k)) % 2 == 1
}

/// The value that row `row` of the table gives to the variable at index `p`
/// of `count` variables in ascending order: the first variable has the most
/// significant digit of the row's number, the last has digit 0.
pub open spec fn row_value(count: nat, row: nat, p: int) -> bool {
    bit(row, (count - 1 - p) as nat)
}

/// The assignment of row `row` to the variables `vars`.
pub open spec fn row_assignment(vars: Seq<char>, row: nat) -> Assignment {
    |c: char| vars.contains(c) && row_value(vars.len(), row, vars.index_of(c))
}

/// The number of a row that gives each variable its value under `env`.
pub open spec fn row_of(vars: Seq<char>, env: Assignment) -> nat
    decreases vars.len(),
{
    if vars.len() == 0 {
        0
    } else {
        2 * row_of(vars.drop_last(), env) + if env(vars.last()) {
            1nat
        } else {
            0nat
        }
    }
}

/// The ground evaluator on substituted text runs in step with the parser:
/// where the parser holds a stack of operands, the evaluator holds their
/// values, and where the parser fails, the evaluator fails.
pub proof fn lemma_substitute_stack(text: Seq<char>, env: Assignment)
    requires
        is_formula_text(text),
    ensures
        match parse_stack(text) {
            Some(stack) => ground_stack(substitute(text, env)) == Some(values(stack, env)),
            None => ground_stack(substitute(text, env)) is None,
        },
    decreases text.len(),
{
    let ground = substitute(text, env);
    if text.len() == 0 {
        assert(values(Seq::empty(), env) == Seq::<bool>::empty());
    } else {
        let init = text.drop_last();
        let c = text.last();
        assert(is_formula_text(init)) by {
            assert forall|i: int| 0 <= i < init.len() implies is_variable(#[trigger] init[i])
                || is_operator(init[i]) by {
                assert(init[i] == text[i]);
            }
        }
        lemma_substitute_stack(init, env);
        assert(ground.drop_last() == substitute(init, env));
        match parse_stack(init) {
            None => {},
            Some(stack) => {
                let held = values(stack, env);
                let n = stack.len() as int;
                if is_variable(c) {
                    assert(values(stack.push(Evaluator::Variable(c)), env) == held.push(env(c)));
                } else if c == '!' {
                    if n >= 1 {
                        assert(values(
                            stack.drop_last().push(Evaluator::Not(Box::new(stack.last()))),
                            env,
                        ) == held.drop_last().push(!held.last()));
                    }
                } else if is_binary_operator(c) {
                    if n >= 2 {
                        let node = binary_node(c, stack[n - 2], stack[n - 1]);
                        assert(node.eval(env) == apply_binary(c, held[n - 2], held[n - 1]));
                        assert(values(stack.take(n - 2).push(node), env) == held.take(n - 2).push(
                            node.eval(env),
                        ));
                    }
                } else {
                    assert(is_variable(text[text.len() - 1]) || is_operator(
                        text[text.len() - 1],
                    ));
                }
            },
        }
    }
}

/// Evaluating a formula's text with literals in place of its variables gives
/// the value of the formula's tree under that assignment, and fails exactly
/// where the text does not parse.
pub proof fn lemma_substitute_value(text: Seq<char>, env: Assignment)
    requires
        is_formula_text(text),
    ensures
        ground_value(substitute(text, env)) == match parse_spec(text) {
            Some(e) => Some(e.eval(env)),
            None => None,
        },
{
    lemma_substitute_stack(text, env);
}

/// The variables of a parsed tree are those of its text.
pub proof fn lemma_parse_variables(text: Seq<char>)
    requires
        parse_stack(text) is Some,
    ensures
        is_formula_text(text),
        stack_variables(parse_stack(text).unwrap()) == text_variables(text),
    decreases text.len(),
{
    let stack = parse_stack(text).unwrap();
    if text.len() == 0 {
        assert(stack_variables(stack) =~= text_variables(text));
    } else {
        let init = text.drop_last();
        let c = text.last();
        lemma_parse_variables(init);
        let before = parse_stack(init).unwrap();
        let n = before.len() as int;
        assert forall|i: int| 0 <= i < text.len() implies is_variable(#[trigger] text[i])
            || is_operator(text[i]) by {
            if i < init.len() {
                assert(init[i] == text[i]);
            }
        }
        assert forall|v: char| text_variables(text).contains(v) == (text_variables(init).contains(
            v,
        ) || (is_variable(c) && v == c)) by {
            if text.contains(v) {
                let i = choose|i: int| 0 <= i < text.len() && text[i] == v;
                if i < init.len() {
                    assert(init[i] == v);
                }
            }
            if init.contains(v) {
                let i = choose|i: int| 0 <= i < init.len() && init[i] == v;
                assert(text[i] == v);
            }
            if v == c {
                assert(text[text.len() - 1] == c);
            }
        }
        assert forall|v: char| stack_variables(stack).contains(v) == (stack_variables(
            before,
        ).contains(v) || (is_variable(c) && v == c)) by {
            if is_variable(c) {
                assert(stack == before.push(Evaluator::Variable(c)));
                if stack_variables(stack).contains(v) {
                    let i = choose|i: int|
                        0 <= i < stack.len() && (#[trigger] stack[i]).variables().contains(v);
                    if i < n {
                        assert(before[i] == stack[i]);
                    }
                }
                if stack_variables(before).contains(v) {
                    let i = choose|i: int|
                        0 <= i < n && (#[trigger] before[i]).variables().contains(v);
                    assert(stack[i] == before[i]);
                }
                if v == c {
                    assert(stack[n].variables().contains(v));
                }
            } else if c == '!' {
                let node = Evaluator::Not(Box::new(before.last()));
                assert(stack == before.drop_last().push(node));
                assert(node.variables() == before[n - 1].variables());
                if stack_variables(stack).contains(v) {
                    let i = choose|i: int|
                        0 <= i < stack.len() && (#[trigger] stack[i]).variables().contains(v);
                    if i < n - 1 {
                        assert(before[i] == stack[i]);
                    } else {
                        assert(before[n - 1].variables().contains(v));
                    }
                }
                if stack_variables(before).contains(v) {
                    let i = choose|i: int|
                        0 <= i < n && (#[trigger] before[i]).variables().contains(v);
                    if i < n - 1 {
                        assert(stack[i] == before[i]);
                    } else {
                        assert(stack[n - 1].variables().contains(v));
                    }
                }
            } else {
                let node = binary_node(c, before[n - 2], before[n - 1]);
                assert(stack == before.take(n - 2).push(node));
                assert(node.variables() == before[n - 2].variables().union(
                    before[n - 1].variables(),
                ));
                if stack_variables(stack).contains(v) {
                    let i = choose|i: int|
                        0 <= i < stack.len() && (#[trigger] stack[i]).variables().contains(v);
                    if i < n - 2 {
                        assert(before[i] == stack[i]);
                    } else {
                        assert(before[n - 2].variables().contains(v) || before[n
                            - 1].variables().contains(v));
                    }
                }
                if stack_variables(before).contains(v) {
                    let i = choose|i: int|
                        0 <= i < n && (#[trigger] before[i]).variables().contains(v);
                    if i < n - 2 {
                        assert(stack[i] == before[i]);
                    } else {
                        assert(stack[n - 2].variables().contains(v));
                    }
                }
            }
        }
        assert(stack_variables(stack) =~= text_variables(text));
    }
}

/// The variables that occur in the operands of a stack.
pub open spec fn stack_variables(stack: Seq<Evaluator>) -> Set<char> {
    Set::new(
        |c: char| exists|i: int| 0 <= i < stack.len() && (#[trigger] stack[i]).variables().contains(c),
    )
}

/// The variables of a formula are those of the text it was parsed from.
pub proof fn lemma_parsed_variables(text: Seq<char>)
    requires
        parse_spec(text) is Some,
    ensures
        is_formula_text(text),
        parse_spec(text).unwrap().variables() == text_variables(text),
{
    lemma_parse_variables(text);
    let stack = parse_stack(text).unwrap();
    assert(stack_variables(stack) =~= stack[0].variables());
}

/// The row that `row_of` names lies in the table and gives each variable
/// its value under the assignment.
pub proof fn lemma_row_of(vars: Seq<char>, env: Assignment)
    ensures
        row_of(vars, env) < pow2(vars.len()),
        forall|p: int|
            0 <= p < vars.len() ==> #[trigger] row_value(vars.len(), row_of(vars, env), p)
                == env(vars[p]),
    decreases vars.len(),
{
    let n = vars.len();
    if n == 0 {
        lemma_pow2_pos(0);
    } else {
        let init = vars.drop_last();
        let inner = row_of(init, env);
        let low: nat = if env(vars.last()) {
            1
        } else {
            0
        };
        let row = row_of(vars, env);
        lemma_row_of(init, env);
        lemma_pow2_unfold(n);
        assert(row == 2 * inner + low);
        assert forall|p: int| 0 <= p < n implies #[trigger] row_value(n, row, p)
            == env(vars[p]) by {
            let k = (n - 1 - p) as nat;
            if k == 0 {
                assert(pow2(0) == 1) by {
                    vstd::arithmetic::power2::lemma2_to64();
                }
                assert(row / 1 == row);
                assert(row % 2 == low);
            } else {
                let half = pow2((k - 1) as nat);
                lemma_pow2_unfold(k);
                lemma_pow2_pos((k - 1) as nat);
                lemma_div_denominator(row as int, 2, half as int);
                assert(row / 2 == inner);
                assert(2 * half == half * 2) by (nonlinear_arith);
                assert(row / pow2(k) == inner / half);
                assert(row_value((n - 1) as nat, inner, p) == env(init[p]));
                assert(init[p] == vars[p]);
            }
        }
    }
}

/// In a strictly increasing sequence a member stands at one index only.
pub proof fn lemma_index_of_increasing(vars: Seq<char>, p: int)
    requires
        strictly_increasing(vars),
        0 <= p < vars.len(),
    ensures
        vars.contains(vars[p]),
        vars.index_of(vars[p]) == p,
{
    let q = vars.index_of(vars[p]);
    assert(0 <= q < vars.len() && vars[q] == vars[p]);
    if q < p {
        assert(vars[q] < vars[p]);
    }
    if p < q {
        assert(vars[p] < vars[q]);
    }
}

/// Whatever the assignment, some row of the table gives the formula the
/// value that the assignment gives it.
pub proof fn lemma_row_covers(e: Evaluator, vars: Seq<char>, env: Assignment)
    requires
        strictly_increasing(vars),
        forall|c: char| e.variables().contains(c) ==> vars.contains(c),
    ensures
        row_of(vars, env) < pow2(vars.len()),
        e.eval(row_assignment(vars, row_of(vars, env))) == e.eval(env),
{
    let row = row_of(vars, env);
    let by_row = row_assignment(vars, row);
    lemma_row_of(vars, env);
    assert forall|c: char| e.variables().contains(c) implies by_row(c) == env(c) by {
        assert(vars.contains(c));
        let p = vars.index_of(c);
        lemma_index_of_increasing(vars, p);
        assert(row_value(vars.len(), row, p) == env(vars[p]));
    }
    e.lemma_eval_depends_on_variables(by_row, env);
}

} // verus!

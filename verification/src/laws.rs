//! What holds between the parser, the serializer, the normal forms and the
//! ground evaluator.

use vstd::prelude::*;
use crate::assignment::{lemma_parsed_variables, lemma_substitute_value, satisfiable, substitute};
use crate::formula::{Assignment, Evaluator};
use crate::postfix::{parse_spec, parse_stack};
use crate::rpn::ground_value;

verus! {

/// The postfix texts of the operands of a stack, one after the other.
pub open spec fn stack_text(stack: Seq<Evaluator>) -> Seq<char>
    decreases stack.len(),
{
    if stack.len() == 0 {
        Seq::empty()
    } else {
        stack_text(stack.drop_last()) + stack.last().postfix()
    }
}

/// The operands that the parser holds after a text, written one after the
/// other, give that text back.
pub proof fn lemma_stack_text(text: Seq<char>)
    requires
        parse_stack(text) is Some,
    ensures
        stack_text(parse_stack(text).unwrap()) == text,
    decreases text.len(),
{
    let stack = parse_stack(text).unwrap();
    if text.len() == 0 {
        assert(stack_text(stack) == text);
    } else {
        let init = text.drop_last();
        let c = text.last();
        let before = parse_stack(init).unwrap();
        let n = before.len() as int;
        lemma_stack_text(init);
        assert(text == init.push(c));
        if crate::formula::is_variable(c) {
            assert(stack.drop_last() == before);
            assert(stack.last().postfix() == seq![c]);
            assert(init + seq![c] == init.push(c));
        } else if c == '!' {
            let rest = before.drop_last();
            assert(stack.drop_last() == rest);
            assert(stack.last().postfix() == before.last().postfix().push('!'));
            assert(stack_text(rest) + before.last().postfix().push('!') == (stack_text(rest)
                + before.last().postfix()).push('!'));
        } else {
            let rest = before.take(n - 2);
            let (a, b) = (before[n - 2], before[n - 1]);
            assert(stack.drop_last() == rest);
            assert(stack.last().postfix() == (a.postfix() + b.postfix()).push(c));
            assert(before.drop_last().drop_last() == rest);
            assert(before.drop_last().last() == a);
            assert(stack_text(before.drop_last()) == stack_text(rest) + a.postfix());
            assert(stack_text(rest) + (a.postfix() + b.postfix()).push(c) == ((stack_text(rest)
                + a.postfix()) + b.postfix()).push(c));
        }
    }
}

/// Writing a parsed formula gives back the text it was parsed from: the
/// serializer is the inverse of the parser.
pub proof fn lemma_postfix_of_parsed(text: Seq<char>)
    requires
        parse_spec(text) is Some,
    ensures
        parse_spec(text).unwrap().postfix() == text,
{
    lemma_stack_text(text);
    let stack = parse_stack(text).unwrap();
    assert(stack.drop_last().len() == 0);
    assert(stack_text(stack.drop_last()) == Seq::<char>::empty());
    assert(stack.last() == stack[0]);
    assert(stack_text(stack) == Seq::<char>::empty() + stack[0].postfix());
    assert(Seq::<char>::empty() + stack[0].postfix() == stack[0].postfix());
}

/// Parsing the text of a parsed formula gives the formula back: the round
/// trip through the serializer keeps every tree that the parser builds.
pub proof fn lemma_parse_of_postfix(text: Seq<char>)
    requires
        parse_spec(text) is Some,
    ensures
        parse_spec(parse_spec(text).unwrap().postfix()) == parse_spec(text),
{
    lemma_postfix_of_parsed(text);
}

/// The ground evaluator, run on the text of a well-formed formula with
/// literals in place of the variables, finds the value of the formula under
/// that assignment.
pub proof fn lemma_evaluate_substituted(e: Evaluator, env: Assignment)
    requires
        e.well_formed(),
    ensures
        ground_value(substitute(e.postfix(), env)) == Some(e.eval(env)),
{
    e.lemma_round_trip();
    lemma_parsed_variables(e.postfix());
    lemma_substitute_value(e.postfix(), env);
}

/// Soundness of the negation normal form, on text: under every assignment
/// the ground evaluator gives a formula and the text of its negation normal
/// form the same value.
pub proof fn lemma_nnf_preserves_evaluation(text: Seq<char>, env: Assignment)
    requires
        parse_spec(text) is Some,
    ensures
        ground_value(substitute(text, env)) is Some,
        ground_value(substitute(parse_spec(text).unwrap().spec_nnf().postfix(), env))
            == ground_value(substitute(text, env)),
{
    let e = parse_spec(text).unwrap();
    crate::postfix::lemma_parse_stack_well_formed(text);
    lemma_parsed_variables(text);
    lemma_substitute_value(text, env);
    e.lemma_nnf_shape();
    e.lemma_nnf_equivalent(env);
    lemma_evaluate_substituted(e.spec_nnf(), env);
}

/// Soundness of the conjunctive normal form, on text: under every
/// assignment the ground evaluator gives a formula and the text of its
/// conjunctive normal form the same value.
pub proof fn lemma_cnf_preserves_evaluation(text: Seq<char>, env: Assignment)
    requires
        parse_spec(text) is Some,
    ensures
        ground_value(substitute(text, env)) is Some,
        ground_value(substitute(parse_spec(text).unwrap().spec_cnf().postfix(), env))
            == ground_value(substitute(text, env)),
{
    let e = parse_spec(text).unwrap();
    crate::postfix::lemma_parse_stack_well_formed(text);
    lemma_parsed_variables(text);
    lemma_substitute_value(text, env);
    e.lemma_cnf_shape();
    e.lemma_cnf_equivalent(env);
    lemma_evaluate_substituted(e.spec_cnf(), env);
}

/// A formula is satisfiable exactly where its conjunctive normal form is.
pub proof fn lemma_satisfiable_by_cnf(e: Evaluator)
    ensures
        satisfiable(e) == satisfiable(e.spec_cnf()),
{
    if satisfiable(e) {
        let env = choose|env: Assignment| #[trigger] e.eval(env);
        e.lemma_cnf_equivalent(env);
        assert(e.spec_cnf().eval(env));
    }
    if satisfiable(e.spec_cnf()) {
        let env = choose|env: Assignment| #[trigger] e.spec_cnf().eval(env);
        e.lemma_cnf_equivalent(env);
        assert(e.eval(env));
    }
}

} // verus!

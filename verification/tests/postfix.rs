use boolean_evaluator::{negation_normal_form, Evaluator, MalformedFormula};

fn var(c: char) -> Box<Evaluator> {
    Box::new(Evaluator::Variable(c))
}

#[test]
fn parse_builds_binary_nodes_with_the_earlier_operand_on_the_left() {
    assert_eq!(
        Evaluator::parse("AB>"),
        Ok(Evaluator::Conditional(var('A'), var('B')))
    );
    assert_eq!(Evaluator::parse("AB&"), Ok(Evaluator::And(var('A'), var('B'))));
    assert_eq!(Evaluator::parse("AB|"), Ok(Evaluator::Or(var('A'), var('B'))));
    assert_eq!(Evaluator::parse("AB^"), Ok(Evaluator::Xor(var('A'), var('B'))));
    assert_eq!(
        Evaluator::parse("AB="),
        Ok(Evaluator::Equivalence(var('A'), var('B')))
    );
}

#[test]
fn parse_builds_negation_on_the_top_operand() {
    assert_eq!(
        Evaluator::parse("AB!&"),
        Ok(Evaluator::And(var('A'), Box::new(Evaluator::Not(var('B')))))
    );
    assert_eq!(
        Evaluator::parse("A!!"),
        Ok(Evaluator::Not(Box::new(Evaluator::Not(var('A')))))
    );
}

#[test]
fn parse_single_variable() {
    assert_eq!(Evaluator::parse("Z"), Ok(Evaluator::Variable('Z')));
    assert_eq!(Evaluator::parse("A"), Ok(Evaluator::Variable('A')));
}

#[test]
fn parse_nested_formula() {
    let expected = Evaluator::Or(
        Box::new(Evaluator::And(var('A'), var('B'))),
        var('C'),
    );
    assert_eq!(Evaluator::parse("AB&C|"), Ok(expected));
}

#[test]
fn parse_rejects_too_few_operands() {
    assert_eq!(Evaluator::parse("AB&&"), Err(MalformedFormula));
    assert_eq!(Evaluator::parse("A&"), Err(MalformedFormula));
    assert_eq!(Evaluator::parse("!"), Err(MalformedFormula));
    assert_eq!(Evaluator::parse("&AB"), Err(MalformedFormula));
}

#[test]
fn parse_rejects_literals_and_other_characters() {
    assert_eq!(Evaluator::parse("A1&"), Err(MalformedFormula));
    assert_eq!(Evaluator::parse("A0|"), Err(MalformedFormula));
    assert_eq!(Evaluator::parse("ab&"), Err(MalformedFormula));
    assert_eq!(Evaluator::parse("A B&"), Err(MalformedFormula));
    assert_eq!(Evaluator::parse("AÉ&"), Err(MalformedFormula));
}

#[test]
fn parse_rejects_leftover_operands_and_empty_text() {
    assert_eq!(Evaluator::parse("AB"), Err(MalformedFormula));
    assert_eq!(Evaluator::parse("AB&C"), Err(MalformedFormula));
    assert_eq!(Evaluator::parse(""), Err(MalformedFormula));
}

#[test]
fn new_agrees_with_parse() {
    assert_eq!(Ok(Evaluator::new("AB&C|")), Evaluator::parse("AB&C|"));
}

#[test]
fn to_string_mirrors_the_tree() {
    let tree = Evaluator::Xor(
        Box::new(Evaluator::Not(Box::new(Evaluator::And(var('A'), var('B'))))),
        Box::new(Evaluator::Equivalence(var('C'), var('D'))),
    );
    assert_eq!(tree.to_string(), "AB&!CD=^");
    assert_eq!(Evaluator::Variable('Q').to_string(), "Q");
}

#[test]
fn to_string_does_not_reorder_connectives() {
    assert_eq!(Evaluator::new("AB&C&D&").to_string(), "AB&C&D&");
    assert_eq!(Evaluator::new("AB|C|D|").to_string(), "AB|C|D|");
    assert_eq!(Evaluator::new("AB&!").to_string(), "AB&!");
}

#[test]
fn round_trip_keeps_the_tree() {
    for text in [
        "A", "A!", "AB&", "AB|C&", "AB&C&D&", "ABCD&&&", "AB^!C>", "AB=CD=^", "A!!B!!|", "AB>C>D>",
        "ABC|&!D^E=",
    ] {
        let tree = Evaluator::new(text);
        assert_eq!(Evaluator::parse(&tree.to_string()), Ok(tree.clone()));
        assert_eq!(tree.to_string(), text);
    }
}

#[test]
fn clone_is_equal() {
    let tree = Evaluator::new("AB^!C>D=");
    assert_eq!(tree.clone(), tree);
}

#[test]
fn negation_normal_form_of_text() {
    assert_eq!(negation_normal_form("A!!"), "A");
    assert_eq!(negation_normal_form("AB>"), "A!B|");
    assert_eq!(negation_normal_form("AB&!"), "A!B!|");
    assert_eq!(negation_normal_form("AB="), "A!B|B!A|&");
}

#[test]
fn negation_normal_form_of_nested_text() {
    assert_eq!(
        negation_normal_form("ABAA|>=B|"),
        "A!B!AA|||BA!A!&&A|&B|"
    );
    assert_eq!(
        negation_normal_form("ABA|A>=B|"),
        "A!B!A!&A||BA|A!&A|&B|"
    );
}

//! Truth tables and satisfiability by enumeration.

use vstd::arithmetic::power2::{lemma2_to64, lemma_pow2_strictly_increases, pow2};
use vstd::bits::{lemma_u32_shl_is_mul, lemma_u32_shr_is_div};
use vstd::prelude::*;
use crate::assignment::{
    bit, lemma_index_of_increasing, lemma_parsed_variables, lemma_row_covers,
    lemma_substitute_value, literal_char, row_assignment, row_value, satisfiable,
    strictly_increasing, substitute, text_variables,
};
use crate::error::MalformedFormula;
use crate::formula::{is_variable, Evaluator};
use crate::postfix::parse_spec;
use crate::rpn::{chars_of, evaluate_chars, is_formula_text, rpn_format};

verus! {

/// The truth table of a formula.
pub struct TruthTable {
    /// The variables of the formula, each once, in ascending order.
    pub variables: Vec<char>,
    /// The value of the formula in each row; row `i` gives the variables
    /// the binary digits of `i`, the first variable the most significant.
    pub results: Vec<bool>,
    /// Whether some row is true.
    pub satisfiable: bool,
}

impl TruthTable {
    /// The table has a row for each assignment to at most 26 variables.
    pub open spec fn well_formed(self) -> bool {
        &&& self.variables@.len() <= 26
        &&& self.results@.len() == pow2(self.variables@.len())
    }

    /// The table is the truth table of the formula `e`.
    pub open spec fn describes(self, e: Evaluator) -> bool {
        &&& self.well_formed()
        &&& strictly_increasing(self.variables@)
        &&& self.variables@.to_set() == e.variables()
        &&& forall|row: int|
            0 <= row < self.results@.len() ==> #[trigger] self.results@[row] == e.eval(
                row_assignment(self.variables@, row as nat),
            )
        &&& self.satisfiable == (exists|row: int|
            0 <= row < self.results@.len() && #[trigger] self.results@[row])
        &&& self.satisfiable == satisfiable(e)
    }
}

/// Whether the character occurs in the text.
fn occurs(text: &Vec<char>, c: char) -> (res: bool)
    ensures
        res == text@.contains(c),
{
    let mut i: usize = 0;
    while i < text.len()
        invariant
            i <= text.len(),
            forall|j: int| 0 <= j < i ==> text@[j] != c,
        decreases text.len() - i,
    {
        if text[i] == c {
            return true;
        }
        i += 1;
    }
    false
}

/// The variables that occur in the text, each once, in ascending order.
pub fn variables_of(text: &Vec<char>) -> (vars: Vec<char>)
    ensures
        strictly_increasing(vars@),
        vars@.to_set() == text_variables(text@),
        vars@.len() <= 26,
{
    let mut vars: Vec<char> = Vec::new();
    let mut code: u8 = 65;
    while code <= 90
        invariant
            65 <= code <= 91,
            vars@.len() <= code - 65,
            strictly_increasing(vars@),
            forall|i: int| 0 <= i < vars@.len() ==> (#[trigger] vars@[i]) < code as char,
            forall|c: char|
                vars@.contains(c) <==> is_variable(c) && c < code as char && text@.contains(c),
        decreases 91 - code,
    {
        let letter = code as char;
        let ghost before = vars@;
        if occurs(text, letter) {
            vars.push(letter);
            proof {
                assert forall|c: char| vars@.contains(c) implies before.contains(c) || c
                    == letter by {
                    let i = choose|i: int| 0 <= i < vars@.len() && vars@[i] == c;
                    if i < before.len() {
                        assert(before[i] == c);
                    }
                }
                assert forall|c: char| before.contains(c) implies vars@.contains(c) by {
                    let i = choose|i: int| 0 <= i < before.len() && before[i] == c;
                    assert(vars@[i] == c);
                }
                assert(vars@[before.len() as int] == letter);
                assert forall|i: int, j: int| 0 <= i < j < vars@.len() implies (
                #[trigger] vars@[i]) < (#[trigger] vars@[j]) by {
                    assert(vars@[i] == before[i]);
                    if j < before.len() {
                        assert(vars@[j] == before[j]);
                    }
                }
            }
        }
        code += 1;
    }
    proof {
        assert(vars@.to_set() =~= text_variables(text@));
    }
    vars
}

/// The index at which the variable stands in the list.
fn index_in(vars: &Vec<char>, c: char) -> (p: usize)
    requires
        vars@.contains(c),
    ensures
        p < vars@.len(),
        vars@[p as int] == c,
{
    let mut p: usize = 0;
    while p < vars.len()
        invariant
            p <= vars.len(),
            forall|j: int| 0 <= j < p ==> vars@[j] != c,
        decreases vars.len() - p,
    {
        if vars[p] == c {
            return p;
        }
        p += 1;
    }
    proof {
        let j = choose|j: int| 0 <= j < vars@.len() && vars@[j] == c;
        assert(vars@[j] == c);
    }
    vstd::pervasive::unreached()
}

/// Binary digit `k` of `row`.
fn digit(row: u32, k: u32) -> (res: bool)
    requires
        k < 32,
    ensures
        res == bit(row as nat, k as nat),
{
    let shifted = row >> k;
    proof {
        lemma_u32_shr_is_div(row, k);
        assert(shifted & 1 == shifted % 2) by (bit_vector);
    }
    shifted & 1 == 1
}

/// The text of one row: each variable replaced by the literal of the value
/// that the row gives it.
pub fn substitute_row(text: &Vec<char>, vars: &Vec<char>, row: u32) -> (ground: Vec<char>)
    requires
        strictly_increasing(vars@),
        vars@.to_set() == text_variables(text@),
        vars@.len() <= 26,
    ensures
        ground@ == substitute(text@, row_assignment(vars@, row as nat)),
{
    let ghost env = row_assignment(vars@, row as nat);
    let count: usize = vars.len();
    let mut ground: Vec<char> = Vec::new();
    let mut i: usize = 0;
    while i < text.len()
        invariant
            i <= text.len(),
            count == vars@.len(),
            count <= 26,
            strictly_increasing(vars@),
            vars@.to_set() == text_variables(text@),
            env == row_assignment(vars@, row as nat),
            ground@ == substitute(text@, env).take(i as int),
        decreases text.len() - i,
    {
        let c = text[i];
        let out = if c >= 'A' && c <= 'Z' {
            proof {
                assert(text@.contains(c));
                assert(text_variables(text@).contains(c));
                assert(vars@.to_set().contains(c));
            }
            let p = index_in(vars, c);
            proof {
                lemma_index_of_increasing(vars@, p as int);
            }
            if digit(row, (count - 1 - p) as u32) {
                '1'
            } else {
                '0'
            }
        } else {
            c
        };
        ground.push(out);
        proof {
            assert(substitute(text@, env).take(i + 1) == substitute(text@, env).take(
                i as int,
            ).push(out));
        }
        i += 1;
    }
    proof {
        assert(substitute(text@, env).take(text@.len() as int) == substitute(text@, env));
    }
    ground
}

/// The value of the formula in one row of its table.
fn evaluate_row(text: &Vec<char>, vars: &Vec<char>, row: u32) -> (res: Result<
    bool,
    MalformedFormula,
>)
    requires
        is_formula_text(text@),
        strictly_increasing(vars@),
        vars@.to_set() == text_variables(text@),
        vars@.len() <= 26,
    ensures
        match res {
            Ok(value) => parse_spec(text@) is Some && value == parse_spec(text@).unwrap().eval(
                row_assignment(vars@, row as nat),
            ),
            Err(_) => parse_spec(text@) is None,
        },
{
    let ground = substitute_row(text, vars, row);
    proof {
        lemma_substitute_value(text@, row_assignment(vars@, row as nat));
    }
    evaluate_chars(&ground)
}

/// The number of rows of a table over `count` variables.
fn row_count(count: usize) -> (total: u32)
    requires
        count <= 26,
    ensures
        total == pow2(count as nat),
        total >= 1,
{
    proof {
        lemma2_to64();
        if count < 26 {
            lemma_pow2_strictly_increases(count as nat, 26);
        }
        lemma_u32_shl_is_mul(1, count as u32);
    }
    1u32 << (count as u32)
}

/// Builds the truth table of a formula.
///
/// Succeeds exactly on the texts that parse, with the table of the parsed
/// formula: its variables in ascending order, the value of the formula in
/// each of the `2^n` rows, and whether some row is true.
pub fn truth_table(formula: &str) -> (res: Result<TruthTable, MalformedFormula>)
    ensures
        match res {
            Ok(table) => parse_spec(formula@) is Some && table.describes(
                parse_spec(formula@).unwrap(),
            ),
            Err(_) => parse_spec(formula@) is None,
        },
{
    if rpn_format(formula).is_err() {
        proof {
            if parse_spec(formula@) is Some {
                lemma_parsed_variables(formula@);
            }
        }
        return Err(MalformedFormula);
    }
    let text = chars_of(formula);
    let variables = variables_of(&text);
    let total: u32 = row_count(variables.len());
    let mut results: Vec<bool> = Vec::new();
    let mut found = false;
    let mut row: u32 = 0;
    while row < total
        invariant
            row <= total,
            total == pow2(variables@.len()),
            text@ == formula@,
            is_formula_text(text@),
            strictly_increasing(variables@),
            variables@.to_set() == text_variables(text@),
            variables@.len() <= 26,
            results@.len() == row,
            row > 0 ==> parse_spec(text@) is Some,
            forall|i: int|
                0 <= i < row ==> #[trigger] results@[i] == parse_spec(text@).unwrap().eval(
                    row_assignment(variables@, i as nat),
                ),
            found == (exists|i: int| 0 <= i < row && #[trigger] results@[i]),
        decreases total - row,
    {
        let ghost before = results@;
        match evaluate_row(&text, &variables, row) {
            Ok(value) => {
                results.push(value);
                proof {
                    assert(results@[row as int] == value);
                    assert forall|i: int| 0 <= i < row implies results@[i] == before[i] by {}
                    if found {
                        let i = choose|i: int| 0 <= i < row && #[trigger] before[i];
                        assert(results@[i]);
                    }
                    if exists|i: int| 0 <= i < row + 1 && #[trigger] results@[i] {
                        let i = choose|i: int| 0 <= i < row + 1 && #[trigger] results@[i];
                        if i < row {
                            assert(before[i]);
                        }
                    }
                }
                found = found || value;
            },
            Err(e) => {
                return Err(e);
            },
        }
        row += 1;
    }
    let table = TruthTable { variables, results, satisfiable: found };
    proof {
        let e = parse_spec(formula@).unwrap();
        lemma_parsed_variables(formula@);
        if found {
            let i = choose|i: int| 0 <= i < total && #[trigger] table.results@[i];
            assert(e.eval(row_assignment(table.variables@, i as nat)));
        }
        if satisfiable(e) {
            let env = choose|env: crate::formula::Assignment| #[trigger] e.eval(env);
            assert forall|c: char| e.variables().contains(c) implies table.variables@.contains(
                c,
            ) by {
                assert(table.variables@.to_set().contains(c));
            }
            lemma_row_covers(e, table.variables@, env);
            let i = crate::assignment::row_of(table.variables@, env) as int;
            assert(table.results@[i]);
        }
    }
    Ok(table)
}

/// Decides by enumeration whether some assignment makes the formula true.
///
/// Succeeds exactly on the texts that parse, and then tells whether the
/// parsed formula is satisfiable.
pub fn is_satisfiable(formula: &str) -> (res: Result<bool, MalformedFormula>)
    ensures
        match res {
            Ok(found) => parse_spec(formula@) is Some && found == satisfiable(
                parse_spec(formula@).unwrap(),
            ),
            Err(_) => parse_spec(formula@) is None,
        },
{
    if rpn_format(formula).is_err() {
        proof {
            if parse_spec(formula@) is Some {
                lemma_parsed_variables(formula@);
            }
        }
        return Err(MalformedFormula);
    }
    let text = chars_of(formula);
    let variables = variables_of(&text);
    let total: u32 = row_count(variables.len());
    let mut row: u32 = 0;
    while row < total
        invariant
            row <= total,
            total == pow2(variables@.len()),
            text@ == formula@,
            is_formula_text(text@),
            strictly_increasing(variables@),
            variables@.to_set() == text_variables(text@),
            variables@.len() <= 26,
            row > 0 ==> parse_spec(text@) is Some,
            forall|i: nat|
                i < row ==> !#[trigger] parse_spec(text@).unwrap().eval(
                    row_assignment(variables@, i),
                ),
        decreases total - row,
    {
        match evaluate_row(&text, &variables, row) {
            Ok(value) => {
                if value {
                    return Ok(true);
                }
            },
            Err(e) => {
                return Err(e);
            },
        }
        row += 1;
    }
    proof {
        let e = parse_spec(formula@).unwrap();
        lemma_parsed_variables(formula@);
        if satisfiable(e) {
            let env = choose|env: crate::formula::Assignment| #[trigger] e.eval(env);
            assert forall|c: char| e.variables().contains(c) implies variables@.contains(c) by {
                assert(variables@.to_set().contains(c));
            }
            lemma_row_covers(e, variables@, env);
            assert(e.eval(row_assignment(variables@, crate::assignment::row_of(variables@, env))));
        }
    }
    Ok(false)
}

/// Decides whether a formula that is known to be well formed is
/// satisfiable.
pub fn sat(formula: &str) -> (res: bool)
    requires
        parse_spec(formula@) is Some,
    ensures
        res == satisfiable(parse_spec(formula@).unwrap()),
{
    match is_satisfiable(formula) {
        Ok(found) => found,
        Err(_) => vstd::pervasive::unreached(),
    }
}

/// One cell of the table: a bar, a blank, the character, a blank.
pub open spec fn cell_text(c: char) -> Seq<char> {
    seq!['|', ' ', c, ' ']
}

/// The cells that name the variables.
pub open spec fn name_cells(vars: Seq<char>) -> Seq<char>
    decreases vars.len(),
{
    if vars.len() == 0 {
        Seq::empty()
    } else {
        name_cells(vars.drop_last()) + cell_text(vars.last())
    }
}

/// The first line of the table: a cell for each variable, then the cell of
/// the result column, `=`.
pub open spec fn header_text(vars: Seq<char>) -> Seq<char> {
    name_cells(vars) + seq!['|', ' ', '=', ' ', '|', '\n']
}

/// The cells of the first `upto` variables in row `row` of a table over
/// `count` variables.
pub open spec fn value_cells(count: nat, row: nat, upto: nat) -> Seq<char>
    decreases upto,
{
    if upto == 0 {
        Seq::empty()
    } else {
        value_cells(count, row, (upto - 1) as nat) + cell_text(
            literal_char(row_value(count, row, upto - 1)),
        )
    }
}

/// The line of row `row`: the value of each variable, then the result.
pub open spec fn row_text(count: nat, row: nat, result: bool) -> Seq<char> {
    value_cells(count, row, count) + seq!['|', ' ', literal_char(result), ' ', '|', '\n']
}

/// The lines of the first `upto` rows.
pub open spec fn rows_text(count: nat, results: Seq<bool>, upto: nat) -> Seq<char>
    decreases upto,
{
    if upto == 0 {
        Seq::empty()
    } else {
        rows_text(count, results, (upto - 1) as nat) + row_text(
            count,
            (upto - 1) as nat,
            results[upto - 1],
        )
    }
}

/// The table as text: the header, then a line for each row.
pub open spec fn table_text(vars: Seq<char>, results: Seq<bool>) -> Seq<char> {
    header_text(vars) + rows_text(vars.len(), results, results.len())
}

/// Appends one cell to the text.
fn push_cell(out: &mut String, c: char)
    ensures
        final(out)@ == old(out)@ + cell_text(c),
{
    out.push('|');
    out.push(' ');
    out.push(c);
    out.push(' ');
    proof {
        assert(final(out)@ == old(out)@ + cell_text(c));
    }
}

/// Appends the closing bar and the end of the line.
fn push_line_end(out: &mut String)
    ensures
        final(out)@ == old(out)@ + seq!['|', '\n'],
{
    out.push('|');
    out.push('\n');
    proof {
        assert(final(out)@ == old(out)@ + seq!['|', '\n']);
    }
}

impl TruthTable {
    /// The value that row `row` gives to the variable in column `column`.
    pub fn value(&self, row: usize, column: usize) -> (res: bool)
        requires
            self.well_formed(),
            row < self.results@.len(),
            column < self.variables@.len(),
        ensures
            res == row_value(self.variables@.len(), row as nat, column as int),
    {
        proof {
            lemma2_to64();
            if self.variables@.len() < 26 {
                lemma_pow2_strictly_increases(self.variables@.len(), 26);
            }
        }
        let count: usize = self.variables.len();
        digit(row as u32, (count - 1 - column) as u32)
    }

    /// Writes the table as text: a header that names the variables in
    /// ascending order and the result column, then one line for each row.
    pub fn render(&self) -> (out: String)
        requires
            self.well_formed(),
        ensures
            out@ == table_text(self.variables@, self.results@),
    {
        let count: usize = self.variables.len();
        let mut out = String::new();
        let mut p: usize = 0;
        while p < count
            invariant
                p <= count,
                count == self.variables@.len(),
                out@ == name_cells(self.variables@.take(p as int)),
            decreases count - p,
        {
            push_cell(&mut out, self.variables[p]);
            proof {
                let next = self.variables@.take(p + 1);
                assert(next.drop_last() == self.variables@.take(p as int));
            }
            p += 1;
        }
        proof {
            assert(self.variables@.take(count as int) == self.variables@);
        }
        push_cell(&mut out, '=');
        push_line_end(&mut out);
        proof {
            assert(out@ == header_text(self.variables@)) by {
                assert(cell_text('=') + seq!['|', '\n'] == seq!['|', ' ', '=', ' ', '|', '\n']);
                assert(out@ == (name_cells(self.variables@) + cell_text('=')) + seq!['|', '\n']);
                assert((name_cells(self.variables@) + cell_text('=')) + seq!['|', '\n']
                    == name_cells(self.variables@) + (cell_text('=') + seq!['|', '\n']));
            }
        }
        let total: usize = self.results.len();
        let mut row: usize = 0;
        while row < total
            invariant
                row <= total,
                total == self.results@.len(),
                count == self.variables@.len(),
                self.well_formed(),
                out@ == header_text(self.variables@) + rows_text(
                    count as nat,
                    self.results@,
                    row as nat,
                ),
            decreases total - row,
        {
            let ghost start = out@;
            let mut p: usize = 0;
            while p < count
                invariant
                    p <= count,
                    count == self.variables@.len(),
                    row < self.results@.len(),
                    self.well_formed(),
                    out@ == start + value_cells(count as nat, row as nat, p as nat),
                decreases count - p,
            {
                let value = self.value(row, p);
                push_cell(
                    &mut out,
                    if value {
                        '1'
                    } else {
                        '0'
                    },
                );
                proof {
                    let cells = value_cells(count as nat, row as nat, p as nat);
                    let cell = cell_text(literal_char(row_value(count as nat, row as nat, p as int)));
                    assert(out@ == (start + cells) + cell);
                    assert((start + cells) + cell == start + (cells + cell));
                }
                p += 1;
            }
            let result = self.results[row];
            push_cell(
                &mut out,
                if result {
                    '1'
                } else {
                    '0'
                },
            );
            push_line_end(&mut out);
            proof {
                let cells = value_cells(count as nat, row as nat, count as nat);
                let cell = cell_text(literal_char(result));
                let end = seq!['|', '\n'];
                let done = rows_text(count as nat, self.results@, row as nat);
                let head = header_text(self.variables@);
                assert(cell + end == seq!['|', ' ', literal_char(result), ' ', '|', '\n']);
                assert(out@ == ((start + cells) + cell) + end);
                assert(((start + cells) + cell) + end == start + (cells + (cell + end)));
                assert((head + done) + (cells + (cell + end)) == head + (done + (cells + (cell
                    + end))));
            }
            row += 1;
        }
        out
    }
}

} // verus!

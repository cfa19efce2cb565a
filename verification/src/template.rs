//! Splicing the generated statements into the template of the robot-control
//! program.

use crate::lines::{join_lines, joined, lines_of, split_lines};
use vstd::prelude::*;

verus! {

/// The line of the template before which the generated statements go,
/// counted from 0.
pub const INSERT_LINE: usize = 51;

/// Where the generated statements go in a template of `n` lines: before the
/// line `INSERT_LINE`, or behind the last line of a template that is shorter.
pub open spec fn insert_position(n: nat) -> nat {
    if n < INSERT_LINE {
        n
    } else {
        INSERT_LINE as nat
    }
}

/// The lines of the program: those of `template` with the statements
/// `generated`, joined into one block, put in at the insert position. No
/// line of the template is left out or changed.
pub open spec fn assembled_lines(generated: Seq<Seq<char>>, template: Seq<char>) -> Seq<
    Seq<char>,
> {
    let lines = lines_of(template);
    lines.insert(insert_position(lines.len()) as int, joined(generated))
}

/// The text of the program made of `template` and the statements
/// `generated`.
pub open spec fn assembled(generated: Seq<Seq<char>>, template: Seq<char>) -> Seq<char> {
    joined(assembled_lines(generated, template))
}

/// Puts the statements `generated` into `template` and gives the text of the
/// program.
pub fn assemble(generated: &[String], template: &str) -> (program: String)
    ensures
        program@ == assembled(generated.deep_view(), template@),
{
    let mut lines = split_lines(template);
    let at: usize = if lines.len() < INSERT_LINE {
        lines.len()
    } else {
        INSERT_LINE
    };
    let block = join_lines(generated);
    let ghost before = lines.deep_view();
    lines.insert(at, block);
    assert(lines.deep_view() =~~= before.insert(at as int, block@));
    join_lines(lines.as_slice())
}

/// The program has one line more than the template: the block of the
/// statements stands at the insert position, the template's lines before it
/// stand where they stood, and each line from there on stands one place
/// further down.
pub proof fn lemma_assembled_lines(generated: Seq<Seq<char>>, template: Seq<char>)
    ensures
        ({
            let before = lines_of(template);
            let after = assembled_lines(generated, template);
            let at = insert_position(before.len()) as int;
            &&& after.len() == before.len() + 1
            &&& after[at] == joined(generated)
            &&& forall|i: int| 0 <= i < at ==> #[trigger] after[i] == before[i]
            &&& forall|i: int| at <= i < before.len() ==> after[i + 1] == #[trigger] before[i]
        }),
{
}

/// With one statement the block is that statement: the program is the
/// template with the statement as one new line at the insert position.
pub proof fn lemma_assemble_one_statement(statement: Seq<char>, template: Seq<char>)
    ensures
        assembled_lines(seq![statement], template) == lines_of(template).insert(
            insert_position(lines_of(template).len()) as int,
            statement,
        ),
        assembled_lines(seq![statement], template).len() == lines_of(template).len() + 1,
{
    assert(joined(seq![statement]) == statement);
}

} // verus!

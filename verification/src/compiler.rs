//! Compiling a whole script: every line read, the statements written, the
//! program put together.

use crate::codegen::{generate, generate_java_from_tokens};
use crate::error::{Error, ErrorView};
use crate::lines::{lines_of, split_lines};
use crate::parser::{compile_line, parse_line, Token};
use crate::template::{assemble, assembled};
use vstd::prelude::*;

verus! {

/// The instructions that the lines `lines` stand for, in their order, or
/// the failure of the first line that stands for none.
pub open spec fn parse_lines(lines: Seq<Seq<char>>) -> Result<Seq<Token>, ErrorView>
    decreases lines.len(),
{
    if lines.len() == 0 {
        Ok(Seq::empty())
    } else {
        match parse_lines(lines.drop_last()) {
            Ok(tokens) => match parse_line(lines.last()) {
                Ok(token) => Ok(tokens.push(token)),
                Err(e) => Err(e),
            },
            Err(e) => Err(e),
        }
    }
}

/// The statements that the script `script` compiles to, or the failure of
/// its first line that is no instruction.
pub open spec fn compiled(script: Seq<char>) -> Result<Seq<Seq<char>>, ErrorView> {
    match parse_lines(lines_of(script)) {
        Ok(tokens) => Ok(generate(tokens)),
        Err(e) => Err(e),
    }
}

/// The program that the script `script` compiles to within `template`, or
/// the failure of its first line that is no instruction.
pub open spec fn compiled_program(script: Seq<char>, template: Seq<char>) -> Result<
    Seq<char>,
    ErrorView,
> {
    match compiled(script) {
        Ok(statements) => Ok(assembled(statements, template)),
        Err(e) => Err(e),
    }
}

/// Whether a result of compiling to statements stands for the result
/// `expected`.
pub open spec fn statements_result_is(
    r: Result<Vec<String>, Error>,
    expected: Result<Seq<Seq<char>>, ErrorView>,
) -> bool {
    match r {
        Ok(statements) => expected == Ok::<Seq<Seq<char>>, ErrorView>(statements.deep_view()),
        Err(e) => expected == Err::<Seq<Seq<char>>, ErrorView>(e@),
    }
}

/// Whether a result of compiling to a program stands for the result
/// `expected`.
pub open spec fn program_result_is(
    r: Result<String, Error>,
    expected: Result<Seq<char>, ErrorView>,
) -> bool {
    match r {
        Ok(program) => expected == Ok::<Seq<char>, ErrorView>(program@),
        Err(e) => expected == Err::<Seq<char>, ErrorView>(e@),
    }
}

/// Lines that are instructions up to a line that is none fail as that line
/// does, whatever follows it.
pub proof fn lemma_parse_lines_first_error(lines: Seq<Seq<char>>, i: int)
    requires
        0 <= i < lines.len(),
        parse_lines(lines.take(i)) is Ok,
        parse_line(lines[i]) is Err,
    ensures
        parse_lines(lines) == Err::<Seq<Token>, ErrorView>(parse_line(lines[i])->Err_0),
    decreases lines.len(),
{
    if i == lines.len() - 1 {
        assert(lines.drop_last() == lines.take(i));
    } else {
        let shorter = lines.drop_last();
        assert(shorter.take(i) == lines.take(i));
        lemma_parse_lines_first_error(shorter, i);
    }
}

/// Compiles a script to the statements of its instructions. Stops at the
/// first line that is no instruction.
pub fn compile_file(file: String) -> (r: Result<Vec<String>, Error>)
    ensures
        statements_result_is(r, compiled(file@)),
{
    let lines = split_lines(file.as_str());
    let mut tokens: Vec<Token> = Vec::new();
    let mut i: usize = 0;
    assert(lines.deep_view().take(0) =~= Seq::<Seq<char>>::empty());
    while i < lines.len()
        invariant
            i <= lines.len(),
            lines.deep_view() == lines_of(file@),
            parse_lines(lines.deep_view().take(i as int)) == Ok::<Seq<Token>, ErrorView>(tokens@),
        decreases lines.len() - i,
    {
        let ghost all = lines.deep_view();
        assert(all[i as int] == lines@[i as int]@);
        match compile_line(lines[i].as_str()) {
            Ok(token) => {
                assert(all.take(i + 1).drop_last() == all.take(i as int));
                tokens.push(token);
            },
            Err(e) => {
                proof {
                    lemma_parse_lines_first_error(all, i as int);
                }
                return Err(e);
            },
        }
        i += 1;
    }
    assert(lines.deep_view().take(i as int) == lines.deep_view());
    Ok(generate_java_from_tokens(tokens))
}

/// Compiles a script to the program that holds its statements within
/// `template`. Stops at the first line that is no instruction.
pub fn compile(script: String, template: &str) -> (r: Result<String, Error>)
    ensures
        program_result_is(r, compiled_program(script@, template@)),
{
    match compile_file(script) {
        Ok(statements) => Ok(assemble(statements.as_slice(), template)),
        Err(e) => Err(e),
    }
}

/// Lines compile to instructions where each of them is an instruction, and
/// only there; the instructions are then those of the lines, one for one.
pub proof fn lemma_parse_lines_ok(lines: Seq<Seq<char>>)
    ensures
        parse_lines(lines) is Ok <==> forall|i: int|
            0 <= i < lines.len() ==> parse_line(#[trigger] lines[i]) is Ok,
        parse_lines(lines) matches Ok(tokens) ==> tokens.len() == lines.len() && forall|i: int|
            0 <= i < lines.len() ==> parse_line(lines[i]) == Ok::<Token, ErrorView>(
                #[trigger] tokens[i],
            ),
    decreases lines.len(),
{
    if lines.len() > 0 {
        let shorter = lines.drop_last();
        lemma_parse_lines_ok(shorter);
        if parse_lines(lines) is Ok {
            assert forall|i: int| 0 <= i < lines.len() implies parse_line(
                #[trigger] lines[i],
            ) is Ok by {
                if i < lines.len() - 1 {
                    assert(lines[i] == shorter[i]);
                }
            }
        }
        if forall|i: int| 0 <= i < lines.len() ==> parse_line(#[trigger] lines[i]) is Ok {
            assert forall|i: int| 0 <= i < shorter.len() implies parse_line(
                #[trigger] shorter[i],
            ) is Ok by {
                assert(shorter[i] == lines[i]);
            }
            assert(parse_line(lines.last()) is Ok);
        }
    }
}

/// Compiling is a function of the script and the template alone: two runs on
/// the same script and template end in the same program, character for
/// character, or in the same failure.
pub proof fn lemma_compile_is_deterministic(
    script: Seq<char>,
    template: Seq<char>,
    first: Result<String, Error>,
    second: Result<String, Error>,
)
    requires
        program_result_is(first, compiled_program(script, template)),
        program_result_is(second, compiled_program(script, template)),
    ensures
        match (first, second) {
            (Ok(a), Ok(b)) => a@ == b@,
            (Err(a), Err(b)) => a@ == b@,
            _ => false,
        },
{
}

} // verus!

//! Writing the instructions of a script as statements of the robot-control
//! program.

use crate::number::{decimal, format_int};
use crate::parser::Token;
use vstd::prelude::*;
use vstd::string::StringExecFns;

verus! {

/// What every statement starts with, so that it stands at the depth of the
/// template's code.
pub const INDENT: &'static str = "        ";

/// The template's name for the speed of a straight drive.
pub const DRIVE_SPEED: &'static str = "DRIVE_SPEED";

/// The template's name for the speed of a turn.
pub const TURN_SPEED: &'static str = "TURN_SPEED";

/// The template's name for the distance between the two wheels.
pub const TRACK_WIDTH: &'static str = "TRACK_WIDTH";

/// The time after which a drive is given up, as the statements write it.
pub const TIMEOUT: &'static str = "5.0";

/// The statement that drives the left wheel by `left` and the right wheel by
/// `right` at the speed `speed`.
pub open spec fn encoder_drive(speed: Seq<char>, left: Seq<char>, right: Seq<char>) -> Seq<char> {
    INDENT@ + "encoderDrive("@ + speed + ", "@ + left + ", "@ + right + ", "@ + TIMEOUT@ + ");"@
}

/// The statement that pauses for `milliseconds`.
pub open spec fn sleep(milliseconds: Seq<char>) -> Seq<char> {
    INDENT@ + "sleep("@ + milliseconds + ");"@
}

/// The distance that a wheel travels in a turn by `angle` degrees: that part
/// of the circle whose diameter is the track width.
pub open spec fn turn_distance(angle: int) -> Seq<char> {
    "(Math.PI * "@ + TRACK_WIDTH@ + " * "@ + decimal(angle) + " / 180)"@
}

/// The expression `e` with the opposite sign.
pub open spec fn negated(e: Seq<char>) -> Seq<char> {
    "-"@ + e
}

/// The statement that carries out `token`; none for a comment.
pub open spec fn statement(token: Token) -> Option<Seq<char>> {
    match token {
        Token::Drive(distance) => Some(
            encoder_drive(DRIVE_SPEED@, decimal(distance as int), decimal(distance as int)),
        ),
        Token::Turn(angle) => Some(
            encoder_drive(
                TURN_SPEED@,
                turn_distance(angle as int),
                negated(turn_distance(angle as int)),
            ),
        ),
        Token::Delay(milliseconds) => Some(sleep(decimal(milliseconds as int))),
        Token::Comment => None,
    }
}

/// The statements of `tokens`: that of each token that has one, in the
/// order of the tokens.
pub open spec fn generate(tokens: Seq<Token>) -> Seq<Seq<char>> {
    tokens.filter_map(|token: Token| statement(token))
}

/// Writes the statement that drives the wheels by `left` and `right`.
fn write_encoder_drive(speed: &str, left: &str, right: &str) -> (line: String)
    ensures
        line@ == encoder_drive(speed@, left@, right@),
{
    let mut line = String::from_str(INDENT);
    line.append("encoderDrive(");
    line.append(speed);
    line.append(", ");
    line.append(left);
    line.append(", ");
    line.append(right);
    line.append(", ");
    line.append(TIMEOUT);
    line.append(");");
    line
}

/// Writes the distance that a wheel travels in a turn by `angle` degrees.
fn write_turn_distance(angle: i32) -> (e: String)
    ensures
        e@ == turn_distance(angle as int),
{
    let mut e = String::from_str("(Math.PI * ");
    e.append(TRACK_WIDTH);
    e.append(" * ");
    e.append(format_int(angle).as_str());
    e.append(" / 180)");
    e
}

/// Writes the statement that carries out `token`; none for a comment.
pub fn generate_statement(token: Token) -> (line: Option<String>)
    ensures
        match line {
            Some(text) => statement(token) == Some(text@),
            None => statement(token) is None,
        },
{
    match token {
        Token::Drive(distance) => {
            let target = format_int(distance);
            Some(write_encoder_drive(DRIVE_SPEED, target.as_str(), target.as_str()))
        },
        Token::Turn(angle) => {
            let left = write_turn_distance(angle);
            let right = String::from_str("-").concat(left.as_str());
            Some(write_encoder_drive(TURN_SPEED, left.as_str(), right.as_str()))
        },
        Token::Delay(milliseconds) => {
            let mut line = String::from_str(INDENT);
            line.append("sleep(");
            line.append(format_int(milliseconds).as_str());
            line.append(");");
            Some(line)
        },
        Token::Comment => None,
    }
}

/// Writes the statements of `tokens`, one for each token that is no comment,
/// in the order of the tokens.
pub fn generate_java_from_tokens(tokens: Vec<Token>) -> (lines: Vec<String>)
    ensures
        lines.deep_view() == generate(tokens@),
{
    let mut lines: Vec<String> = Vec::new();
    let mut i: usize = 0;
    assert(lines.deep_view() =~= generate(tokens@.take(0)));
    while i < tokens.len()
        invariant
            i <= tokens.len(),
            lines.deep_view() == generate(tokens@.take(i as int)),
        decreases tokens.len() - i,
    {
        let ghost before = lines.deep_view();
        proof {
            tokens@.lemma_filter_map_take_succ(|token: Token| statement(token), i as int);
        }
        match generate_statement(tokens[i]) {
            Some(line) => {
                lines.push(line);
                assert(lines.deep_view() =~~= before.push(line@));
            },
            None => {},
        }
        i += 1;
    }
    assert(tokens@.take(i as int) == tokens@);
    lines
}

/// The statements keep the order of the tokens: those of two scripts, one
/// after the other, are the statements of the first followed by those of the
/// second.
pub proof fn lemma_generate_concat(first: Seq<Token>, second: Seq<Token>)
    ensures
        generate(first + second) == generate(first) + generate(second),
    decreases second.len(),
{
    if second.len() == 0 {
        assert(first + second == first);
        assert(generate(first) + generate(second) == generate(first));
    } else {
        assert((first + second).drop_last() == first + second.drop_last());
        lemma_generate_concat(first, second.drop_last());
    }
}

/// A comment leaves no statement, wherever it stands among the tokens.
pub proof fn lemma_generate_skips_comment(before: Seq<Token>, after: Seq<Token>)
    ensures
        generate(before + seq![Token::Comment] + after) == generate(before + after),
{
    let comment = seq![Token::Comment];
    assert(generate(comment) == Seq::<Seq<char>>::empty()) by {
        Seq::lemma_filter_map_singleton(Token::Comment, |token: Token| statement(token));
    }
    lemma_generate_concat(before, comment);
    lemma_generate_concat(before + comment, after);
    lemma_generate_concat(before, after);
}

/// Tokens without a comment have one statement each: as many statements as
/// tokens, each the statement of the token at its place.
pub proof fn lemma_generate_one_to_one(tokens: Seq<Token>)
    requires
        forall|i: int| 0 <= i < tokens.len() ==> tokens[i] != Token::Comment,
    ensures
        generate(tokens).len() == tokens.len(),
        forall|i: int|
            0 <= i < tokens.len() ==> statement(tokens[i]) == Some(#[trigger] generate(tokens)[i]),
    decreases tokens.len(),
{
    if tokens.len() > 0 {
        lemma_generate_one_to_one(tokens.drop_last());
        assert(tokens.last() != Token::Comment);
    }
}

/// In the statement of a turn the right wheel's distance is the left
/// wheel's with the opposite sign.
pub proof fn lemma_turn_is_symmetric(angle: i32)
    ensures
        statement(Token::Turn(angle)) == Some(
            encoder_drive(
                TURN_SPEED@,
                turn_distance(angle as int),
                negated(turn_distance(angle as int)),
            ),
        ),
{
}

} // verus!

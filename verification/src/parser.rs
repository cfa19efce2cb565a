//! Reading one line of a script as one instruction.

use crate::error::{Error, ErrorView};
use crate::number::{
    decimal, is_digit, lemma_nat_decimal, lemma_parse_decimal, nat_decimal, parse_i32, parse_int,
};
use crate::text::{chars_of, is_whitespace, lemma_words_pair, split_whitespace, words};
use vstd::prelude::*;

verus! {

/// One instruction of a script.
#[derive(Debug, Clone, Copy, PartialEq, Eq, Structural)]
pub enum Token {
    /// Travel a distance; the sign gives the direction.
    Drive(i32),
    /// Rotate by an angle in degrees; the sign gives the direction.
    Turn(i32),
    /// Pause for a number of milliseconds.
    Delay(i32),
    /// A line that does nothing.
    Comment,
}

/// The keyword of the instruction to drive.
pub const DRIVE: &'static str = "DRIVE";

/// The keyword of the instruction to turn.
pub const TURN: &'static str = "TURN";

/// The keyword of the instruction to pause.
pub const DELAY: &'static str = "DELAY";

/// The marker of a comment.
pub const COMMENT: &'static str = "//";

/// Whether `word` is the keyword of a command: an instruction that takes one
/// integer.
pub open spec fn is_command(word: Seq<char>) -> bool {
    word == DRIVE@ || word == TURN@ || word == DELAY@
}

/// Whether `word` is a keyword of the script: that of a command, or the
/// comment marker.
pub open spec fn is_keyword(word: Seq<char>) -> bool {
    is_command(word) || word == COMMENT@
}

/// The command with the keyword `keyword` and the argument `n`.
pub open spec fn command(keyword: Seq<char>, n: i32) -> Token
    recommends
        is_command(keyword),
{
    if keyword == DRIVE@ {
        Token::Drive(n)
    } else if keyword == TURN@ {
        Token::Turn(n)
    } else {
        Token::Delay(n)
    }
}

/// The instruction that `line` stands for, or why it stands for none.
///
/// A line is a command, which is its keyword followed by one 32-bit integer
/// in decimal, or the comment marker alone; whitespace separates the words
/// and may stand around them. Any other line, a blank one too, is no
/// instruction.
pub open spec fn parse_line(line: Seq<char>) -> Result<Token, ErrorView> {
    let ws = words(line);
    if ws.len() == 2 && is_command(ws[0]) {
        match parse_i32(ws[1]) {
            Some(n) => Ok(command(ws[0], n)),
            None => Err(ErrorView::ArgumentParseError(line)),
        }
    } else if ws.len() == 1 && ws[0] == COMMENT@ {
        Ok(Token::Comment)
    } else {
        Err(ErrorView::UnknownCommandError(line))
    }
}

/// Whether a result of the compiler stands for the result `expected`.
pub open spec fn token_result_is(
    r: Result<Token, Error>,
    expected: Result<Token, ErrorView>,
) -> bool {
    match r {
        Ok(t) => expected == Ok::<Token, ErrorView>(t),
        Err(e) => expected == Err::<Token, ErrorView>(e@),
    }
}

/// Whether the characters of `word` are those of `text`.
fn same_text(word: &[char], text: &str) -> (same: bool)
    ensures
        same == (word@ == text@),
{
    let mut i: usize = 0;
    for c in it: text.chars()
        invariant
            it.seq() == text@,
            i == it.index(),
            i <= word.len(),
            word@.take(i as int) == text@.take(i as int),
    {
        if i >= word.len() || word[i] != c {
            assert(word@ != text@) by {
                if word@ == text@ {
                    assert(word@[i as int] == c);
                }
            }
            return false;
        }
        i += 1;
    }
    assert(text@.take(i as int) == text@);
    if i == word.len() {
        assert(word@.take(i as int) == word@);
        true
    } else {
        false
    }
}

/// Whether `word` is the keyword of a command.
fn is_command_word(word: &[char]) -> (b: bool)
    ensures
        b == is_command(word@),
{
    same_text(word, DRIVE) || same_text(word, TURN) || same_text(word, DELAY)
}

/// The command with the keyword `keyword` and the argument `n`.
fn make_command(keyword: &[char], n: i32) -> (token: Token)
    requires
        is_command(keyword@),
    ensures
        token == command(keyword@, n),
{
    if same_text(keyword, DRIVE) {
        Token::Drive(n)
    } else if same_text(keyword, TURN) {
        Token::Turn(n)
    } else {
        Token::Delay(n)
    }
}

/// Reads one line of a script as one instruction.
pub fn compile_line(line: &str) -> (r: Result<Token, Error>)
    ensures
        token_result_is(r, parse_line(line@)),
{
    let chars = chars_of(line);
    let ws = split_whitespace(chars.as_slice());
    assert(ws.deep_view().len() == ws.len());
    if ws.len() == 2 {
        assert(ws.deep_view()[0] =~= ws@[0]@);
        assert(ws.deep_view()[1] =~= ws@[1]@);
        if is_command_word(ws[0].as_slice()) {
            match parse_int(ws[1].as_slice()) {
                Some(n) => Ok(make_command(ws[0].as_slice(), n)),
                None => Err(Error::ArgumentParseError(line.to_owned())),
            }
        } else {
            Err(Error::UnknownCommandError(line.to_owned()))
        }
    } else if ws.len() == 1 {
        assert(ws.deep_view()[0] =~= ws@[0]@);
        if same_text(ws[0].as_slice(), COMMENT) {
            Ok(Token::Comment)
        } else {
            Err(Error::UnknownCommandError(line.to_owned()))
        }
    } else {
        Err(Error::UnknownCommandError(line.to_owned()))
    }
}

/// Each keyword of a command makes its own instruction.
pub proof fn lemma_command_of_keyword(n: i32)
    ensures
        command(DRIVE@, n) == Token::Drive(n),
        command(TURN@, n) == Token::Turn(n),
        command(DELAY@, n) == Token::Delay(n),
{
    reveal_strlit("DRIVE");
    reveal_strlit("TURN");
    reveal_strlit("DELAY");
    assert(DRIVE@.len() != TURN@.len());
    assert(DELAY@[1] != DRIVE@[1]);
    assert(DELAY@.len() != TURN@.len());
}

/// A line whose words are the keyword `DRIVE` and an integer in decimal is
/// the instruction to drive by that integer, and no failure.
pub proof fn lemma_drive_line(line: Seq<char>, argument: Seq<char>, n: i32)
    requires
        words(line) == seq![DRIVE@, argument],
        parse_i32(argument) == Some(n),
    ensures
        parse_line(line) == Ok::<Token, ErrorView>(Token::Drive(n)),
{
}

/// The keyword `DRIVE`, a blank and an integer as it is written in decimal
/// are the instruction to drive by that integer, for every 32-bit integer.
pub proof fn lemma_drive_decimal_line(n: i32)
    ensures
        parse_line(DRIVE@ + seq![' '] + decimal(n as int)) == Ok::<Token, ErrorView>(
            Token::Drive(n),
        ),
{
    let argument = decimal(n as int);
    reveal_strlit("DRIVE");
    assert forall|i: int| 0 <= i < argument.len() implies !is_whitespace(
        #[trigger] argument[i],
    ) by {
        if n < 0 {
            lemma_nat_decimal((-n) as nat);
            if i > 0 {
                assert(is_digit(nat_decimal((-n) as nat)[i - 1]));
            }
        } else {
            lemma_nat_decimal(n as nat);
            assert(is_digit(argument[i]));
        }
    }
    assert(argument.len() > 0) by {
        if n < 0 {
            lemma_nat_decimal((-n) as nat);
        } else {
            lemma_nat_decimal(n as nat);
        }
    }
    lemma_words_pair(DRIVE@, argument);
    lemma_parse_decimal(n);
    lemma_drive_line(DRIVE@ + seq![' '] + argument, argument, n);
}

/// A line whose first word is no keyword is no command, and neither is a
/// line without words: it fails as an unknown command that carries the
/// line as it was given.
pub proof fn lemma_unknown_command(line: Seq<char>)
    requires
        words(line).len() > 0 ==> !is_keyword(words(line)[0]),
    ensures
        parse_line(line) == Err::<Token, ErrorView>(ErrorView::UnknownCommandError(line)),
{
}

/// A line whose words are the keyword `DRIVE` and a word that is no 32-bit
/// integer in decimal fails on its argument, and carries the line as it was
/// given.
pub proof fn lemma_drive_argument_refused(line: Seq<char>, argument: Seq<char>)
    requires
        words(line) == seq![DRIVE@, argument],
        parse_i32(argument) is None,
    ensures
        parse_line(line) == Err::<Token, ErrorView>(ErrorView::ArgumentParseError(line)),
{
}

} // verus!

//! The line parser: one line of source text becomes one instruction, nothing,
//! or a parse error. A line is read by itself; no line depends on another.

use vstd::prelude::*;
use vstd::string::StrSliceExecFns;
use crate::mnemonic::{Computation, Destination, Jump};
use crate::text::{
    chars_of, comment_start, decimal_u16, find_comment, is_blank, join, lemma_comment_after_code,
    lemma_split_first_field, lemma_split_join, lemma_split_one_field,
    lemma_trim_blank, parse_u16, split, split_fields, trim, trim_bounds,
};

verus! {

/// One instruction of a program, as a mathematical value.
pub enum Instruction {
    /// The declaration of a label. It takes no place in the program: the
    /// label names the address of the instruction that follows it.
    Label(Seq<char>),
    /// Load a number into `A`.
    AImmediate(u16),
    /// Load into `A` the address that a symbol stands for.
    ALocation(Seq<char>),
    /// Compute, store the result, and jump on a condition.
    C(Computation, Destination, Jump),
}

/// One instruction of a program.
#[derive(Debug, PartialEq, Eq)]
pub enum HackLine {
    /// The declaration of a label.
    Label(String),
    /// Load a number into `A`.
    AImmediate(u16),
    /// Load into `A` the address that a symbol stands for.
    ALocation(String),
    /// Compute, store the result, and jump on a condition.
    C(Computation, Destination, Jump),
}

impl View for HackLine {
    type V = Instruction;

    open spec fn view(&self) -> Instruction {
        match self {
            HackLine::Label(name) => Instruction::Label(name@),
            HackLine::AImmediate(value) => Instruction::AImmediate(*value),
            HackLine::ALocation(name) => Instruction::ALocation(name@),
            HackLine::C(computation, destination, jump) => Instruction::C(
                *computation,
                *destination,
                *jump,
            ),
        }
    }
}

impl Clone for HackLine {
    fn clone(&self) -> (copy: HackLine)
        ensures
            copy@ == self@,
    {
        match self {
            HackLine::Label(name) => HackLine::Label(name.clone()),
            HackLine::AImmediate(value) => HackLine::AImmediate(*value),
            HackLine::ALocation(name) => HackLine::ALocation(name.clone()),
            HackLine::C(computation, destination, jump) => HackLine::C(
                *computation,
                *destination,
                *jump,
            ),
        }
    }
}

/// What is wrong with a line that is no instruction.
#[derive(Debug, Clone, Copy, PartialEq, Eq, Structural)]
pub enum Fault {
    /// The line has more than one `=`.
    MultipleEquals,
    /// The line has more than one `;`.
    MultipleSemicolons,
    /// The text before the `=` names no destination.
    InvalidDestination,
    /// The text between `=` and `;` names no computation.
    InvalidComputation,
    /// The text after the `;` names no jump.
    InvalidJump,
}

/// Why a line is no instruction, as a mathematical value.
pub struct ParseFailure {
    /// What is wrong.
    pub fault: Fault,
    /// The text at fault: the mnemonic that names nothing, or the sign of
    /// which there are too many.
    pub token: Seq<char>,
    /// The line, as it stands in the source.
    pub line: Seq<char>,
}

/// Why a line is no instruction: the fault, the text at fault, and the line
/// as it stands in the source.
#[derive(Debug, PartialEq, Eq)]
pub struct ParseError {
    /// What is wrong.
    pub fault: Fault,
    /// The text at fault: the mnemonic that names nothing, or the sign of
    /// which there are too many.
    pub token: String,
    /// The line, as it stands in the source.
    pub line: String,
}

impl View for ParseError {
    type V = ParseFailure;

    open spec fn view(&self) -> ParseFailure {
        ParseFailure { fault: self.fault, token: self.token@, line: self.line@ }
    }
}

impl Clone for ParseError {
    fn clone(&self) -> (copy: ParseError)
        ensures
            copy@ == self@,
    {
        ParseError { fault: self.fault, token: self.token.clone(), line: self.line.clone() }
    }
}

/// What a line states: its text up to the comment, without the white space
/// around it.
pub open spec fn statement(line: Seq<char>) -> Seq<char> {
    trim(line.take(comment_start(line)))
}

/// The compute instruction that `text` writes as `destination=computation;jump`,
/// where the destination with its `=` and the jump with its `;` may each be
/// left out; or what is wrong with it, and the text at fault. The `=` signs
/// are looked at first, then the `;` signs, and the computation last: the
/// first fault found in that order is the one reported.
pub open spec fn parse_compute(text: Seq<char>) -> Result<Instruction, (Fault, Seq<char>)> {
    let by_equals = split(text, '=');
    let by_semicolon = split(by_equals.last(), ';');
    if by_equals.len() > 2 {
        Err((Fault::MultipleEquals, seq!['=']))
    } else if by_equals.len() == 2 && Destination::of_mnemonic(by_equals[0]) is None {
        Err((Fault::InvalidDestination, by_equals[0]))
    } else if by_semicolon.len() > 2 {
        Err((Fault::MultipleSemicolons, seq![';']))
    } else if by_semicolon.len() == 2 && Jump::of_mnemonic(by_semicolon[1]) is None {
        Err((Fault::InvalidJump, by_semicolon[1]))
    } else if Computation::of_mnemonic(by_semicolon[0]) is None {
        Err((Fault::InvalidComputation, by_semicolon[0]))
    } else {
        Ok(
            Instruction::C(
                Computation::of_mnemonic(by_semicolon[0])->0,
                if by_equals.len() == 2 {
                    Destination::of_mnemonic(by_equals[0])->0
                } else {
                    Destination::Null
                },
                if by_semicolon.len() == 2 {
                    Jump::of_mnemonic(by_semicolon[1])->0
                } else {
                    Jump::Null
                },
            ),
        )
    }
}

/// The address instruction with the operand `operand`: a numeral of sixteen
/// bits is a number, anything else is a symbol.
pub open spec fn parse_address(operand: Seq<char>) -> Instruction {
    match decimal_u16(operand) {
        Some(value) => Instruction::AImmediate(value),
        None => Instruction::ALocation(operand),
    }
}

/// What a non-empty statement is: a label between parentheses, an address
/// instruction after `@`, or else a compute instruction.
pub open spec fn parse_statement(text: Seq<char>) -> Result<Instruction, (Fault, Seq<char>)>
    recommends
        text.len() > 0,
{
    if text.first() == '(' && text.last() == ')' {
        Ok(Instruction::Label(text.subrange(1, text.len() - 1)))
    } else if text.first() == '@' {
        Ok(parse_address(text.drop_first()))
    } else {
        parse_compute(text)
    }
}

/// What a line of source text is: `Ok(None)` where it states nothing (it is
/// blank, or a comment only), `Ok(Some(..))` with the instruction it states,
/// or the reason why it states none.
pub open spec fn parse_line(line: Seq<char>) -> Result<Option<Instruction>, ParseFailure> {
    let text = statement(line);
    if text.len() == 0 {
        Ok(None)
    } else {
        match parse_statement(text) {
            Ok(instruction) => Ok(Some(instruction)),
            Err((fault, token)) => Err(ParseFailure { fault, token, line }),
        }
    }
}

impl HackLine {
    /// Reads a compute instruction.
    fn compute_from_str(text: &str) -> (read: Result<HackLine, (Fault, String)>)
        ensures
            match (read, parse_compute(text@)) {
                (Ok(line), Ok(instruction)) => line@ == instruction,
                (Err((fault, token)), Err(failure)) => (fault, token@) == failure,
                _ => false,
            },
    {
        proof {
            reveal_strlit("=");
            reveal_strlit(";");
            assert("="@ =~= seq!['=']);
            assert(";"@ =~= seq![';']);
        }
        let by_equals = split_fields(text, '=');
        let ghost fields = split(text@, '=');
        if by_equals.len() > 2 {
            return Err((Fault::MultipleEquals, "=".to_owned()));
        }
        proof {
            lemma_split_join(text@, '=');
        }
        let mut destination = Destination::Null;
        if by_equals.len() == 2 {
            match Destination::from_str(by_equals[0]) {
                Some(found) => {
                    destination = found;
                },
                None => {
                    return Err((Fault::InvalidDestination, by_equals[0].to_owned()));
                },
            }
        }
        let rest: &str = by_equals[by_equals.len() - 1];
        assert(rest@ == fields.last());
        let by_semicolon = split_fields(rest, ';');
        if by_semicolon.len() > 2 {
            return Err((Fault::MultipleSemicolons, ";".to_owned()));
        }
        proof {
            lemma_split_join(rest@, ';');
        }
        let mut jump = Jump::Null;
        if by_semicolon.len() == 2 {
            match Jump::from_str(by_semicolon[1]) {
                Some(found) => {
                    jump = found;
                },
                None => {
                    return Err((Fault::InvalidJump, by_semicolon[1].to_owned()));
                },
            }
        }
        match Computation::from_str(by_semicolon[0]) {
            Some(computation) => Ok(HackLine::C(computation, destination, jump)),
            None => Err((Fault::InvalidComputation, by_semicolon[0].to_owned())),
        }
    }

    /// Reads one line of source text: `Ok(None)` where the line states
    /// nothing, `Ok(Some(..))` with the instruction that it states, or the
    /// reason why it states none.
    pub fn from_str(s: &str) -> (read: Result<Option<HackLine>, ParseError>)
        ensures
            match (read, parse_line(s@)) {
                (Ok(None), Ok(None)) => true,
                (Ok(Some(line)), Ok(Some(instruction))) => line@ == instruction,
                (Err(error), Err(failure)) => error@ == failure,
                _ => false,
            },
    {
        let chars = chars_of(s);
        let end = find_comment(&chars);
        let (lo, hi) = trim_bounds(&chars, end);
        assert(chars@.subrange(lo as int, hi as int) == statement(s@));
        if lo == hi {
            return Ok(None);
        }
        let text: &str = s.substring_char(lo, hi);
        let first: char = chars[lo];
        let last: char = chars[hi - 1];
        if first == '(' && last == ')' {
            let name: &str = s.substring_char(lo + 1, hi - 1);
            assert(name@ =~= text@.subrange(1, text@.len() - 1));
            Ok(Some(HackLine::Label(name.to_owned())))
        } else if first == '@' {
            let operand: &str = s.substring_char(lo + 1, hi);
            assert(operand@ =~= text@.drop_first());
            match parse_u16(&chars, lo + 1, hi) {
                Some(value) => Ok(Some(HackLine::AImmediate(value))),
                None => Ok(Some(HackLine::ALocation(operand.to_owned()))),
            }
        } else {
            match HackLine::compute_from_str(text) {
                Ok(line) => Ok(Some(line)),
                Err((fault, token)) => Err(ParseError { fault, token, line: s.to_owned() }),
            }
        }
    }
}

/// Whether a text can be a field of a compute line: it holds neither `=`
/// nor `;`.
pub open spec fn is_field(text: Seq<char>) -> bool {
    !text.contains('=') && !text.contains(';')
}

/// The compute line with these fields: the destination with `=` behind it,
/// where there is one, the computation, and the jump with `;` before it,
/// where there is one.
pub open spec fn written(
    destination: Option<Seq<char>>,
    computation: Seq<char>,
    jump: Option<Seq<char>>,
) -> Seq<char> {
    (match destination {
        Some(text) => text + seq!['='],
        None => Seq::empty(),
    }) + computation + (match jump {
        Some(text) => seq![';'] + text,
        None => Seq::empty(),
    })
}

/// The compute instruction with these fields, or the first field that is no
/// mnemonic: the destination is looked at first, then the jump, then the
/// computation. A field that is left out is the empty destination, or the
/// jump that never happens.
pub open spec fn read_fields(
    destination: Option<Seq<char>>,
    computation: Seq<char>,
    jump: Option<Seq<char>>,
) -> Result<Instruction, (Fault, Seq<char>)> {
    if destination is Some && Destination::of_mnemonic(destination->0) is None {
        Err((Fault::InvalidDestination, destination->0))
    } else if jump is Some && Jump::of_mnemonic(jump->0) is None {
        Err((Fault::InvalidJump, jump->0))
    } else if Computation::of_mnemonic(computation) is None {
        Err((Fault::InvalidComputation, computation))
    } else {
        Ok(
            Instruction::C(
                Computation::of_mnemonic(computation)->0,
                match destination {
                    Some(text) => Destination::of_mnemonic(text)->0,
                    None => Destination::Null,
                },
                match jump {
                    Some(text) => Jump::of_mnemonic(text)->0,
                    None => Jump::Null,
                },
            ),
        )
    }
}

/// Every mnemonic can be a field: none holds `=` or `;`.
pub proof fn lemma_mnemonics_are_fields(text: Seq<char>)
    ensures
        Destination::of_mnemonic(text) is Some ==> is_field(text),
        Computation::of_mnemonic(text) is Some ==> is_field(text),
        Jump::of_mnemonic(text) is Some ==> is_field(text),
{
    reveal_strlit("0");
    reveal_strlit("1");
    reveal_strlit("-1");
    reveal_strlit("D");
    reveal_strlit("A");
    reveal_strlit("M");
    reveal_strlit("!D");
    reveal_strlit("!A");
    reveal_strlit("!M");
    reveal_strlit("-D");
    reveal_strlit("-A");
    reveal_strlit("-M");
    reveal_strlit("D+1");
    reveal_strlit("A+1");
    reveal_strlit("M+1");
    reveal_strlit("D-1");
    reveal_strlit("A-1");
    reveal_strlit("M-1");
    reveal_strlit("D+A");
    reveal_strlit("D+M");
    reveal_strlit("D-A");
    reveal_strlit("D-M");
    reveal_strlit("A-D");
    reveal_strlit("M-D");
    reveal_strlit("D&A");
    reveal_strlit("D&M");
    reveal_strlit("D|A");
    reveal_strlit("D|M");
    reveal_strlit("MD");
    reveal_strlit("AM");
    reveal_strlit("AD");
    reveal_strlit("AMD");
    reveal_strlit("JGT");
    reveal_strlit("JEQ");
    reveal_strlit("JGE");
    reveal_strlit("JLT");
    reveal_strlit("JNE");
    reveal_strlit("JLE");
    reveal_strlit("JMP");
    assert("0"@ =~= seq!['0']);
    assert("1"@ =~= seq!['1']);
    assert("-1"@ =~= seq!['-', '1']);
    assert("D"@ =~= seq!['D']);
    assert("A"@ =~= seq!['A']);
    assert("M"@ =~= seq!['M']);
    assert("!D"@ =~= seq!['!', 'D']);
    assert("!A"@ =~= seq!['!', 'A']);
    assert("!M"@ =~= seq!['!', 'M']);
    assert("-D"@ =~= seq!['-', 'D']);
    assert("-A"@ =~= seq!['-', 'A']);
    assert("-M"@ =~= seq!['-', 'M']);
    assert("D+1"@ =~= seq!['D', '+', '1']);
    assert("A+1"@ =~= seq!['A', '+', '1']);
    assert("M+1"@ =~= seq!['M', '+', '1']);
    assert("D-1"@ =~= seq!['D', '-', '1']);
    assert("A-1"@ =~= seq!['A', '-', '1']);
    assert("M-1"@ =~= seq!['M', '-', '1']);
    assert("D+A"@ =~= seq!['D', '+', 'A']);
    assert("D+M"@ =~= seq!['D', '+', 'M']);
    assert("D-A"@ =~= seq!['D', '-', 'A']);
    assert("D-M"@ =~= seq!['D', '-', 'M']);
    assert("A-D"@ =~= seq!['A', '-', 'D']);
    assert("M-D"@ =~= seq!['M', '-', 'D']);
    assert("D&A"@ =~= seq!['D', '&', 'A']);
    assert("D&M"@ =~= seq!['D', '&', 'M']);
    assert("D|A"@ =~= seq!['D', '|', 'A']);
    assert("D|M"@ =~= seq!['D', '|', 'M']);
    assert("MD"@ =~= seq!['M', 'D']);
    assert("AM"@ =~= seq!['A', 'M']);
    assert("AD"@ =~= seq!['A', 'D']);
    assert("AMD"@ =~= seq!['A', 'M', 'D']);
    assert("JGT"@ =~= seq!['J', 'G', 'T']);
    assert("JEQ"@ =~= seq!['J', 'E', 'Q']);
    assert("JGE"@ =~= seq!['J', 'G', 'E']);
    assert("JLT"@ =~= seq!['J', 'L', 'T']);
    assert("JNE"@ =~= seq!['J', 'N', 'E']);
    assert("JLE"@ =~= seq!['J', 'L', 'E']);
    assert("JMP"@ =~= seq!['J', 'M', 'P']);
}

/// A compute line that is written with its fields is read by its fields:
/// the line is an instruction exactly where the destination is one of the
/// seven destination mnemonics or left out, the computation one of the
/// computation mnemonics, and the jump one of the seven jump mnemonics or
/// left out; and it is then the instruction with these fields.
pub proof fn lemma_compute_written(
    destination: Option<Seq<char>>,
    computation: Seq<char>,
    jump: Option<Seq<char>>,
)
    requires
        destination matches Some(text) ==> is_field(text),
        is_field(computation),
        jump matches Some(text) ==> is_field(text),
    ensures
        parse_compute(written(destination, computation, jump)) == read_fields(
            destination,
            computation,
            jump,
        ),
{
    let text = written(destination, computation, jump);
    let rest = computation + (match jump {
        Some(text) => seq![';'] + text,
        None => Seq::empty(),
    });
    assert forall|i: int| 0 <= i < rest.len() implies rest[i] != '=' by {
        if i < computation.len() {
            assert(rest[i] == computation[i]);
        } else if i > computation.len() {
            assert(rest[i] == jump->0[i - computation.len() - 1]);
        }
    }
    lemma_split_one_field(rest, '=');
    match destination {
        Some(first) => {
            assert(text =~= first + seq!['='] + rest);
            lemma_split_first_field(first, '=', rest);
            assert(split(text, '=') =~= seq![first, rest]);
        },
        None => {
            assert(text =~= rest);
        },
    }
    assert(split(text, '=').last() == rest);
    match jump {
        Some(last) => {
            assert(rest =~= computation + seq![';'] + last);
            lemma_split_first_field(computation, ';', last);
            lemma_split_one_field(last, ';');
            assert(split(rest, ';') =~= seq![computation, last]);
        },
        None => {
            assert(rest =~= computation);
            lemma_split_one_field(computation, ';');
        },
    }
}

/// A text that is read as a compute instruction is written with its fields:
/// it is a destination mnemonic and `=`, or neither, then a computation
/// mnemonic, then `;` and a jump mnemonic, or neither.
pub proof fn lemma_compute_read(text: Seq<char>)
    requires
        parse_compute(text) is Ok,
    ensures
        ({
            let by_equals = split(text, '=');
            let by_semicolon = split(by_equals.last(), ';');
            let destination = if by_equals.len() == 2 {
                Some(by_equals[0])
            } else {
                None
            };
            let jump = if by_semicolon.len() == 2 {
                Some(by_semicolon[1])
            } else {
                None
            };
            &&& text == written(destination, by_semicolon[0], jump)
            &&& parse_compute(text) == read_fields(destination, by_semicolon[0], jump)
        }),
{
    let by_equals = split(text, '=');
    let rest = by_equals.last();
    let by_semicolon = split(rest, ';');
    lemma_split_join(text, '=');
    lemma_split_join(rest, ';');
    reveal_with_fuel(join, 3);
    if by_equals.len() == 2 {
        assert(by_equals.drop_first().len() == 1);
        assert(by_equals.drop_first()[0] == rest);
    }
    if by_semicolon.len() == 2 {
        assert(by_semicolon.drop_first().len() == 1);
        assert(by_semicolon.drop_first()[0] == by_semicolon[1]);
    }
    let destination = if by_equals.len() == 2 {
        Some(by_equals[0])
    } else {
        None
    };
    let jump = if by_semicolon.len() == 2 {
        Some(by_semicolon[1])
    } else {
        None
    };
    assert(text =~= written(destination, by_semicolon[0], jump));
}

/// Whether a line states nothing: it is read without fault, and as no
/// instruction.
pub open spec fn states_nothing(line: Seq<char>) -> bool {
    parse_line(line) matches Ok(None)
}

/// A line states nothing exactly where what stands before its comment is
/// blank: an empty line, a line of white space, and a line that holds a
/// comment only state nothing, and no other line does.
pub proof fn lemma_states_nothing(line: Seq<char>)
    ensures
        states_nothing(line) <==> is_blank(line.take(comment_start(line))),
{
    lemma_trim_blank(line.take(comment_start(line)));
}

/// A comment behind the code of a line changes nothing: the line is read as
/// the code alone is, but that a fault holds the line as it stands. The code
/// is any text without a comment mark that does not end in a slash.
pub proof fn lemma_trailing_comment(code: Seq<char>, comment: Seq<char>)
    requires
        comment_start(code) == code.len(),
        code.len() == 0 || code.last() != '/',
    ensures
        statement(code + seq!['/', '/'] + comment) == statement(code),
        match (parse_line(code + seq!['/', '/'] + comment), parse_line(code)) {
            (Ok(with), Ok(without)) => with == without,
            (Err(with), Err(without)) => with.fault == without.fault && with.token
                == without.token,
            _ => false,
        },
{
    let line = code + seq!['/', '/'] + comment;
    lemma_comment_after_code(code, comment);
    assert(line.take(code.len() as int) =~= code);
    assert(code.take(code.len() as int) =~= code);
}

} // verus!

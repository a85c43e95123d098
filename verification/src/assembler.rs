//! The driver of the two passes.
//!
//! The source is read whole before anything is written. The first pass gives
//! each label its address; the second walks the instructions in order, gives
//! each new variable the next free address, and writes one line of sixteen
//! binary digits for each instruction. A run gives all of its output or none.

use vstd::prelude::*;
use crate::encoder::{
    is_binary_line, lemma_address_line, lemma_compute_line, outcome, variables_through, Outcome,
    MAX_ADDRESS,
};
use crate::line::{parse_line, HackLine, Instruction, ParseError, ParseFailure};
use crate::symbols::{
    code_len, instructions, label_table, lemma_position, texts, SymbolTable,
};

verus! {

/// Why a source is no program, as a mathematical value. Lines are counted
/// from zero.
pub enum AssembleFailure {
    /// The line with this number is no instruction.
    Parse { line: nat, failure: ParseFailure },
    /// The instruction on the line with this number, which reads `text`,
    /// loads `address`, which is beyond `MAX_ADDRESS`.
    Address { line: nat, text: Seq<char>, address: nat },
}

/// Why a source is no program. Lines are counted from zero.
#[derive(Debug, PartialEq, Eq)]
pub enum AssembleError {
    /// The line with this number is no instruction.
    Parse { line: usize, error: ParseError },
    /// The instruction on the line with this number, which reads `text`,
    /// loads `address`, which is beyond `MAX_ADDRESS`.
    Address { line: usize, text: String, address: usize },
}

impl View for AssembleError {
    type V = AssembleFailure;

    open spec fn view(&self) -> AssembleFailure {
        match self {
            AssembleError::Parse { line, error } => AssembleFailure::Parse {
                line: *line as nat,
                failure: error@,
            },
            AssembleError::Address { line, text, address } => AssembleFailure::Address {
                line: *line as nat,
                text: text@,
                address: *address as nat,
            },
        }
    }
}

impl Clone for AssembleError {
    fn clone(&self) -> (copy: AssembleError)
        ensures
            copy@ == self@,
    {
        match self {
            AssembleError::Parse { line, error } => AssembleError::Parse {
                line: *line,
                error: error.clone(),
            },
            AssembleError::Address { line, text, address } => AssembleError::Address {
                line: *line,
                text: text.clone(),
                address: *address,
            },
        }
    }
}

/// The instructions of a source, each with the number of the line that
/// states it; or the first line, from the top, that is no instruction. Lines
/// that state nothing are passed over.
pub open spec fn parse_source(lines: Seq<Seq<char>>) -> Result<
    (Seq<Instruction>, Seq<nat>),
    AssembleFailure,
>
    decreases lines.len(),
{
    if lines.len() == 0 {
        Ok((Seq::empty(), Seq::empty()))
    } else {
        match parse_source(lines.drop_last()) {
            Err(failure) => Err(failure),
            Ok((program, origins)) => match parse_line(lines.last()) {
                Err(failure) => Err(
                    AssembleFailure::Parse { line: (lines.len() - 1) as nat, failure },
                ),
                Ok(None) => Ok((program, origins)),
                Ok(Some(instruction)) => Ok(
                    (program.push(instruction), origins.push((lines.len() - 1) as nat)),
                ),
            },
        }
    }
}

/// The variables that the second pass has allocated when it has walked
/// through `program`, in the order of their addresses. The pass starts
/// without any.
pub open spec fn allocated(program: Seq<Instruction>, labels: Map<Seq<char>, nat>) -> Seq<
    Seq<char>,
> {
    variables_through(Seq::empty(), program, labels)
}

/// The output of the second pass on `program`: the lines of its
/// instructions, in order; or the position in `program` of the first
/// instruction that loads an address beyond `MAX_ADDRESS`, with that address.
pub open spec fn translate(program: Seq<Instruction>, labels: Map<Seq<char>, nat>) -> Result<
    Seq<Seq<char>>,
    (nat, nat),
>
    decreases program.len(),
{
    if program.len() == 0 {
        Ok(Seq::empty())
    } else {
        match translate(program.drop_last(), labels) {
            Err(rejected) => Err(rejected),
            Ok(lines) => match outcome(
                program.last(),
                labels,
                allocated(program.drop_last(), labels),
            ) {
                Outcome::Nothing => Ok(lines),
                Outcome::Line(text) => Ok(lines.push(text)),
                Outcome::OutOfRange(address) => Err(((program.len() - 1) as nat, address)),
            },
        }
    }
}

/// What a source assembles to: its binary lines, or the first fault. A line
/// that is no instruction counts before any address out of range.
pub open spec fn assemble_source(lines: Seq<Seq<char>>) -> Result<Seq<Seq<char>>, AssembleFailure> {
    match parse_source(lines) {
        Err(failure) => Err(failure),
        Ok((program, origins)) => match translate(program, label_table(program)) {
            Ok(output) => Ok(output),
            Err((index, address)) => Err(
                AssembleFailure::Address {
                    line: origins[index as int],
                    text: lines[origins[index as int] as int],
                    address,
                },
            ),
        },
    }
}

/// The numbers of lines, as mathematical values.
pub open spec fn line_numbers(origins: Seq<usize>) -> Seq<nat> {
    origins.map_values(|line: usize| line as nat)
}

/// Reads a source line by line. Gives the instructions, and for each the
/// number of the line that states it; or tells the first line that is no
/// instruction.
pub fn parse_lines(input: &Vec<String>) -> (read: Result<
    (Vec<HackLine>, Vec<usize>),
    AssembleError,
>)
    ensures
        match (read, parse_source(texts(input@))) {
            (Ok((lines, origins)), Ok((program, numbers))) => instructions(lines@) == program
                && line_numbers(origins@) == numbers,
            (Err(error), Err(failure)) => error@ == failure,
            _ => false,
        },
{
    let ghost source = texts(input@);
    let mut lines: Vec<HackLine> = Vec::new();
    let mut origins: Vec<usize> = Vec::new();
    let mut i: usize = 0;
    assert(source.take(0) =~= Seq::<Seq<char>>::empty());
    assert(instructions(lines@) =~= Seq::<Instruction>::empty());
    assert(line_numbers(origins@) =~= Seq::<nat>::empty());
    while i < input.len()
        invariant
            i <= input.len(),
            source == texts(input@),
            parse_source(source.take(i as int)) matches Ok((program, numbers)) && program
                == instructions(lines@) && numbers == line_numbers(origins@),
        decreases input.len() - i,
    {
        assert(source.take(i + 1).drop_last() =~= source.take(i as int));
        assert(source.take(i + 1).last() == input@[i as int]@);
        let ghost program = instructions(lines@);
        let ghost numbers = line_numbers(origins@);
        match HackLine::from_str(input[i].as_str()) {
            Ok(None) => {},
            Ok(Some(line)) => {
                lines.push(line);
                origins.push(i);
                assert(instructions(lines@) =~= program.push(line@));
                assert(line_numbers(origins@) =~= numbers.push(i as nat));
            },
            Err(error) => {
                proof {
                    lemma_parse_source_fails(source, i + 1);
                }
                return Err(AssembleError::Parse { line: i, error });
            },
        }
        i += 1;
    }
    assert(source.take(i as int) =~= source);
    Ok((lines, origins))
}

/// Assembles a source: the lines of a program in, its binary lines out, one
/// for each instruction, in order. Nothing comes out where a line is no
/// instruction or an address is out of range: the error tells the first such
/// line.
pub fn assemble(input: &Vec<String>) -> (result: Result<Vec<String>, AssembleError>)
    ensures
        match (result, assemble_source(texts(input@))) {
            (Ok(output), Ok(lines)) => texts(output@) == lines,
            (Err(error), Err(failure)) => error@ == failure,
            _ => false,
        },
{
    let (lines, origins) = match parse_lines(input) {
        Ok(read) => read,
        Err(error) => {
            return Err(error);
        },
    };
    let ghost program = instructions(lines@);
    let ghost labels = label_table(program);
    let mut symbols = SymbolTable::new(&lines);
    let mut output: Vec<String> = Vec::new();
    let mut i: usize = 0;
    proof {
        lemma_origins(texts(input@));
        assert forall|k: int| 0 <= k < origins.len() implies origins[k] < input.len() by {
            assert(line_numbers(origins@)[k] == origins[k]);
        }
        assert(program.take(0) =~= Seq::<Instruction>::empty());
        assert(texts(output@) =~= Seq::<Seq<char>>::empty());
    }
    while i < lines.len()
        invariant
            i <= lines.len(),
            lines.len() == origins.len(),
            forall|k: int| 0 <= k < origins.len() ==> origins[k] < input.len(),
            program == instructions(lines@),
            labels == label_table(program),
            parse_source(texts(input@)) matches Ok((parsed, numbers)) && parsed == program
                && numbers == line_numbers(origins@),
            symbols.wf(),
            symbols.labels() == labels,
            symbols.variables() == allocated(program.take(i as int), labels),
            symbols.variables().len() <= MAX_ADDRESS,
            translate(program.take(i as int), labels) matches Ok(written) && written == texts(
                output@,
            ),
        decreases lines.len() - i,
    {
        assert(program.take(i + 1).drop_last() =~= program.take(i as int));
        assert(program.take(i + 1).last() == lines@[i as int]@);
        proof {
            if let Instruction::ALocation(name) = lines@[i as int]@ {
                lemma_position(symbols.variables(), name);
            }
        }
        match lines[i].assemble(&mut symbols, &mut output) {
            Ok(()) => {},
            Err(address) => {
                proof {
                    lemma_translate_fails(program, labels, i + 1);
                }
                let line: usize = origins[i];
                return Err(AssembleError::Address { line, text: input[line].clone(), address });
            },
        }
        i += 1;
    }
    assert(program.take(i as int) =~= program);
    Ok(output)
}

/// Each instruction of a source comes from one of its lines.
pub proof fn lemma_origins(lines: Seq<Seq<char>>)
    ensures
        parse_source(lines) matches Ok((program, origins)) ==> {
            &&& program.len() == origins.len()
            &&& forall|k: int| 0 <= k < origins.len() ==> (#[trigger] origins[k]) < lines.len()
        },
    decreases lines.len(),
{
    if lines.len() > 0 {
        lemma_origins(lines.drop_last());
    }
}

/// The second pass gives one line for each instruction that is no
/// declaration of a label, in the order of the program, and each line has
/// sixteen binary digits. The line of the instruction at position `k` is the
/// line number `code_len(program.take(k))` of the output, counted from zero:
/// the number that a label declared just before that instruction stands for.
pub proof fn lemma_one_line_each(program: Seq<Instruction>, labels: Map<Seq<char>, nat>)
    requires
        translate(program, labels) is Ok,
    ensures
        ({
            let lines = translate(program, labels)->Ok_0;
            &&& lines.len() == code_len(program)
            &&& forall|i: int| 0 <= i < lines.len() ==> is_binary_line(#[trigger] lines[i])
            &&& forall|k: int|
                0 <= k < program.len() && !(#[trigger] program[k] is Label) ==> {
                    &&& code_len(program.take(k)) < lines.len()
                    &&& outcome(program[k], labels, allocated(program.take(k), labels))
                        == Outcome::Line(lines[code_len(program.take(k)) as int])
                }
        }),
    decreases program.len(),
{
    if program.len() > 0 {
        let before = program.drop_last();
        let lines = translate(program, labels)->Ok_0;
        let earlier = translate(before, labels)->Ok_0;
        lemma_one_line_each(before, labels);
        match program.last() {
            Instruction::C(computation, destination, jump) => {
                lemma_compute_line(
                    computation,
                    destination,
                    jump,
                    labels,
                    allocated(before, labels),
                );
            },
            Instruction::AImmediate(value) => {
                lemma_address_line(value as nat);
            },
            Instruction::ALocation(name) => {
                lemma_address_line(SymbolTable::address(labels, allocated(before, labels), name));
            },
            Instruction::Label(_) => {},
        }
        assert forall|k: int| 0 <= k < program.len() && !(#[trigger] program[k] is Label) implies {
            &&& code_len(program.take(k)) < lines.len()
            &&& outcome(program[k], labels, allocated(program.take(k), labels)) == Outcome::Line(
                lines[code_len(program.take(k)) as int],
            )
        } by {
            if k < program.len() - 1 {
                assert(before[k] == program[k]);
                assert(before.take(k) =~= program.take(k));
            } else {
                assert(program.take(k) =~= before);
            }
        }
    }
}

/// An instruction that is refused is one of the program.
pub proof fn lemma_rejected_in_program(program: Seq<Instruction>, labels: Map<Seq<char>, nat>)
    ensures
        translate(program, labels) matches Err((index, _)) ==> index < program.len(),
    decreases program.len(),
{
    if program.len() > 0 {
        lemma_rejected_in_program(program.drop_last(), labels);
    }
}

/// A source that fails after its first `n` lines fails as a whole, in the
/// same way.
pub proof fn lemma_parse_source_fails(lines: Seq<Seq<char>>, n: int)
    requires
        0 <= n <= lines.len(),
        parse_source(lines.take(n)) is Err,
    ensures
        parse_source(lines) == parse_source(lines.take(n)),
    decreases lines.len(),
{
    if n < lines.len() {
        assert(lines.drop_last().take(n) =~= lines.take(n));
        lemma_parse_source_fails(lines.drop_last(), n);
    } else {
        assert(lines.take(n) =~= lines);
    }
}

/// A program that is refused within its first `n` instructions is refused as
/// a whole, in the same way.
pub proof fn lemma_translate_fails(program: Seq<Instruction>, labels: Map<Seq<char>, nat>, n: int)
    requires
        0 <= n <= program.len(),
        translate(program.take(n), labels) is Err,
    ensures
        translate(program, labels) == translate(program.take(n), labels),
    decreases program.len(),
{
    if n < program.len() {
        assert(program.drop_last().take(n) =~= program.take(n));
        lemma_translate_fails(program.drop_last(), labels, n);
    } else {
        assert(program.take(n) =~= program);
    }
}

} // verus!

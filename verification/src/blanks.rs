//! What holds of the lines of a source that state nothing, and of comments
//! behind code: a source assembles to what its statements say, and blank
//! lines and comments are no part of them.

use vstd::prelude::*;
use crate::assembler::{
    assemble_source, lemma_origins, lemma_rejected_in_program, parse_source, translate,
    AssembleFailure,
};
use crate::line::{
    lemma_trailing_comment, parse_statement, statement, states_nothing, Fault, Instruction,
};
use crate::symbols::label_table;
use crate::text::comment_start;

verus! {

/// Whether two faults are the same but for the number of the line.
pub open spec fn same_fault(first: AssembleFailure, second: AssembleFailure) -> bool {
    match (first, second) {
        (
            AssembleFailure::Parse { failure: first, .. },
            AssembleFailure::Parse { failure: second, .. },
        ) => first == second,
        (
            AssembleFailure::Address { text: first_text, address: first, .. },
            AssembleFailure::Address { text: second_text, address: second, .. },
        ) => first == second && first_text == second_text,
        _ => false,
    }
}

/// Whether the instructions of two sources stand on lines that read the
/// same, one by one.
pub open spec fn same_lines(
    first: Seq<Seq<char>>,
    first_origins: Seq<nat>,
    second: Seq<Seq<char>>,
    second_origins: Seq<nat>,
) -> bool {
    &&& first_origins.len() == second_origins.len()
    &&& forall|k: int|
        0 <= k < first_origins.len() ==> {
            &&& (#[trigger] first_origins[k]) < first.len()
            &&& second_origins[k] < second.len()
            &&& first[first_origins[k] as int] == second[second_origins[k] as int]
        }
}

/// Blank lines and comments leave the output as it is: a source assembles to
/// the same lines with and without a line that states nothing, or fails
/// either way with the same fault, on a line that the added line may have
/// moved.
pub proof fn lemma_silent_line(before: Seq<Seq<char>>, line: Seq<char>, after: Seq<Seq<char>>)
    requires
        states_nothing(line),
    ensures
        match (assemble_source(before.push(line) + after), assemble_source(before + after)) {
            (Ok(with), Ok(without)) => with == without,
            (Err(with), Err(without)) => same_fault(with, without),
            _ => false,
        },
{
    let longer = before.push(line) + after;
    let shorter = before + after;
    lemma_silent_line_in_source(before, line, after);
    lemma_origins(longer);
    lemma_origins(shorter);
    if let Ok((program, origins)) = parse_source(longer) {
        lemma_rejected_in_program(program, label_table(program));
        if let Err((index, _)) = translate(program, label_table(program)) {
            assert(origins[index as int] < longer.len());
        }
    }
}

/// A line that states nothing adds no instruction to a source: with it and
/// without it the source holds the same instructions, from lines that read
/// the same, or fails with the same fault on a line that the added line may
/// have moved.
pub proof fn lemma_silent_line_in_source(
    before: Seq<Seq<char>>,
    line: Seq<char>,
    after: Seq<Seq<char>>,
)
    requires
        states_nothing(line),
    ensures
        match (parse_source(before.push(line) + after), parse_source(before + after)) {
            (Ok((with, with_origins)), Ok((without, without_origins))) => {
                &&& with == without
                &&& same_lines(
                    before.push(line) + after,
                    with_origins,
                    before + after,
                    without_origins,
                )
            },
            (Err(with), Err(without)) => same_fault(with, without),
            _ => false,
        },
    decreases after.len(),
{
    let longer = before.push(line) + after;
    let shorter = before + after;
    if after.len() == 0 {
        assert(longer =~= before.push(line));
        assert(shorter =~= before);
        assert(before.push(line).drop_last() =~= before);
        lemma_origins(before);
    } else {
        assert(longer.drop_last() =~= before.push(line) + after.drop_last());
        assert(shorter.drop_last() =~= before + after.drop_last());
        lemma_silent_line_in_source(before, line, after.drop_last());
        assert(longer.last() == shorter.last());
    }
}

/// The statements of a source, in order: what each line states, without the
/// lines that state nothing. Blank lines and lines that hold a comment only
/// are not among them, and a comment behind code is no part of a statement.
pub open spec fn statements(lines: Seq<Seq<char>>) -> Seq<Seq<char>>
    decreases lines.len(),
{
    if lines.len() == 0 {
        Seq::empty()
    } else if statement(lines.last()).len() == 0 {
        statements(lines.drop_last())
    } else {
        statements(lines.drop_last()).push(statement(lines.last()))
    }
}

/// The instructions that statements write, or the fault of the first that
/// writes none, with the text at fault.
pub open spec fn read_statements(texts: Seq<Seq<char>>) -> Result<
    Seq<Instruction>,
    (Fault, Seq<char>),
>
    decreases texts.len(),
{
    if texts.len() == 0 {
        Ok(Seq::empty())
    } else {
        match read_statements(texts.drop_last()) {
            Err(fault) => Err(fault),
            Ok(program) => match parse_statement(texts.last()) {
                Ok(instruction) => Ok(program.push(instruction)),
                Err(fault) => Err(fault),
            },
        }
    }
}

/// Whether two results of assembling are the same but for the place of a
/// fault: the same output, or the same fault with the same token or address,
/// on a line whose number and whose blanks and comment may differ.
pub open spec fn same_result(
    first: Result<Seq<Seq<char>>, AssembleFailure>,
    second: Result<Seq<Seq<char>>, AssembleFailure>,
) -> bool {
    match (first, second) {
        (Ok(first), Ok(second)) => first == second,
        (
            Err(AssembleFailure::Parse { failure: first, .. }),
            Err(AssembleFailure::Parse { failure: second, .. }),
        ) => first.fault == second.fault && first.token == second.token,
        (
            Err(AssembleFailure::Address { address: first, .. }),
            Err(AssembleFailure::Address { address: second, .. }),
        ) => first == second,
        _ => false,
    }
}

/// A source is read as its statements are: it holds the instructions that
/// they write, or fails with the fault of the first statement that writes
/// none.
pub proof fn lemma_source_by_statements(lines: Seq<Seq<char>>)
    ensures
        match (parse_source(lines), read_statements(statements(lines))) {
            (Ok((program, _)), Ok(read)) => program == read,
            (Err(AssembleFailure::Parse { failure, .. }), Err((fault, token))) => failure.fault
                == fault && failure.token == token,
            _ => false,
        },
    decreases lines.len(),
{
    if lines.len() > 0 {
        lemma_source_by_statements(lines.drop_last());
        let earlier = statements(lines.drop_last());
        let text = statement(lines.last());
        if text.len() > 0 {
            assert(earlier.push(text).drop_last() =~= earlier);
        }
    }
}

/// Two sources with the same statements assemble to the same: whatever
/// blank lines and comment lines stand between the statements, however many,
/// and whatever comments and blanks stand around them, the sources hold the
/// same instructions, with the same addresses for their labels and
/// variables, and give the same output; or both fail with the same fault.
pub proof fn lemma_same_statements(first: Seq<Seq<char>>, second: Seq<Seq<char>>)
    requires
        statements(first) == statements(second),
    ensures
        match (parse_source(first), parse_source(second)) {
            (Ok((first, _)), Ok((second, _))) => first == second,
            (Err(_), Err(_)) => true,
            _ => false,
        },
        same_result(assemble_source(first), assemble_source(second)),
{
    lemma_source_by_statements(first);
    lemma_source_by_statements(second);
}

/// The statements of two sources, one behind the other, are the statements
/// of the first and behind them those of the second.
pub proof fn lemma_statements_of_two(first: Seq<Seq<char>>, second: Seq<Seq<char>>)
    ensures
        statements(first + second) == statements(first) + statements(second),
    decreases second.len(),
{
    if second.len() == 0 {
        assert(first + second =~= first);
        assert(statements(first) + statements(second) =~= statements(first));
    } else {
        assert((first + second).drop_last() =~= first + second.drop_last());
        lemma_statements_of_two(first, second.drop_last());
        assert(statements(first + second) =~= statements(first) + statements(second));
    }
}

/// Lines that state nothing have no statements.
pub proof fn lemma_statements_of_silent_lines(lines: Seq<Seq<char>>)
    requires
        forall|i: int| 0 <= i < lines.len() ==> states_nothing(#[trigger] lines[i]),
    ensures
        statements(lines) == Seq::<Seq<char>>::empty(),
    decreases lines.len(),
{
    if lines.len() > 0 {
        assert(states_nothing(lines[lines.len() - 1]));
        assert forall|i: int| 0 <= i < lines.len() - 1 implies states_nothing(
            #[trigger] lines.drop_last()[i],
        ) by {
            assert(lines.drop_last()[i] == lines[i]);
        }
        lemma_statements_of_silent_lines(lines.drop_last());
    }
}

/// Any number of lines that state nothing, put anywhere into a source,
/// change nothing of what it assembles to.
pub proof fn lemma_silent_lines(
    before: Seq<Seq<char>>,
    silent: Seq<Seq<char>>,
    after: Seq<Seq<char>>,
)
    requires
        forall|i: int| 0 <= i < silent.len() ==> states_nothing(#[trigger] silent[i]),
    ensures
        statements(before + silent + after) == statements(before + after),
        same_result(assemble_source(before + silent + after), assemble_source(before + after)),
{
    lemma_statements_of_silent_lines(silent);
    lemma_statements_of_two(before, silent);
    lemma_statements_of_two(before + silent, after);
    lemma_statements_of_two(before, after);
    assert(statements(before) + Seq::<Seq<char>>::empty() =~= statements(before));
    lemma_same_statements(before + silent + after, before + after);
}

/// A comment put behind the code of any line of a source changes nothing of
/// what it assembles to. The code is any text without a comment mark that
/// does not end in a slash.
pub proof fn lemma_comment_in_source(
    before: Seq<Seq<char>>,
    code: Seq<char>,
    comment: Seq<char>,
    after: Seq<Seq<char>>,
)
    requires
        comment_start(code) == code.len(),
        code.len() == 0 || code.last() != '/',
    ensures
        statements(before.push(code + seq!['/', '/'] + comment) + after) == statements(
            before.push(code) + after,
        ),
        same_result(
            assemble_source(before.push(code + seq!['/', '/'] + comment) + after),
            assemble_source(before.push(code) + after),
        ),
{
    let line = code + seq!['/', '/'] + comment;
    lemma_trailing_comment(code, comment);
    lemma_statements_of_two(before.push(line), after);
    lemma_statements_of_two(before.push(code), after);
    assert(before.push(line).drop_last() =~= before);
    assert(before.push(code).drop_last() =~= before);
    lemma_same_statements(before.push(line) + after, before.push(code) + after);
}

} // verus!

//! The encoder: the line of sixteen binary digits that each instruction gives
//! to the output.
//!
//! An address instruction is a zero and the fifteen bits of its address. A
//! compute instruction is three ones and the codes of its three fields.

use vstd::prelude::*;
use vstd::string::StringExecFns;
use crate::bits::{append_binary, binary, lemma_binary_shape};
use crate::line::{HackLine, Instruction};
use crate::mnemonic::{Computation, Destination, Jump};
use crate::symbols::{
    lemma_position, lemma_position_push, lemma_variable_keeps_its_address, position, texts,
    with_variable, SymbolTable,
};

verus! {

/// The greatest address that an instruction can load: addresses have fifteen
/// bits.
pub const MAX_ADDRESS: usize = 32767;

/// The line that loads `address` into `A`: a zero, then the fifteen bits of
/// the address.
pub open spec fn encode_address(address: nat) -> Seq<char> {
    binary(address, 16)
}

/// The line of a compute instruction: three ones, the seven bits of the
/// computation, the three of the destination and the three of the jump.
pub open spec fn encode_compute(
    computation: Computation,
    destination: Destination,
    jump: Jump,
) -> Seq<char> {
    seq!['1', '1', '1'] + computation.bits() + binary(destination.code(), 3) + binary(
        jump.code(),
        3,
    )
}

/// Whether `text` is a line of output: sixteen characters, each `0` or `1`.
pub open spec fn is_binary_line(text: Seq<char>) -> bool {
    &&& text.len() == 16
    &&& forall|i: int| 0 <= i < text.len() ==> text[i] == '0' || text[i] == '1'
}

/// What one instruction gives to the output.
pub enum Outcome {
    /// No line: the instruction declares a label.
    Nothing,
    /// One line of sixteen binary digits.
    Line(Seq<char>),
    /// No line: the instruction loads an address beyond `MAX_ADDRESS`.
    OutOfRange(nat),
}

/// What loading `address` gives to the output.
pub open spec fn load(address: nat) -> Outcome {
    if address <= MAX_ADDRESS {
        Outcome::Line(encode_address(address))
    } else {
        Outcome::OutOfRange(address)
    }
}

/// What `instruction` gives to the output, in a table with these labels and
/// variables.
pub open spec fn outcome(
    instruction: Instruction,
    labels: Map<Seq<char>, nat>,
    variables: Seq<Seq<char>>,
) -> Outcome {
    match instruction {
        Instruction::Label(_) => Outcome::Nothing,
        Instruction::AImmediate(value) => load(value as nat),
        Instruction::ALocation(name) => load(SymbolTable::address(labels, variables, name)),
        Instruction::C(computation, destination, jump) => Outcome::Line(
            encode_compute(computation, destination, jump),
        ),
    }
}

/// The variables of the table after `instruction`: a symbol that is neither
/// a label nor a variable yet becomes the next variable.
pub open spec fn variables_after(
    instruction: Instruction,
    labels: Map<Seq<char>, nat>,
    variables: Seq<Seq<char>>,
) -> Seq<Seq<char>> {
    match instruction {
        Instruction::ALocation(name) => if labels.contains_key(name) {
            variables
        } else {
            with_variable(variables, name)
        },
        _ => variables,
    }
}

/// The variables of the table after the instructions of `lines`, one after
/// the other, where it had `variables` before them.
pub open spec fn variables_through(
    variables: Seq<Seq<char>>,
    lines: Seq<Instruction>,
    labels: Map<Seq<char>, nat>,
) -> Seq<Seq<char>>
    decreases lines.len(),
{
    if lines.len() == 0 {
        variables
    } else {
        variables_after(
            lines.last(),
            labels,
            variables_through(variables, lines.drop_last(), labels),
        )
    }
}

/// Writes the line that loads `address`, or hands the address back where it
/// is beyond `MAX_ADDRESS`.
pub fn address_line(address: usize) -> (line: Result<String, usize>)
    ensures
        match line {
            Ok(text) => load(address as nat) == Outcome::Line(text@),
            Err(rejected) => load(address as nat) == Outcome::OutOfRange(rejected as nat),
        },
{
    if address > MAX_ADDRESS {
        return Err(address);
    }
    let mut text = String::new();
    append_binary(&mut text, address, 16);
    assert(text@ =~= binary(address as nat, 16));
    Ok(text)
}

impl HackLine {
    /// The second pass on one instruction: resolves its symbol, if it has
    /// one, and appends its line to `output`. A declaration of a label gives
    /// no line. An address beyond `MAX_ADDRESS` is refused: it is handed
    /// back, and `output` stays as it is. Where the instruction names a new
    /// variable, the table must have room for it.
    pub fn assemble(&self, table: &mut SymbolTable, output: &mut Vec<String>) -> (done: Result<
        (),
        usize,
    >)
        requires
            old(table).wf(),
            old(table).has_room() || variables_after(
                self@,
                old(table).labels(),
                old(table).variables(),
            ) == old(table).variables(),
        ensures
            final(table).wf(),
            final(table).labels() == old(table).labels(),
            final(table).variables() == variables_after(
                self@,
                old(table).labels(),
                old(table).variables(),
            ),
            match outcome(self@, old(table).labels(), old(table).variables()) {
                Outcome::Nothing => done is Ok && final(output)@ == old(output)@,
                Outcome::Line(text) => done is Ok && texts(final(output)@) == texts(
                    old(output)@,
                ).push(text),
                Outcome::OutOfRange(address) => done matches Err(refused) && refused == address
                    && final(output)@ == old(output)@,
            },
    {
        let line: Result<String, usize> = match self {
            HackLine::Label(_) => {
                return Ok(());
            },
            HackLine::AImmediate(value) => address_line(*value as usize),
            HackLine::ALocation(name) => {
                let address: usize = match table.label(name.as_str()) {
                    Some(address) => address,
                    None => table.variable(name.as_str()),
                };
                address_line(address)
            },
            HackLine::C(computation, destination, jump) => {
                let mut text = String::new();
                proof {
                    reveal_strlit("111");
                }
                text.append("111");
                computation.assemble(&mut text);
                destination.assemble(&mut text);
                jump.assemble(&mut text);
                assert(text@ =~= encode_compute(*computation, *destination, *jump));
                Ok(text)
            },
        };
        match line {
            Ok(text) => {
                output.push(text);
                assert(texts(output@) =~= texts(old(output)@).push(text@));
                Ok(())
            },
            Err(address) => Err(address),
        }
    }
}

/// The line of a compute instruction depends on its three fields alone, not
/// on the symbol table, and is a line of sixteen binary digits that begins
/// with three ones.
pub proof fn lemma_compute_line(
    computation: Computation,
    destination: Destination,
    jump: Jump,
    labels: Map<Seq<char>, nat>,
    variables: Seq<Seq<char>>,
)
    ensures
        outcome(Instruction::C(computation, destination, jump), labels, variables)
            == Outcome::Line(encode_compute(computation, destination, jump)),
        is_binary_line(encode_compute(computation, destination, jump)),
        encode_compute(computation, destination, jump).take(3) == seq!['1', '1', '1'],
{
    let line = encode_compute(computation, destination, jump);
    lemma_binary_shape(computation.selector(), 1);
    lemma_binary_shape(computation.function(), 6);
    lemma_binary_shape(destination.code(), 3);
    lemma_binary_shape(jump.code(), 3);
    assert(line.take(3) =~= seq!['1', '1', '1']);
    assert forall|i: int| 0 <= i < line.len() implies line[i] == '0' || line[i] == '1' by {
        if i < 3 {
        } else if i < 4 {
            assert(line[i] == binary(computation.selector(), 1)[i - 3]);
        } else if i < 10 {
            assert(line[i] == binary(computation.function(), 6)[i - 4]);
        } else if i < 13 {
            assert(line[i] == binary(destination.code(), 3)[i - 10]);
        } else {
            assert(line[i] == binary(jump.code(), 3)[i - 13]);
        }
    }
}

/// The line that loads an address is a line of sixteen binary digits.
pub proof fn lemma_address_line(address: nat)
    ensures
        is_binary_line(encode_address(address)),
{
    lemma_binary_shape(address, 16);
}

/// A symbol keeps its line, whatever is assembled after it: once an
/// instruction that names the symbol has been assembled against a table, an
/// instruction that names it gives the same line, or is refused for the same
/// address, after any further instructions against that table. This holds of
/// a label, a predefined name and a variable alike.
pub proof fn lemma_symbol_keeps_its_line(
    labels: Map<Seq<char>, nat>,
    variables: Seq<Seq<char>>,
    between: Seq<Instruction>,
    name: Seq<char>,
)
    ensures
        outcome(
            Instruction::ALocation(name),
            labels,
            variables_through(
                variables_after(Instruction::ALocation(name), labels, variables),
                between,
                labels,
            ),
        ) == outcome(Instruction::ALocation(name), labels, variables),
{
    if !labels.contains_key(name) {
        lemma_variable_keeps_its_address(variables, name, Seq::empty());
        lemma_variable_stays(
            labels,
            variables_after(Instruction::ALocation(name), labels, variables),
            between,
            name,
        );
    }
}

/// A variable of the table is still one after any instructions, at the same
/// place.
pub proof fn lemma_variable_stays(
    labels: Map<Seq<char>, nat>,
    variables: Seq<Seq<char>>,
    lines: Seq<Instruction>,
    name: Seq<char>,
)
    requires
        variables.contains(name),
    ensures
        variables_through(variables, lines, labels).contains(name),
        position(variables_through(variables, lines, labels), name) == position(variables, name),
    decreases lines.len(),
{
    if lines.len() > 0 {
        lemma_variable_stays(labels, variables, lines.drop_last(), name);
        let before = variables_through(variables, lines.drop_last(), labels);
        let after = variables_through(variables, lines, labels);
        if after != before {
            let last = after.last();
            assert(after == before.push(last));
            lemma_position_push(before, last, name);
            lemma_position(before, name);
            assert(before.push(last)[position(before, name) as int] == name);
        }
    }
}

} // verus!

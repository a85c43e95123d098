//! What holds of the addresses that the second pass gives to symbols.

use vstd::prelude::*;
use crate::assembler::allocated;
use crate::line::Instruction;
use crate::symbols::{lemma_position, lemma_position_push, position, SymbolTable, FIRST_VARIABLE};

verus! {

/// The address that the instruction at position `k` of `program` loads, where
/// that instruction names a symbol: the symbol is looked up in the table as
/// the second pass has left it after the instructions before.
pub open spec fn symbol_address(
    program: Seq<Instruction>,
    labels: Map<Seq<char>, nat>,
    k: int,
) -> nat
    recommends
        0 <= k < program.len(),
        program[k] is ALocation,
{
    match program[k] {
        Instruction::ALocation(name) => SymbolTable::address(
            labels,
            allocated(program.take(k), labels),
            name,
        ),
        _ => 0,
    }
}

/// A symbol stands for one address throughout a program: two instructions
/// that name it load the same address.
pub proof fn lemma_same_symbol_same_address(
    program: Seq<Instruction>,
    labels: Map<Seq<char>, nat>,
    i: int,
    j: int,
    name: Seq<char>,
)
    requires
        0 <= i < program.len(),
        0 <= j < program.len(),
        program[i] == Instruction::ALocation(name),
        program[j] == Instruction::ALocation(name),
    ensures
        symbol_address(program, labels, i) == symbol_address(program, labels, j),
{
    if !labels.contains_key(name) {
        lemma_variable_address(program, labels, i, name);
        lemma_variable_address(program, labels, j, name);
    }
}

/// Variables get their addresses in the order in which the program first
/// names them: the variable at index `n` of `allocated`, which is the
/// variable number `n + 1`, is loaded as `FIRST_VARIABLE + n` by every
/// instruction that names it.
pub proof fn lemma_variable_address(
    program: Seq<Instruction>,
    labels: Map<Seq<char>, nat>,
    k: int,
    name: Seq<char>,
)
    requires
        0 <= k < program.len(),
        program[k] == Instruction::ALocation(name),
        !labels.contains_key(name),
    ensures
        allocated(program, labels).no_duplicates(),
        allocated(program, labels).contains(name),
        symbol_address(program, labels, k) == FIRST_VARIABLE + allocated(program, labels).index_of(
            name,
        ),
{
    lemma_allocated_once(program, labels);
    lemma_symbol_allocated(program, labels, k, name);
    lemma_allocated_stays(program, labels, k + 1, name);
    let variables = allocated(program, labels);
    lemma_position(variables, name);
    let n = variables.index_of(name);
    assert(variables[n] == name);
    assert(n == position(variables, name));
}

/// Whether an instruction of `program` names the symbol `name`.
pub open spec fn names(program: Seq<Instruction>, name: Seq<char>) -> bool {
    exists|k: int| 0 <= k < program.len() && program[k] == Instruction::ALocation(name)
}

/// The variables of a program are the symbols that its instructions name and
/// that are no labels.
pub proof fn lemma_allocated_named(
    program: Seq<Instruction>,
    labels: Map<Seq<char>, nat>,
    name: Seq<char>,
)
    ensures
        allocated(program, labels).contains(name) <==> names(program, name)
            && !labels.contains_key(name),
    decreases program.len(),
{
    if program.len() > 0 {
        let before = program.drop_last();
        let variables = allocated(before, labels);
        lemma_allocated_named(before, labels, name);
        if names(before, name) {
            let k = choose|k: int|
                0 <= k < before.len() && before[k] == Instruction::ALocation(name);
            assert(program[k] == Instruction::ALocation(name));
        }
        if names(program, name) && !names(before, name) {
            let k = choose|k: int|
                0 <= k < program.len() && program[k] == Instruction::ALocation(name);
            if k < before.len() {
                assert(before[k] == Instruction::ALocation(name));
            }
            assert(program.last() == Instruction::ALocation(name));
        }
        if allocated(program, labels) != variables {
            let last = allocated(program, labels).last();
            assert(allocated(program, labels) == variables.push(last));
            assert(program[program.len() - 1] == Instruction::ALocation(last));
            if variables.contains(name) {
                let i = choose|i: int| 0 <= i < variables.len() && variables[i] == name;
                assert(variables.push(last)[i] == name);
            }
            if allocated(program, labels).contains(name) && !variables.contains(name) {
                let i = choose|i: int|
                    0 <= i < variables.len() + 1 && variables.push(last)[i] == name;
                assert(i == variables.len());
            }
            assert(variables.push(last)[variables.len() as int] == last);
        }
    }
}

/// No variable is allocated twice.
pub proof fn lemma_allocated_once(program: Seq<Instruction>, labels: Map<Seq<char>, nat>)
    ensures
        allocated(program, labels).no_duplicates(),
    decreases program.len(),
{
    if program.len() > 0 {
        lemma_allocated_once(program.drop_last(), labels);
    }
}

/// Allocation only ever adds a variable behind the others: the variables
/// that are allocated after the first `k` instructions are the first of those
/// that are allocated after all. No address is given up or given twice.
pub proof fn lemma_allocated_grows(
    program: Seq<Instruction>,
    labels: Map<Seq<char>, nat>,
    k: int,
)
    requires
        0 <= k <= program.len(),
    ensures
        allocated(program.take(k), labels).len() <= allocated(program, labels).len(),
        allocated(program, labels).take(allocated(program.take(k), labels).len() as int)
            == allocated(program.take(k), labels),
    decreases program.len(),
{
    if k < program.len() {
        let before = program.drop_last();
        assert(before.take(k) =~= program.take(k));
        lemma_allocated_grows(before, labels, k);
        let n = allocated(program.take(k), labels).len() as int;
        assert(allocated(program, labels).take(n) =~= allocated(before, labels).take(n));
    } else {
        assert(program.take(k) =~= program);
        assert(allocated(program, labels).take(allocated(program, labels).len() as int)
            =~= allocated(program, labels));
    }
}

/// After an instruction that names a symbol which is no label, the symbol is
/// a variable, at the place that gave the instruction its address.
pub proof fn lemma_symbol_allocated(
    program: Seq<Instruction>,
    labels: Map<Seq<char>, nat>,
    k: int,
    name: Seq<char>,
)
    requires
        0 <= k < program.len(),
        program[k] == Instruction::ALocation(name),
        !labels.contains_key(name),
    ensures
        allocated(program.take(k + 1), labels).contains(name),
        symbol_address(program, labels, k) == FIRST_VARIABLE + position(
            allocated(program.take(k + 1), labels),
            name,
        ),
{
    let variables = allocated(program.take(k), labels);
    assert(program.take(k + 1).drop_last() =~= program.take(k));
    assert(program.take(k + 1).last() == program[k]);
    if variables.contains(name) {
    } else {
        lemma_position_push(variables, name, name);
        assert(variables.push(name)[variables.len() as int] == name);
    }
}

/// A variable that is allocated after the first `k` instructions is still
/// allocated after all of them, at the same place.
pub proof fn lemma_allocated_stays(
    program: Seq<Instruction>,
    labels: Map<Seq<char>, nat>,
    k: int,
    name: Seq<char>,
)
    requires
        0 <= k <= program.len(),
        allocated(program.take(k), labels).contains(name),
    ensures
        allocated(program, labels).contains(name),
        position(allocated(program, labels), name) == position(
            allocated(program.take(k), labels),
            name,
        ),
    decreases program.len(),
{
    if k < program.len() {
        let before = program.drop_last();
        assert(before.take(k) =~= program.take(k));
        lemma_allocated_stays(before, labels, k, name);
        let variables = allocated(before, labels);
        if allocated(program, labels) != variables {
            let last = allocated(program, labels).last();
            assert(allocated(program, labels) == variables.push(last));
            lemma_position_push(variables, last, name);
            lemma_position(variables, name);
            assert(variables.push(last)[position(variables, name) as int] == name);
        }
    } else {
        assert(program.take(k) =~= program);
    }
}

} // verus!

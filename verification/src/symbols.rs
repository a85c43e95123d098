//! The symbol table: the addresses that names stand for.
//!
//! A name is a label, with the address that the first pass over the program
//! gave it, or a variable, with the next free address of data memory at the
//! moment of its first use. The names that the machine predefines are labels
//! from the start.

use vstd::prelude::*;
use crate::line::{HackLine, Instruction};

verus! {

/// The first address of data memory that is given to a variable.
pub const FIRST_VARIABLE: usize = 16;

/// The names that the machine predefines, with their addresses.
pub open spec fn predefined() -> Map<Seq<char>, nat> {
    map![
        "SP"@ => 0nat,
        "LCL"@ => 1nat,
        "ARG"@ => 2nat,
        "THIS"@ => 3nat,
        "THAT"@ => 4nat,
        "R0"@ => 0nat,
        "R1"@ => 1nat,
        "R2"@ => 2nat,
        "R3"@ => 3nat,
        "R4"@ => 4nat,
        "R5"@ => 5nat,
        "R6"@ => 6nat,
        "R7"@ => 7nat,
        "R8"@ => 8nat,
        "R9"@ => 9nat,
        "R10"@ => 10nat,
        "R11"@ => 11nat,
        "R12"@ => 12nat,
        "R13"@ => 13nat,
        "R14"@ => 14nat,
        "R15"@ => 15nat,
        "SCREEN"@ => 16384nat,
        "KBD"@ => 24576nat,
    ]
}

/// The instructions that a vector of lines holds.
pub open spec fn instructions(lines: Seq<HackLine>) -> Seq<Instruction> {
    lines.map_values(|line: HackLine| line@)
}

/// The number of instructions of `program` that take a place in memory: all
/// but the declarations of labels.
pub open spec fn code_len(program: Seq<Instruction>) -> nat
    decreases program.len(),
{
    if program.len() == 0 {
        0
    } else if program.last() is Label {
        code_len(program.drop_last())
    } else {
        code_len(program.drop_last()) + 1
    }
}

/// The labels of `program`: the predefined names, and over them each declared
/// label with the number of instructions that stand before its declaration.
/// Of two declarations of one name the later counts.
pub open spec fn label_table(program: Seq<Instruction>) -> Map<Seq<char>, nat>
    decreases program.len(),
{
    if program.len() == 0 {
        predefined()
    } else {
        match program.last() {
            Instruction::Label(name) => label_table(program.drop_last()).insert(
                name,
                code_len(program.drop_last()),
            ),
            _ => label_table(program.drop_last()),
        }
    }
}

/// The place of `name` among `names`: the least index at which it stands, or
/// the length of `names` where it is not among them.
pub open spec fn position(names: Seq<Seq<char>>, name: Seq<char>) -> nat
    decreases names.len(),
{
    if names.len() == 0 {
        0
    } else if names.first() == name {
        0
    } else {
        1 + position(names.drop_first(), name)
    }
}

/// The variables after `name` has been asked for: a new name is put behind
/// the others, a name that is among them changes nothing.
pub open spec fn with_variable(variables: Seq<Seq<char>>, name: Seq<char>) -> Seq<Seq<char>> {
    if variables.contains(name) {
        variables
    } else {
        variables.push(name)
    }
}

/// The variables after each of `names` has been asked for, in their order.
pub open spec fn with_variables(variables: Seq<Seq<char>>, names: Seq<Seq<char>>) -> Seq<
    Seq<char>,
>
    decreases names.len(),
{
    if names.len() == 0 {
        variables
    } else {
        with_variable(with_variables(variables, names.drop_last()), names.last())
    }
}

/// The map that a list of entries stands for: each entry is put into the map
/// in turn, so that of two entries with one name the later counts.
spec fn entries_map(entries: Seq<(String, usize)>) -> Map<Seq<char>, nat>
    decreases entries.len(),
{
    if entries.len() == 0 {
        Map::empty()
    } else {
        entries_map(entries.drop_last()).insert(entries.last().0@, entries.last().1 as nat)
    }
}

/// The text of each of `names`.
pub open spec fn texts(names: Seq<String>) -> Seq<Seq<char>> {
    names.map_values(|name: String| name@)
}

/// The addresses that the names of one program stand for.
pub struct SymbolTable {
    labels: Vec<(String, usize)>,
    variables: Vec<String>,
}

impl SymbolTable {
    /// The labels, predefined and declared, with their addresses.
    pub closed spec fn labels(&self) -> Map<Seq<char>, nat> {
        entries_map(self.labels@)
    }

    /// The variables in the order in which they were first used. The
    /// variable at index `i` has the address `FIRST_VARIABLE + i`.
    pub closed spec fn variables(&self) -> Seq<Seq<char>> {
        texts(self.variables@)
    }

    /// Whether the table can take one more variable: its address fits the
    /// machine word of the assembler.
    pub open spec fn has_room(&self) -> bool {
        self.variables().len() + FIRST_VARIABLE < usize::MAX
    }

    /// The invariant of the table: no variable stands in it twice, and the
    /// address of each fits a machine word.
    pub open spec fn wf(&self) -> bool {
        &&& self.variables().no_duplicates()
        &&& self.variables().len() + FIRST_VARIABLE <= usize::MAX
    }

    /// The address that `name` stands for in a table with these labels and
    /// variables: that of the label, or else that of the variable, which is
    /// the next free address where the name is new.
    pub open spec fn address(
        labels: Map<Seq<char>, nat>,
        variables: Seq<Seq<char>>,
        name: Seq<char>,
    ) -> nat {
        if labels.contains_key(name) {
            labels[name]
        } else {
            FIRST_VARIABLE as nat + position(variables, name)
        }
    }

    /// Puts a label into the list.
    fn declare(labels: &mut Vec<(String, usize)>, name: &str, address: usize)
        ensures
            entries_map(final(labels)@) == entries_map(old(labels)@).insert(name@, address as nat),
    {
        labels.push((name.to_owned(), address));
        assert(labels@.drop_last() =~= old(labels)@);
    }

    /// The first pass: a table with the predefined names and the labels that
    /// `lines` declares, and no variable yet.
    pub fn new(lines: &Vec<HackLine>) -> (table: SymbolTable)
        ensures
            table.wf(),
            table.labels() == label_table(instructions(lines@)),
            table.variables() == Seq::<Seq<char>>::empty(),
    {
        let mut labels: Vec<(String, usize)> = Vec::new();
        SymbolTable::declare(&mut labels, "SP", 0);
        SymbolTable::declare(&mut labels, "LCL", 1);
        SymbolTable::declare(&mut labels, "ARG", 2);
        SymbolTable::declare(&mut labels, "THIS", 3);
        SymbolTable::declare(&mut labels, "THAT", 4);
        SymbolTable::declare(&mut labels, "R0", 0);
        SymbolTable::declare(&mut labels, "R1", 1);
        SymbolTable::declare(&mut labels, "R2", 2);
        SymbolTable::declare(&mut labels, "R3", 3);
        SymbolTable::declare(&mut labels, "R4", 4);
        SymbolTable::declare(&mut labels, "R5", 5);
        SymbolTable::declare(&mut labels, "R6", 6);
        SymbolTable::declare(&mut labels, "R7", 7);
        SymbolTable::declare(&mut labels, "R8", 8);
        SymbolTable::declare(&mut labels, "R9", 9);
        SymbolTable::declare(&mut labels, "R10", 10);
        SymbolTable::declare(&mut labels, "R11", 11);
        SymbolTable::declare(&mut labels, "R12", 12);
        SymbolTable::declare(&mut labels, "R13", 13);
        SymbolTable::declare(&mut labels, "R14", 14);
        SymbolTable::declare(&mut labels, "R15", 15);
        SymbolTable::declare(&mut labels, "SCREEN", 16384);
        SymbolTable::declare(&mut labels, "KBD", 24576);
        assert(entries_map(labels@) == predefined());

        let ghost program = instructions(lines@);
        let mut program_length: usize = 0;
        let mut i: usize = 0;
        assert(program.take(0) =~= Seq::<Instruction>::empty());
        while i < lines.len()
            invariant
                i <= lines.len(),
                program == instructions(lines@),
                program_length == code_len(program.take(i as int)),
                program_length <= i,
                entries_map(labels@) == label_table(program.take(i as int)),
            decreases lines.len() - i,
        {
            assert(program.take(i + 1).drop_last() =~= program.take(i as int));
            assert(program.take(i + 1).last() == lines@[i as int]@);
            match &lines[i] {
                HackLine::Label(name) => {
                    SymbolTable::declare(&mut labels, name.as_str(), program_length);
                },
                _ => {
                    program_length += 1;
                },
            }
            i += 1;
        }
        assert(program.take(i as int) =~= program);
        let table = SymbolTable { labels, variables: Vec::new() };
        assert(table.variables() =~= Seq::<Seq<char>>::empty());
        table
    }

    /// The address of the label `key`, if there is such a label. The table
    /// stays as it is.
    pub fn label(&self, key: &str) -> (address: Option<usize>)
        ensures
            match address {
                Some(found) => self.labels().contains_key(key@) && self.labels()[key@] == found,
                None => !self.labels().contains_key(key@),
            },
    {
        let mut i: usize = self.labels.len();
        assert(self.labels@.take(i as int) =~= self.labels@);
        while i > 0
            invariant
                i <= self.labels.len(),
                entries_map(self.labels@).contains_key(key@) == entries_map(
                    self.labels@.take(i as int),
                ).contains_key(key@),
                entries_map(self.labels@).contains_key(key@) ==> entries_map(self.labels@)[key@]
                    == entries_map(self.labels@.take(i as int))[key@],
            decreases i,
        {
            i -= 1;
            assert(self.labels@.take(i + 1).drop_last() =~= self.labels@.take(i as int));
            if self.labels[i].0.as_str().eq(key) {
                return Some(self.labels[i].1);
            }
        }
        None
    }

    /// The address of the variable `key`. A name that is no variable yet
    /// becomes one, with the next free address; for that the table must have
    /// room.
    pub fn variable(&mut self, key: &str) -> (address: usize)
        requires
            old(self).wf(),
            old(self).has_room() || old(self).variables().contains(key@),
        ensures
            final(self).wf(),
            final(self).labels() == old(self).labels(),
            address == FIRST_VARIABLE + position(old(self).variables(), key@),
            final(self).variables() == with_variable(old(self).variables(), key@),
    {
        let ghost names = self.variables();
        let n: usize = self.variables.len();
        let mut i: usize = 0;
        assert(names.skip(0) =~= names);
        while i < n
            invariant
                i <= n,
                *self == *old(self),
                self.wf(),
                n == self.variables.len(),
                names == texts(self.variables@),
                self.has_room() || names.contains(key@),
                forall|j: int| 0 <= j < i ==> names[j] != key@,
                position(names, key@) == i + position(names.skip(i as int), key@),
            decreases n - i,
        {
            assert(names.skip(i as int).first() == self.variables@[i as int]@);
            if self.variables[i].as_str().eq(key) {
                return FIRST_VARIABLE + i;
            }
            assert(names.skip(i as int).drop_first() =~= names.skip(i + 1));
            i += 1;
        }
        assert(names.skip(n as int) =~= Seq::<Seq<char>>::empty());
        assert(!names.contains(key@));
        self.variables.push(key.to_owned());
        assert(self.variables() =~= names.push(key@));
        FIRST_VARIABLE + n
    }
}

/// `position` gives the first index at which the name stands: an index within
/// the names exactly where the name is among them.
pub proof fn lemma_position(names: Seq<Seq<char>>, name: Seq<char>)
    ensures
        position(names, name) <= names.len(),
        position(names, name) < names.len() <==> names.contains(name),
        names.contains(name) ==> names[position(names, name) as int] == name,
        forall|j: int| 0 <= j < position(names, name) ==> names[j] != name,
    decreases names.len(),
{
    if names.len() > 0 && names.first() != name {
        let rest = names.drop_first();
        lemma_position(rest, name);
        assert forall|j: int| 0 <= j < position(names, name) implies names[j] != name by {
            if j > 0 {
                assert(names[j] == rest[j - 1]);
            }
        }
        if names.contains(name) {
            let i = choose|i: int| 0 <= i < names.len() && names[i] == name;
            assert(rest[i - 1] == name);
        }
        if rest.contains(name) {
            let i = choose|i: int| 0 <= i < rest.len() && rest[i] == name;
            assert(names[i + 1] == name);
        }
    }
}

/// Whether `program` declares the label `name`.
pub open spec fn declares(program: Seq<Instruction>, name: Seq<char>) -> bool {
    exists|i: int| 0 <= i < program.len() && program[i] == Instruction::Label(name)
}

/// Each predefined name has its fixed address: the five pointers, the
/// sixteen registers, the screen and the keyboard.
pub proof fn lemma_predefined_addresses()
    ensures
        predefined().contains_key("SP"@),
        predefined().contains_key("LCL"@),
        predefined().contains_key("ARG"@),
        predefined().contains_key("THIS"@),
        predefined().contains_key("THAT"@),
        predefined().contains_key("R0"@),
        predefined().contains_key("R1"@),
        predefined().contains_key("R2"@),
        predefined().contains_key("R3"@),
        predefined().contains_key("R4"@),
        predefined().contains_key("R5"@),
        predefined().contains_key("R6"@),
        predefined().contains_key("R7"@),
        predefined().contains_key("R8"@),
        predefined().contains_key("R9"@),
        predefined().contains_key("R10"@),
        predefined().contains_key("R11"@),
        predefined().contains_key("R12"@),
        predefined().contains_key("R13"@),
        predefined().contains_key("R14"@),
        predefined().contains_key("R15"@),
        predefined().contains_key("SCREEN"@),
        predefined().contains_key("KBD"@),
        predefined()["SP"@] == 0,
        predefined()["LCL"@] == 1,
        predefined()["ARG"@] == 2,
        predefined()["THIS"@] == 3,
        predefined()["THAT"@] == 4,
        predefined()["R0"@] == 0,
        predefined()["R1"@] == 1,
        predefined()["R2"@] == 2,
        predefined()["R3"@] == 3,
        predefined()["R4"@] == 4,
        predefined()["R5"@] == 5,
        predefined()["R6"@] == 6,
        predefined()["R7"@] == 7,
        predefined()["R8"@] == 8,
        predefined()["R9"@] == 9,
        predefined()["R10"@] == 10,
        predefined()["R11"@] == 11,
        predefined()["R12"@] == 12,
        predefined()["R13"@] == 13,
        predefined()["R14"@] == 14,
        predefined()["R15"@] == 15,
        predefined()["SCREEN"@] == 16384,
        predefined()["KBD"@] == 24576,
{
    reveal_strlit("SP");
    reveal_strlit("LCL");
    reveal_strlit("ARG");
    reveal_strlit("THIS");
    reveal_strlit("THAT");
    reveal_strlit("R0");
    reveal_strlit("R1");
    reveal_strlit("R2");
    reveal_strlit("R3");
    reveal_strlit("R4");
    reveal_strlit("R5");
    reveal_strlit("R6");
    reveal_strlit("R7");
    reveal_strlit("R8");
    reveal_strlit("R9");
    reveal_strlit("R10");
    reveal_strlit("R11");
    reveal_strlit("R12");
    reveal_strlit("R13");
    reveal_strlit("R14");
    reveal_strlit("R15");
    reveal_strlit("SCREEN");
    reveal_strlit("KBD");
    assert("SP"@ =~= seq!['S', 'P']);
    assert("LCL"@ =~= seq!['L', 'C', 'L']);
    assert("ARG"@ =~= seq!['A', 'R', 'G']);
    assert("THIS"@ =~= seq!['T', 'H', 'I', 'S']);
    assert("THAT"@ =~= seq!['T', 'H', 'A', 'T']);
    assert("R0"@ =~= seq!['R', '0']);
    assert("R1"@ =~= seq!['R', '1']);
    assert("R2"@ =~= seq!['R', '2']);
    assert("R3"@ =~= seq!['R', '3']);
    assert("R4"@ =~= seq!['R', '4']);
    assert("R5"@ =~= seq!['R', '5']);
    assert("R6"@ =~= seq!['R', '6']);
    assert("R7"@ =~= seq!['R', '7']);
    assert("R8"@ =~= seq!['R', '8']);
    assert("R9"@ =~= seq!['R', '9']);
    assert("R10"@ =~= seq!['R', '1', '0']);
    assert("R11"@ =~= seq!['R', '1', '1']);
    assert("R12"@ =~= seq!['R', '1', '2']);
    assert("R13"@ =~= seq!['R', '1', '3']);
    assert("R14"@ =~= seq!['R', '1', '4']);
    assert("R15"@ =~= seq!['R', '1', '5']);
    assert("SCREEN"@ =~= seq!['S', 'C', 'R', 'E', 'E', 'N']);
    assert("KBD"@ =~= seq!['K', 'B', 'D']);
}

/// A predefined name that the program does not declare as a label keeps its
/// fixed address, and a name that is neither predefined nor declared is no
/// label.
pub proof fn lemma_undeclared_label(program: Seq<Instruction>, name: Seq<char>)
    requires
        !declares(program, name),
    ensures
        label_table(program).contains_key(name) == predefined().contains_key(name),
        predefined().contains_key(name) ==> label_table(program)[name] == predefined()[name],
    decreases program.len(),
{
    if program.len() > 0 {
        let before = program.drop_last();
        assert forall|i: int| 0 <= i < before.len() implies before[i] != Instruction::Label(
            name,
        ) by {
            assert(before[i] == program[i]);
        }
        lemma_undeclared_label(before, name);
        assert(program[program.len() - 1] != Instruction::Label(name));
    }
}

/// A label stands for the number of instructions before its declaration,
/// declarations of labels not counted. Where a name is declared more than
/// once, this holds of its last declaration.
pub proof fn lemma_label_address(program: Seq<Instruction>, i: int, name: Seq<char>)
    requires
        0 <= i < program.len(),
        program[i] == Instruction::Label(name),
        forall|j: int| i < j < program.len() ==> program[j] != Instruction::Label(name),
    ensures
        label_table(program).contains_key(name),
        label_table(program)[name] == code_len(program.take(i)),
    decreases program.len(),
{
    let before = program.drop_last();
    if i == program.len() - 1 {
        assert(before =~= program.take(i));
    } else {
        assert(before[i] == program[i]);
        assert forall|j: int| i < j < before.len() implies before[j] != Instruction::Label(
            name,
        ) by {
            assert(before[j] == program[j]);
        }
        lemma_label_address(before, i, name);
        assert(before.take(i) =~= program.take(i));
        assert(program.last() == program[program.len() - 1]);
    }
}

/// A name keeps its place among the names when another name is put behind
/// them; and a new name gets the place behind them.
pub proof fn lemma_position_push(names: Seq<Seq<char>>, last: Seq<char>, name: Seq<char>)
    requires
        names.contains(name) || last == name,
    ensures
        position(names.push(last), name) == position(names, name),
    decreases names.len(),
{
    if names.len() > 0 && names.first() != name {
        let rest = names.drop_first();
        assert(names.push(last).drop_first() =~= rest.push(last));
        if names.contains(name) {
            let i = choose|i: int| 0 <= i < names.len() && names[i] == name;
            assert(rest[i - 1] == name);
        }
        lemma_position_push(rest, last, name);
    }
}

/// A variable keeps its address, whatever is asked for after it: once `key`
/// has been asked for, it has the same place after any further calls, for
/// other names or for `key` itself. (Looking up a label changes no table.)
pub proof fn lemma_variable_keeps_its_address(
    variables: Seq<Seq<char>>,
    key: Seq<char>,
    between: Seq<Seq<char>>,
)
    ensures
        with_variables(with_variable(variables, key), between).contains(key),
        position(with_variables(with_variable(variables, key), between), key) == position(
            variables,
            key,
        ),
    decreases between.len(),
{
    let first = with_variable(variables, key);
    if between.len() == 0 {
        lemma_position(variables, key);
        if !variables.contains(key) {
            lemma_position_push(variables, key, key);
            assert(first[variables.len() as int] == key);
        }
    } else {
        let before = with_variables(first, between.drop_last());
        lemma_variable_keeps_its_address(variables, key, between.drop_last());
        if !before.contains(between.last()) {
            lemma_position_push(before, between.last(), key);
            lemma_position(before, key);
            assert(before.push(between.last())[position(before, key) as int] == key);
        }
    }
}

/// The variables of a table that started without any are the names that
/// were asked for, each once.
pub proof fn lemma_with_variables(names: Seq<Seq<char>>)
    ensures
        with_variables(Seq::empty(), names).no_duplicates(),
        with_variables(Seq::empty(), names).to_set() == names.to_set(),
    decreases names.len(),
{
    let variables = with_variables(Seq::empty(), names);
    if names.len() == 0 {
        assert(variables.to_set() =~= names.to_set());
    } else {
        let before = with_variables(Seq::empty(), names.drop_last());
        lemma_with_variables(names.drop_last());
        assert(names =~= names.drop_last().push(names.last()));
        names.drop_last().lemma_push_to_set_commute(names.last());
        if before.contains(names.last()) {
            assert(before.to_set().contains(names.last()));
            assert(names.to_set() =~= names.drop_last().to_set());
        } else {
            before.lemma_push_to_set_commute(names.last());
        }
    }
}

/// In a table that started without variables, a new name gets the address
/// `FIRST_VARIABLE` plus the number of different names that were asked for
/// before it: the first gets `FIRST_VARIABLE`, and the name number `n`, in
/// the order of first use, gets `FIRST_VARIABLE + n - 1`.
pub proof fn lemma_new_variable_address(names: Seq<Seq<char>>, key: Seq<char>)
    requires
        !names.contains(key),
    ensures
        position(with_variables(Seq::empty(), names), key) == names.to_set().len(),
{
    let variables = with_variables(Seq::empty(), names);
    lemma_with_variables(names);
    variables.unique_seq_to_set();
    lemma_position(variables, key);
    if variables.contains(key) {
        assert(variables.to_set().contains(key));
        assert(names.to_set().contains(key));
    }
}

} // verus!

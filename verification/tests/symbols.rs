use hack_assembler::line::HackLine;
use hack_assembler::mnemonic::{Computation, Destination, Jump, AM};
use hack_assembler::symbols::{SymbolTable, FIRST_VARIABLE};

fn instruction() -> HackLine {
    HackLine::C(Computation::X(AM::A), Destination::D, Jump::Null)
}

fn declaration(name: &str) -> HackLine {
    HackLine::Label(name.to_string())
}

#[test]
fn new_table_has_the_predefined_symbols() {
    let table = SymbolTable::new(&Vec::new());
    assert_eq!(table.label("SP"), Some(0));
    assert_eq!(table.label("LCL"), Some(1));
    assert_eq!(table.label("ARG"), Some(2));
    assert_eq!(table.label("THIS"), Some(3));
    assert_eq!(table.label("THAT"), Some(4));
    for register in 0..16 {
        assert_eq!(table.label(&format!("R{}", register)), Some(register));
    }
    assert_eq!(table.label("SCREEN"), Some(16384));
    assert_eq!(table.label("KBD"), Some(24576));
}

#[test]
fn other_names_are_no_labels() {
    let table = SymbolTable::new(&vec![instruction(), declaration("LOOP")]);
    assert_eq!(table.label("R16"), None);
    assert_eq!(table.label("sp"), None);
    assert_eq!(table.label(""), None);
    assert_eq!(table.label("loop"), None);
    assert_eq!(table.label("LOOP "), None);
}

#[test]
fn label_has_the_number_of_instructions_before_it() {
    let lines = vec![
        declaration("START"),
        instruction(),
        HackLine::AImmediate(7),
        declaration("MIDDLE"),
        declaration("SAME"),
        HackLine::ALocation("x".to_string()),
        declaration("END"),
    ];
    let table = SymbolTable::new(&lines);
    assert_eq!(table.label("START"), Some(0));
    assert_eq!(table.label("MIDDLE"), Some(2));
    assert_eq!(table.label("SAME"), Some(2));
    assert_eq!(table.label("END"), Some(3));
    assert_eq!(table.label("x"), None);
}

#[test]
fn label_wins_over_predefined_symbol() {
    let lines =
        vec![instruction(), instruction(), instruction(), declaration("R0"), declaration("KBD")];
    let table = SymbolTable::new(&lines);
    assert_eq!(table.label("R0"), Some(3));
    assert_eq!(table.label("KBD"), Some(3));
    assert_eq!(table.label("SP"), Some(0));
    assert_eq!(table.label("R1"), Some(1));
}

#[test]
fn last_declaration_wins() {
    let lines =
        vec![declaration("X"), instruction(), declaration("X"), instruction(), declaration("Y")];
    let table = SymbolTable::new(&lines);
    assert_eq!(table.label("X"), Some(1));
    assert_eq!(table.label("Y"), Some(2));
}

#[test]
fn variables_start_at_sixteen() {
    assert_eq!(FIRST_VARIABLE, 16);
    let mut table = SymbolTable::new(&Vec::new());
    assert_eq!(table.variable("first"), 16);
    assert_eq!(table.variable("second"), 17);
    assert_eq!(table.variable("third"), 18);
}

#[test]
fn variable_keeps_its_address() {
    let mut table = SymbolTable::new(&Vec::new());
    assert_eq!(table.variable("i"), 16);
    assert_eq!(table.variable("i"), 16);
    assert_eq!(table.variable("j"), 17);
    assert_eq!(table.variable("i"), 16);
    assert_eq!(table.variable("j"), 17);
    assert_eq!(table.variable("k"), 18);
    assert_eq!(table.variable("i"), 16);
}

#[test]
fn hundredth_variable_has_address_115() {
    let mut table = SymbolTable::new(&Vec::new());
    for n in 0..100 {
        assert_eq!(table.variable(&format!("v{}", n)), 16 + n);
    }
    for n in (0..100).rev() {
        assert_eq!(table.variable(&format!("v{}", n)), 16 + n);
    }
}

#[test]
fn variables_leave_the_labels_alone() {
    let mut table = SymbolTable::new(&vec![instruction(), declaration("LOOP")]);
    assert_eq!(table.variable("LOOP"), 16);
    assert_eq!(table.variable("SP"), 17);
    assert_eq!(table.label("LOOP"), Some(1));
    assert_eq!(table.label("SP"), Some(0));
    assert_eq!(table.label("x"), None);
    assert_eq!(table.variable("x"), 18);
    assert_eq!(table.label("x"), None);
}

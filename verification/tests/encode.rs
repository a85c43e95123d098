use hack_assembler::assembler::{parse_lines, AssembleError};
use hack_assembler::encoder::{address_line, MAX_ADDRESS};
use hack_assembler::bits::append_binary;
use hack_assembler::line::{Fault, HackLine, ParseError};
use hack_assembler::mnemonic::{Computation, Destination, Jump, AM};
use hack_assembler::symbols::SymbolTable;

#[test]
fn binary_numeral_has_the_width_asked_for() {
    let mut out = String::new();
    append_binary(&mut out, 5, 3);
    assert_eq!(out, "101");
    append_binary(&mut out, 5, 8);
    assert_eq!(out, "10100000101");
    append_binary(&mut out, 5, 0);
    assert_eq!(out, "10100000101");
}

#[test]
fn binary_numeral_drops_the_digits_beyond_its_width() {
    let mut out = String::new();
    append_binary(&mut out, 0b110110, 4);
    assert_eq!(out, "0110");
}

#[test]
fn address_line_has_sixteen_digits() {
    assert_eq!(address_line(0), Ok("0000000000000000".to_string()));
    assert_eq!(address_line(1), Ok("0000000000000001".to_string()));
    assert_eq!(address_line(16384), Ok("0100000000000000".to_string()));
    assert_eq!(address_line(24576), Ok("0110000000000000".to_string()));
    assert_eq!(address_line(21845), Ok("0101010101010101".to_string()));
    assert_eq!(address_line(32767), Ok("0111111111111111".to_string()));
}

#[test]
fn address_line_refuses_what_is_beyond_fifteen_bits() {
    assert_eq!(MAX_ADDRESS, 32767);
    assert_eq!(address_line(32768), Err(32768));
    assert_eq!(address_line(65535), Err(65535));
    assert_eq!(address_line(1 << 20), Err(1 << 20));
}

#[test]
fn label_gives_no_line() {
    let mut table = SymbolTable::new(&Vec::new());
    let mut output = vec!["kept".to_string()];
    assert_eq!(HackLine::Label("L".to_string()).assemble(&mut table, &mut output), Ok(()));
    assert_eq!(output, vec!["kept".to_string()]);
}

#[test]
fn number_is_loaded_as_it_stands() {
    let mut table = SymbolTable::new(&Vec::new());
    let mut output = Vec::new();
    assert_eq!(HackLine::AImmediate(3).assemble(&mut table, &mut output), Ok(()));
    assert_eq!(HackLine::AImmediate(32767).assemble(&mut table, &mut output), Ok(()));
    assert_eq!(output, vec!["0000000000000011".to_string(), "0111111111111111".to_string()]);
}

#[test]
fn number_out_of_range_is_handed_back() {
    let mut table = SymbolTable::new(&Vec::new());
    let mut output = vec!["kept".to_string()];
    assert_eq!(HackLine::AImmediate(32768).assemble(&mut table, &mut output), Err(32768));
    assert_eq!(HackLine::AImmediate(65535).assemble(&mut table, &mut output), Err(65535));
    assert_eq!(output, vec!["kept".to_string()]);
}

#[test]
fn symbol_is_a_label_first_and_a_variable_else() {
    let lines = vec![
        HackLine::AImmediate(0),
        HackLine::Label("HERE".to_string()),
    ];
    let mut table = SymbolTable::new(&lines);
    let mut output = Vec::new();
    for name in ["HERE", "there", "R5", "there", "HERE", "where"] {
        assert_eq!(HackLine::ALocation(name.to_string()).assemble(&mut table, &mut output), Ok(()));
    }
    assert_eq!(
        output,
        vec![
            "0000000000000001".to_string(),
            "0000000000010000".to_string(),
            "0000000000000101".to_string(),
            "0000000000010000".to_string(),
            "0000000000000001".to_string(),
            "0000000000010001".to_string(),
        ]
    );
    assert_eq!(table.label("there"), None);
    assert_eq!(table.variable("there"), 16);
    assert_eq!(table.variable("where"), 17);
}

#[test]
fn compute_line_is_the_same_in_every_table() {
    let line = HackLine::C(Computation::DPlusX(AM::A), Destination::D, Jump::Null);
    let mut empty = SymbolTable::new(&Vec::new());
    let mut full = SymbolTable::new(&vec![HackLine::Label("D".to_string())]);
    full.variable("A");
    let mut first = Vec::new();
    let mut second = Vec::new();
    assert_eq!(line.assemble(&mut empty, &mut first), Ok(()));
    assert_eq!(line.assemble(&mut full, &mut second), Ok(()));
    assert_eq!(first, vec!["1110000010010000".to_string()]);
    assert_eq!(first, second);
}

#[test]
fn compute_line_joins_the_three_codes() {
    let mut table = SymbolTable::new(&Vec::new());
    let mut output = Vec::new();
    let lines = [
        HackLine::C(Computation::X(AM::A), Destination::D, Jump::Null),
        HackLine::C(Computation::D, Destination::M, Jump::Null),
        HackLine::C(Computation::Zero, Destination::Null, Jump::JMP),
        HackLine::C(Computation::XMinusOne(AM::M), Destination::MD, Jump::Null),
        HackLine::C(Computation::DOrX(AM::M), Destination::AMD, Jump::JNE),
        HackLine::C(Computation::D, Destination::Null, Jump::JGT),
    ];
    for line in &lines {
        assert_eq!(line.assemble(&mut table, &mut output), Ok(()));
    }
    assert_eq!(
        output,
        vec![
            "1110110000010000".to_string(),
            "1110001100001000".to_string(),
            "1110101010000111".to_string(),
            "1111110010011000".to_string(),
            "1111010101111101".to_string(),
            "1110001100000001".to_string(),
        ]
    );
}

#[test]
fn source_is_read_with_the_numbers_of_its_lines() {
    let input: Vec<String> = ["// start", "@1", "", "(L)", "  D=A // x", "@L"]
        .iter()
        .map(|line| line.to_string())
        .collect();
    let (lines, origins) = parse_lines(&input).unwrap();
    assert_eq!(
        lines,
        vec![
            HackLine::AImmediate(1),
            HackLine::Label("L".to_string()),
            HackLine::C(Computation::X(AM::A), Destination::D, Jump::Null),
            HackLine::ALocation("L".to_string()),
        ]
    );
    assert_eq!(origins, vec![1, 3, 4, 5]);
}

#[test]
fn source_with_a_fault_gives_the_first_one() {
    let input: Vec<String> = ["@1", "", "D;JMP;", "=", "D=A"]
        .iter()
        .map(|line| line.to_string())
        .collect();
    assert_eq!(
        parse_lines(&input),
        Err(AssembleError::Parse {
            line: 2,
            error: ParseError {
                fault: Fault::MultipleSemicolons,
                token: ";".to_string(),
                line: "D;JMP;".to_string(),
            },
        })
    );
}

use hack_assembler::mnemonic::{Computation, Destination, Jump, AM};

fn computation_table() -> Vec<(&'static str, Computation, &'static str)> {
    vec![
        ("0", Computation::Zero, "0101010"),
        ("1", Computation::One, "0111111"),
        ("-1", Computation::Neg1, "0111010"),
        ("D", Computation::D, "0001100"),
        ("A", Computation::X(AM::A), "0110000"),
        ("M", Computation::X(AM::M), "1110000"),
        ("!D", Computation::NotD, "0001101"),
        ("!A", Computation::NotX(AM::A), "0110001"),
        ("!M", Computation::NotX(AM::M), "1110001"),
        ("-D", Computation::NegD, "0001111"),
        ("-A", Computation::NegX(AM::A), "0110011"),
        ("-M", Computation::NegX(AM::M), "1110011"),
        ("D+1", Computation::DPlusOne, "0011111"),
        ("A+1", Computation::XPlusOne(AM::A), "0110111"),
        ("M+1", Computation::XPlusOne(AM::M), "1110111"),
        ("D-1", Computation::DMinusOne, "0001110"),
        ("A-1", Computation::XMinusOne(AM::A), "0110010"),
        ("M-1", Computation::XMinusOne(AM::M), "1110010"),
        ("D+A", Computation::DPlusX(AM::A), "0000010"),
        ("D+M", Computation::DPlusX(AM::M), "1000010"),
        ("D-A", Computation::DMinusX(AM::A), "0010011"),
        ("D-M", Computation::DMinusX(AM::M), "1010011"),
        ("A-D", Computation::XMinusD(AM::A), "0000111"),
        ("M-D", Computation::XMinusD(AM::M), "1000111"),
        ("D&A", Computation::DAndX(AM::A), "0000000"),
        ("D&M", Computation::DAndX(AM::M), "1000000"),
        ("D|A", Computation::DOrX(AM::A), "0010101"),
        ("D|M", Computation::DOrX(AM::M), "1010101"),
    ]
}

fn destination_table() -> Vec<(&'static str, Destination, &'static str)> {
    vec![
        ("M", Destination::M, "001"),
        ("D", Destination::D, "010"),
        ("MD", Destination::MD, "011"),
        ("A", Destination::A, "100"),
        ("AM", Destination::AM, "101"),
        ("AD", Destination::AD, "110"),
        ("AMD", Destination::AMD, "111"),
    ]
}

fn jump_table() -> Vec<(&'static str, Jump, &'static str)> {
    vec![
        ("JGT", Jump::JGT, "001"),
        ("JEQ", Jump::JEQ, "010"),
        ("JGE", Jump::JGE, "011"),
        ("JLT", Jump::JLT, "100"),
        ("JNE", Jump::JNE, "101"),
        ("JLE", Jump::JLE, "110"),
        ("JMP", Jump::JMP, "111"),
    ]
}

#[test]
fn every_computation_mnemonic_is_read() {
    let table = computation_table();
    assert_eq!(table.len(), 28);
    for (text, computation, _) in table {
        assert_eq!(Computation::from_str(text), Some(computation), "{}", text);
    }
}

#[test]
fn every_computation_has_its_code() {
    for (text, computation, bits) in computation_table() {
        let mut out = String::new();
        computation.assemble(&mut out);
        assert_eq!(out, bits, "{}", text);
    }
}

#[test]
fn computation_is_appended_to_what_is_there() {
    let mut out = String::from("111");
    Computation::DPlusX(AM::M).assemble(&mut out);
    assert_eq!(out, "1111000010");
}

#[test]
fn other_texts_name_no_computation() {
    let others = [
        "", " ", "d", "a", "m", "2", "+1", "1+D", "A+D", "M+D", "A+M", "D+D", "D +1", "D+1 ", "!0",
        "--D", "D&&A", "Null", "D+A+M", "X",
    ];
    for text in others {
        assert_eq!(Computation::from_str(text), None, "{:?}", text);
    }
}

#[test]
fn every_destination_mnemonic_is_read() {
    assert_eq!(destination_table().len(), 7);
    for (text, destination, _) in destination_table() {
        assert_eq!(Destination::from_str(text), Some(destination), "{}", text);
    }
}

#[test]
fn every_destination_has_its_code() {
    for (text, destination, bits) in destination_table() {
        let mut out = String::new();
        destination.assemble(&mut out);
        assert_eq!(out, bits, "{}", text);
    }
}

#[test]
fn other_texts_name_no_destination() {
    let others =
        ["", "DM", "MA", "DA", "MAD", "ADM", "a", "Null", "null", "NULL", " M", "M ", "AA", "0"];
    for text in others {
        assert_eq!(Destination::from_str(text), None, "{:?}", text);
    }
}

#[test]
fn every_jump_mnemonic_is_read() {
    assert_eq!(jump_table().len(), 7);
    for (text, jump, _) in jump_table() {
        assert_eq!(Jump::from_str(text), Some(jump), "{}", text);
    }
}

#[test]
fn every_jump_has_its_code() {
    for (text, jump, bits) in jump_table() {
        let mut out = String::new();
        jump.assemble(&mut out);
        assert_eq!(out, bits, "{}", text);
    }
}

#[test]
fn other_texts_name_no_jump() {
    let others =
        ["", "JXX", "jmp", "JMP ", " JMP", "J", "JG", "JGTE", "Null", "null", "NULL", "0"];
    for text in others {
        assert_eq!(Jump::from_str(text), None, "{:?}", text);
    }
}

#[test]
fn operand_has_its_selector_bit() {
    let mut out = String::new();
    AM::A.assemble(&mut out);
    assert_eq!(out, "0");
    AM::M.assemble(&mut out);
    assert_eq!(out, "01");
}

#[test]
fn empty_destination_and_jump_have_the_code_zero() {
    let mut out = String::new();
    Destination::Null.assemble(&mut out);
    assert_eq!(out, "000");
    let mut out = String::new();
    Jump::Null.assemble(&mut out);
    assert_eq!(out, "000");
}

use hack_assembler::line::{Fault, HackLine, ParseError};
use hack_assembler::mnemonic::{Computation, Destination, Jump, AM};

fn compute(
    computation: Computation,
    destination: Destination,
    jump: Jump,
) -> Result<Option<HackLine>, ParseError> {
    Ok(Some(HackLine::C(computation, destination, jump)))
}

fn symbol(name: &str) -> Result<Option<HackLine>, ParseError> {
    Ok(Some(HackLine::ALocation(name.to_string())))
}

fn number(value: u16) -> Result<Option<HackLine>, ParseError> {
    Ok(Some(HackLine::AImmediate(value)))
}

fn refused(line: &str, fault: Fault, token: &str) -> Result<Option<HackLine>, ParseError> {
    Err(ParseError { fault, token: token.to_string(), line: line.to_string() })
}

fn label(name: &str) -> Result<Option<HackLine>, ParseError> {
    Ok(Some(HackLine::Label(name.to_string())))
}

#[test]
fn blank_line_states_nothing() {
    assert_eq!(HackLine::from_str(""), Ok(None));
    assert_eq!(HackLine::from_str("   "), Ok(None));
    assert_eq!(HackLine::from_str("\t \r"), Ok(None));
    assert_eq!(HackLine::from_str("\u{a0}\u{2003}\u{3000}"), Ok(None));
}

#[test]
fn comment_line_states_nothing() {
    assert_eq!(HackLine::from_str("// a comment"), Ok(None));
    assert_eq!(HackLine::from_str("   // D=A"), Ok(None));
    assert_eq!(HackLine::from_str("//"), Ok(None));
    assert_eq!(HackLine::from_str("///"), Ok(None));
}

#[test]
fn trailing_comment_is_dropped() {
    assert_eq!(
        HackLine::from_str("D=A // load"),
        compute(Computation::X(AM::A), Destination::D, Jump::Null)
    );
    assert_eq!(HackLine::from_str("@12//twelve"), number(12));
    assert_eq!(HackLine::from_str("(LOOP) // (END)"), label("LOOP"));
    assert_eq!(HackLine::from_str("@x // one // two"), symbol("x"));
}

#[test]
fn single_slash_is_no_comment() {
    assert_eq!(
        HackLine::from_str("D=A / D"),
        refused("D=A / D", Fault::InvalidComputation, "A / D")
    );
    assert_eq!(HackLine::from_str("@a/b"), symbol("a/b"));
}

#[test]
fn white_space_around_a_statement_is_dropped() {
    assert_eq!(HackLine::from_str("  @5  "), number(5));
    assert_eq!(
        HackLine::from_str("\t0;JMP\r"),
        compute(Computation::Zero, Destination::Null, Jump::JMP)
    );
    assert_eq!(HackLine::from_str("\u{2003}(X)\u{a0}"), label("X"));
}

#[test]
fn white_space_inside_a_statement_is_kept() {
    assert_eq!(HackLine::from_str("D = A"), refused("D = A", Fault::InvalidDestination, "D "));
    assert_eq!(HackLine::from_str("@ x"), symbol(" x"));
    assert_eq!(HackLine::from_str("( X )"), label(" X "));
}

#[test]
fn label_is_the_text_between_the_parentheses() {
    assert_eq!(HackLine::from_str("(LOOP)"), label("LOOP"));
    assert_eq!(HackLine::from_str("()"), label(""));
    assert_eq!(HackLine::from_str("((A))"), label("(A)"));
    assert_eq!(HackLine::from_str("(a.b$c:1)"), label("a.b$c:1"));
    assert_eq!(HackLine::from_str("(@x)"), label("@x"));
    assert_eq!(HackLine::from_str("(D=A)"), label("D=A"));
}

#[test]
fn open_parenthesis_alone_is_no_label() {
    assert_eq!(HackLine::from_str("(LOOP"), refused("(LOOP", Fault::InvalidComputation, "(LOOP"));
    assert_eq!(HackLine::from_str("("), refused("(", Fault::InvalidComputation, "("));
    assert_eq!(HackLine::from_str("LOOP)"), refused("LOOP)", Fault::InvalidComputation, "LOOP)"));
}

#[test]
fn address_with_a_numeral_is_a_number() {
    assert_eq!(HackLine::from_str("@0"), number(0));
    assert_eq!(HackLine::from_str("@2"), number(2));
    assert_eq!(HackLine::from_str("@32767"), number(32767));
    assert_eq!(HackLine::from_str("@32768"), number(32768));
    assert_eq!(HackLine::from_str("@65535"), number(65535));
    assert_eq!(HackLine::from_str("@007"), number(7));
    assert_eq!(HackLine::from_str("@0000000000000000065535"), number(65535));
    assert_eq!(HackLine::from_str("@+5"), number(5));
}

#[test]
fn address_with_anything_else_is_a_symbol() {
    assert_eq!(HackLine::from_str("@LOOP"), symbol("LOOP"));
    assert_eq!(HackLine::from_str("@65536"), symbol("65536"));
    assert_eq!(HackLine::from_str("@99999999999999999999"), symbol("99999999999999999999"));
    assert_eq!(HackLine::from_str("@-1"), symbol("-1"));
    assert_eq!(HackLine::from_str("@+"), symbol("+"));
    assert_eq!(HackLine::from_str("@++1"), symbol("++1"));
    assert_eq!(HackLine::from_str("@1+"), symbol("1+"));
    assert_eq!(HackLine::from_str("@12a"), symbol("12a"));
    assert_eq!(HackLine::from_str("@1 2"), symbol("1 2"));
    assert_eq!(HackLine::from_str("@"), symbol(""));
    assert_eq!(HackLine::from_str("@@5"), symbol("@5"));
    assert_eq!(HackLine::from_str("@\u{0663}"), symbol("\u{0663}"));
    assert_eq!(HackLine::from_str("@R1=2;3"), symbol("R1=2;3"));
}

#[test]
fn compute_instruction_has_up_to_three_fields() {
    assert_eq!(HackLine::from_str("D"), compute(Computation::D, Destination::Null, Jump::Null));
    assert_eq!(HackLine::from_str("M=D"), compute(Computation::D, Destination::M, Jump::Null));
    assert_eq!(HackLine::from_str("D;JGT"), compute(Computation::D, Destination::Null, Jump::JGT));
    assert_eq!(
        HackLine::from_str("MD=D+1;JGT"),
        compute(Computation::DPlusOne, Destination::MD, Jump::JGT)
    );
    assert_eq!(
        HackLine::from_str("AMD=D|M;JNE"),
        compute(Computation::DOrX(AM::M), Destination::AMD, Jump::JNE)
    );
}

#[test]
fn more_than_one_equals_sign_is_refused() {
    assert_eq!(HackLine::from_str("D==A"), refused("D==A", Fault::MultipleEquals, "="));
    assert_eq!(HackLine::from_str("D=A=M"), refused("D=A=M", Fault::MultipleEquals, "="));
    assert_eq!(HackLine::from_str("=="), refused("==", Fault::MultipleEquals, "="));
    assert_eq!(HackLine::from_str("X=Y=Z;J;K"), refused("X=Y=Z;J;K", Fault::MultipleEquals, "="));
}

#[test]
fn more_than_one_semicolon_is_refused() {
    assert_eq!(
        HackLine::from_str("D;JGT;JMP"),
        refused("D;JGT;JMP", Fault::MultipleSemicolons, ";")
    );
    assert_eq!(HackLine::from_str("D=A;;"), refused("D=A;;", Fault::MultipleSemicolons, ";"));
    assert_eq!(HackLine::from_str(";;"), refused(";;", Fault::MultipleSemicolons, ";"));
    assert_eq!(HackLine::from_str("D;=;"), refused("D;=;", Fault::InvalidDestination, "D;"));
}

#[test]
fn unknown_destination_is_refused() {
    assert_eq!(HackLine::from_str("X=D"), refused("X=D", Fault::InvalidDestination, "X"));
    assert_eq!(HackLine::from_str("=D"), refused("=D", Fault::InvalidDestination, ""));
    assert_eq!(HackLine::from_str("DM=D"), refused("DM=D", Fault::InvalidDestination, "DM"));
    assert_eq!(HackLine::from_str("md=D"), refused("md=D", Fault::InvalidDestination, "md"));
    assert_eq!(HackLine::from_str("null=D"), refused("null=D", Fault::InvalidDestination, "null"));
    assert_eq!(HackLine::from_str("X=Q;JXX"), refused("X=Q;JXX", Fault::InvalidDestination, "X"));
}

#[test]
fn unknown_jump_is_refused() {
    assert_eq!(HackLine::from_str("D;JXX"), refused("D;JXX", Fault::InvalidJump, "JXX"));
    assert_eq!(HackLine::from_str("D;"), refused("D;", Fault::InvalidJump, ""));
    assert_eq!(HackLine::from_str("D;jmp"), refused("D;jmp", Fault::InvalidJump, "jmp"));
    assert_eq!(HackLine::from_str("Q;JXX"), refused("Q;JXX", Fault::InvalidJump, "JXX"));
    assert_eq!(HackLine::from_str("M=D;J=T"), refused("M=D;J=T", Fault::MultipleEquals, "="));
}

#[test]
fn unknown_computation_is_refused() {
    assert_eq!(HackLine::from_str("D=Q"), refused("D=Q", Fault::InvalidComputation, "Q"));
    assert_eq!(HackLine::from_str("D="), refused("D=", Fault::InvalidComputation, ""));
    assert_eq!(HackLine::from_str(";JMP"), refused(";JMP", Fault::InvalidComputation, ""));
    assert_eq!(HackLine::from_str("D=A+D"), refused("D=A+D", Fault::InvalidComputation, "A+D"));
    assert_eq!(HackLine::from_str("D=M+A"), refused("D=M+A", Fault::InvalidComputation, "M+A"));
    assert_eq!(HackLine::from_str("hello"), refused("hello", Fault::InvalidComputation, "hello"));
    assert_eq!(HackLine::from_str("d"), refused("d", Fault::InvalidComputation, "d"));
    assert_eq!(HackLine::from_str("/"), refused("/", Fault::InvalidComputation, "/"));
}

#[test]
fn fault_holds_the_line_as_it_stands() {
    assert_eq!(
        HackLine::from_str("  D=Q;JMP  // what is Q?"),
        refused("  D=Q;JMP  // what is Q?", Fault::InvalidComputation, "Q")
    );
    assert_eq!(HackLine::from_str("\tA==D"), refused("\tA==D", Fault::MultipleEquals, "="));
}

#[test]
fn null_is_no_mnemonic() {
    assert_eq!(HackLine::from_str("Null=D"), refused("Null=D", Fault::InvalidDestination, "Null"));
    assert_eq!(HackLine::from_str("D;Null"), refused("D;Null", Fault::InvalidJump, "Null"));
    assert_eq!(
        HackLine::from_str("Null=-1;Null"),
        refused("Null=-1;Null", Fault::InvalidDestination, "Null")
    );
    assert_eq!(HackLine::from_str("M=D;Null"), refused("M=D;Null", Fault::InvalidJump, "Null"));
    assert_eq!(HackLine::from_str("Null"), refused("Null", Fault::InvalidComputation, "Null"));
    assert_eq!(HackLine::from_str("null=D"), refused("null=D", Fault::InvalidDestination, "null"));
    assert_eq!(HackLine::from_str("D;null"), refused("D;null", Fault::InvalidJump, "null"));
}

#[test]
fn field_left_out_is_the_empty_one() {
    assert_eq!(HackLine::from_str("-1"), compute(Computation::Neg1, Destination::Null, Jump::Null));
    assert_eq!(HackLine::from_str("A=-1"), compute(Computation::Neg1, Destination::A, Jump::Null));
    assert_eq!(
        HackLine::from_str("-1;JEQ"),
        compute(Computation::Neg1, Destination::Null, Jump::JEQ)
    );
}

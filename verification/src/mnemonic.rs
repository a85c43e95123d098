//! The three fields of a compute instruction: what is computed, where the
//! result is stored, and when to jump. Each field has a fixed set of
//! mnemonics and a fixed binary code.

use vstd::prelude::*;
use crate::bits::{append_binary, binary};

verus! {

/// The register of which a computation reads its second operand: the address
/// register `A`, or the memory word `M` that `A` points to.
#[derive(Debug, Clone, Copy, PartialEq, Eq, Structural)]
pub enum AM {
    A,
    M,
}

impl AM {
    /// The selector bit of the operand: 0 for `A`, 1 for `M`.
    pub open spec fn code(self) -> nat {
        match self {
            AM::A => 0,
            AM::M => 1,
        }
    }

    /// Appends the selector bit to `out`.
    pub fn assemble(&self, out: &mut String)
        ensures
            final(out)@ == old(out)@ + binary(self.code(), 1),
    {
        let code: usize = match self {
            AM::A => 0,
            AM::M => 1,
        };
        append_binary(out, code, 1);
    }
}

/// What the arithmetic unit computes. `X` stands for the operand that the
/// variant carries.
#[derive(Debug, Clone, Copy, PartialEq, Eq, Structural)]
pub enum Computation {
    Zero,
    One,
    Neg1,
    D,
    X(AM),
    NegD,
    NegX(AM),
    DPlusOne,
    XPlusOne(AM),
    DMinusOne,
    XMinusOne(AM),
    DPlusX(AM),
    DMinusX(AM),
    XMinusD(AM),
    NotD,
    NotX(AM),
    DAndX(AM),
    DOrX(AM),
}

impl Computation {
    /// The operand that the computation reads besides `D`, if it reads one.
    pub open spec fn operand(self) -> Option<AM> {
        match self {
            Computation::X(x)
            | Computation::NegX(x)
            | Computation::XPlusOne(x)
            | Computation::XMinusOne(x)
            | Computation::XMinusD(x)
            | Computation::DPlusX(x)
            | Computation::DMinusX(x)
            | Computation::NotX(x)
            | Computation::DAndX(x)
            | Computation::DOrX(x) => Some(x),
            _ => None,
        }
    }

    /// The selector bit: 1 where the computation reads `M`, else 0.
    pub open spec fn selector(self) -> nat {
        match self.operand() {
            Some(x) => x.code(),
            None => 0,
        }
    }

    /// The six function bits, as a number.
    pub open spec fn function(self) -> nat {
        match self {
            Computation::Zero => 0b101010,
            Computation::One => 0b111111,
            Computation::Neg1 => 0b111010,
            Computation::D => 0b001100,
            Computation::X(_) => 0b110000,
            Computation::NegD => 0b001111,
            Computation::NegX(_) => 0b110011,
            Computation::DPlusOne => 0b011111,
            Computation::XPlusOne(_) => 0b110111,
            Computation::DMinusOne => 0b001110,
            Computation::XMinusOne(_) => 0b110010,
            Computation::DPlusX(_) => 0b000010,
            Computation::DMinusX(_) => 0b010011,
            Computation::XMinusD(_) => 0b000111,
            Computation::NotD => 0b001101,
            Computation::NotX(_) => 0b110001,
            Computation::DAndX(_) => 0b000000,
            Computation::DOrX(_) => 0b010101,
        }
    }

    /// The computation that a mnemonic names, if it names one. The text must
    /// match exactly: no blanks, no other order of the operands.
    pub open spec fn of_mnemonic(text: Seq<char>) -> Option<Computation> {
        if text == "0"@ {
            Some(Computation::Zero)
        } else if text == "1"@ {
            Some(Computation::One)
        } else if text == "-1"@ {
            Some(Computation::Neg1)
        } else if text == "D"@ {
            Some(Computation::D)
        } else if text == "A"@ {
            Some(Computation::X(AM::A))
        } else if text == "M"@ {
            Some(Computation::X(AM::M))
        } else if text == "!D"@ {
            Some(Computation::NotD)
        } else if text == "!A"@ {
            Some(Computation::NotX(AM::A))
        } else if text == "!M"@ {
            Some(Computation::NotX(AM::M))
        } else if text == "-D"@ {
            Some(Computation::NegD)
        } else if text == "-A"@ {
            Some(Computation::NegX(AM::A))
        } else if text == "-M"@ {
            Some(Computation::NegX(AM::M))
        } else if text == "D+1"@ {
            Some(Computation::DPlusOne)
        } else if text == "A+1"@ {
            Some(Computation::XPlusOne(AM::A))
        } else if text == "M+1"@ {
            Some(Computation::XPlusOne(AM::M))
        } else if text == "D-1"@ {
            Some(Computation::DMinusOne)
        } else if text == "A-1"@ {
            Some(Computation::XMinusOne(AM::A))
        } else if text == "M-1"@ {
            Some(Computation::XMinusOne(AM::M))
        } else if text == "D+A"@ {
            Some(Computation::DPlusX(AM::A))
        } else if text == "D+M"@ {
            Some(Computation::DPlusX(AM::M))
        } else if text == "D-A"@ {
            Some(Computation::DMinusX(AM::A))
        } else if text == "D-M"@ {
            Some(Computation::DMinusX(AM::M))
        } else if text == "A-D"@ {
            Some(Computation::XMinusD(AM::A))
        } else if text == "M-D"@ {
            Some(Computation::XMinusD(AM::M))
        } else if text == "D&A"@ {
            Some(Computation::DAndX(AM::A))
        } else if text == "D&M"@ {
            Some(Computation::DAndX(AM::M))
        } else if text == "D|A"@ {
            Some(Computation::DOrX(AM::A))
        } else if text == "D|M"@ {
            Some(Computation::DOrX(AM::M))
        } else {
            None
        }
    }

    /// Reads a computation mnemonic.
    pub fn from_str(s: &str) -> (found: Option<Computation>)
        ensures
            found == Computation::of_mnemonic(s@),
    {
        if s.eq("0") {
            Some(Computation::Zero)
        } else if s.eq("1") {
            Some(Computation::One)
        } else if s.eq("-1") {
            Some(Computation::Neg1)
        } else if s.eq("D") {
            Some(Computation::D)
        } else if s.eq("A") {
            Some(Computation::X(AM::A))
        } else if s.eq("M") {
            Some(Computation::X(AM::M))
        } else if s.eq("!D") {
            Some(Computation::NotD)
        } else if s.eq("!A") {
            Some(Computation::NotX(AM::A))
        } else if s.eq("!M") {
            Some(Computation::NotX(AM::M))
        } else if s.eq("-D") {
            Some(Computation::NegD)
        } else if s.eq("-A") {
            Some(Computation::NegX(AM::A))
        } else if s.eq("-M") {
            Some(Computation::NegX(AM::M))
        } else if s.eq("D+1") {
            Some(Computation::DPlusOne)
        } else if s.eq("A+1") {
            Some(Computation::XPlusOne(AM::A))
        } else if s.eq("M+1") {
            Some(Computation::XPlusOne(AM::M))
        } else if s.eq("D-1") {
            Some(Computation::DMinusOne)
        } else if s.eq("A-1") {
            Some(Computation::XMinusOne(AM::A))
        } else if s.eq("M-1") {
            Some(Computation::XMinusOne(AM::M))
        } else if s.eq("D+A") {
            Some(Computation::DPlusX(AM::A))
        } else if s.eq("D+M") {
            Some(Computation::DPlusX(AM::M))
        } else if s.eq("D-A") {
            Some(Computation::DMinusX(AM::A))
        } else if s.eq("D-M") {
            Some(Computation::DMinusX(AM::M))
        } else if s.eq("A-D") {
            Some(Computation::XMinusD(AM::A))
        } else if s.eq("M-D") {
            Some(Computation::XMinusD(AM::M))
        } else if s.eq("D&A") {
            Some(Computation::DAndX(AM::A))
        } else if s.eq("D&M") {
            Some(Computation::DAndX(AM::M))
        } else if s.eq("D|A") {
            Some(Computation::DOrX(AM::A))
        } else if s.eq("D|M") {
            Some(Computation::DOrX(AM::M))
        } else {
            None
        }
    }

    /// The seven bits of the computation: the selector bit, then the function
    /// bits.
    pub open spec fn bits(self) -> Seq<char> {
        binary(self.selector(), 1) + binary(self.function(), 6)
    }

    /// Appends the seven bits of the computation to `out`.
    pub fn assemble(&self, out: &mut String)
        ensures
            final(out)@ == old(out)@ + self.bits(),
    {
        match self {
            Computation::X(x)
            | Computation::NegX(x)
            | Computation::XPlusOne(x)
            | Computation::XMinusOne(x)
            | Computation::XMinusD(x)
            | Computation::DPlusX(x)
            | Computation::DMinusX(x)
            | Computation::NotX(x)
            | Computation::DAndX(x)
            | Computation::DOrX(x) => {
                x.assemble(out);
            },
            _ => {
                append_binary(out, 0, 1);
            },
        }
        let function: usize = match self {
            Computation::Zero => 0b101010,
            Computation::One => 0b111111,
            Computation::Neg1 => 0b111010,
            Computation::D => 0b001100,
            Computation::X(_) => 0b110000,
            Computation::NegD => 0b001111,
            Computation::NegX(_) => 0b110011,
            Computation::DPlusOne => 0b011111,
            Computation::XPlusOne(_) => 0b110111,
            Computation::DMinusOne => 0b001110,
            Computation::XMinusOne(_) => 0b110010,
            Computation::DPlusX(_) => 0b000010,
            Computation::DMinusX(_) => 0b010011,
            Computation::XMinusD(_) => 0b000111,
            Computation::NotD => 0b001101,
            Computation::NotX(_) => 0b110001,
            Computation::DAndX(_) => 0b000000,
            Computation::DOrX(_) => 0b010101,
        };
        append_binary(out, function, 6);
        assert(out@ =~= old(out)@ + self.bits());
    }
}

/// Where the result of a computation is stored: any subset of the registers
/// `A` and `D` and the memory word `M`.
#[derive(Debug, Clone, Copy, PartialEq, Eq, Structural)]
pub enum Destination {
    /// Nowhere. No mnemonic names it: the destination is left out.
    Null,
    M,
    D,
    MD,
    A,
    AM,
    AD,
    AMD,
}

impl Destination {
    /// Whether the result is stored in `A`.
    pub open spec fn writes_a(self) -> bool {
        self is A || self is AM || self is AD || self is AMD
    }

    /// Whether the result is stored in `D`.
    pub open spec fn writes_d(self) -> bool {
        self is D || self is MD || self is AD || self is AMD
    }

    /// Whether the result is stored in `M`.
    pub open spec fn writes_m(self) -> bool {
        self is M || self is MD || self is AM || self is AMD
    }

    /// The three destination bits, as a number.
    pub open spec fn code(self) -> nat {
        match self {
            Destination::Null => 0,
            Destination::M => 1,
            Destination::D => 2,
            Destination::MD => 3,
            Destination::A => 4,
            Destination::AM => 5,
            Destination::AD => 6,
            Destination::AMD => 7,
        }
    }

    /// The destination that a mnemonic names, if it names one. There are
    /// seven mnemonics, one for each set of registers that is not empty. The
    /// empty destination has none: it is written by leaving the destination
    /// out.
    pub open spec fn of_mnemonic(text: Seq<char>) -> Option<Destination> {
        if text == "M"@ {
            Some(Destination::M)
        } else if text == "D"@ {
            Some(Destination::D)
        } else if text == "MD"@ {
            Some(Destination::MD)
        } else if text == "A"@ {
            Some(Destination::A)
        } else if text == "AM"@ {
            Some(Destination::AM)
        } else if text == "AD"@ {
            Some(Destination::AD)
        } else if text == "AMD"@ {
            Some(Destination::AMD)
        } else {
            None
        }
    }

    /// Reads a destination mnemonic.
    pub fn from_str(s: &str) -> (found: Option<Destination>)
        ensures
            found == Destination::of_mnemonic(s@),
    {
        if s.eq("M") {
            Some(Destination::M)
        } else if s.eq("D") {
            Some(Destination::D)
        } else if s.eq("MD") {
            Some(Destination::MD)
        } else if s.eq("A") {
            Some(Destination::A)
        } else if s.eq("AM") {
            Some(Destination::AM)
        } else if s.eq("AD") {
            Some(Destination::AD)
        } else if s.eq("AMD") {
            Some(Destination::AMD)
        } else {
            None
        }
    }

    /// Appends the three destination bits to `out`.
    pub fn assemble(&self, out: &mut String)
        ensures
            final(out)@ == old(out)@ + binary(self.code(), 3),
    {
        let code: usize = match self {
            Destination::Null => 0,
            Destination::M => 1,
            Destination::D => 2,
            Destination::MD => 3,
            Destination::A => 4,
            Destination::AM => 5,
            Destination::AD => 6,
            Destination::AMD => 7,
        };
        append_binary(out, code, 3);
    }
}

/// In the destination code the bit of weight four stands for `A`, the bit of
/// weight two for `D` and the bit of weight one for `M`.
pub proof fn lemma_destination_code_is_write_mask(destination: Destination)
    ensures
        destination.code() == (if destination.writes_a() {
            4nat
        } else {
            0nat
        }) + (if destination.writes_d() {
            2nat
        } else {
            0nat
        }) + (if destination.writes_m() {
            1nat
        } else {
            0nat
        }),
{
}

/// No text names the empty destination: a text that is read as a destination
/// is one of the seven mnemonics, and stands for a set of registers that is
/// not empty.
pub proof fn lemma_destination_mnemonics(text: Seq<char>)
    ensures
        Destination::of_mnemonic(text) != Some(Destination::Null),
        Destination::of_mnemonic(text) is Some <==> {
            ||| text == "M"@
            ||| text == "D"@
            ||| text == "MD"@
            ||| text == "A"@
            ||| text == "AM"@
            ||| text == "AD"@
            ||| text == "AMD"@
        },
{
}

/// The condition, on the result of the computation, under which the machine
/// jumps to the instruction that `A` addresses.
#[derive(Debug, Clone, Copy, PartialEq, Eq, Structural)]
pub enum Jump {
    /// Never. No mnemonic names it: the jump is left out.
    Null,
    JGT,
    JEQ,
    JGE,
    JLT,
    JNE,
    JLE,
    JMP,
}

impl Jump {
    /// The three jump bits, as a number.
    pub open spec fn code(self) -> nat {
        match self {
            Jump::Null => 0,
            Jump::JGT => 1,
            Jump::JEQ => 2,
            Jump::JGE => 3,
            Jump::JLT => 4,
            Jump::JNE => 5,
            Jump::JLE => 6,
            Jump::JMP => 7,
        }
    }

    /// The jump that a mnemonic names, if it names one. There are seven
    /// mnemonics, one for each condition. The instruction that never jumps
    /// has none: it is written by leaving the jump out.
    pub open spec fn of_mnemonic(text: Seq<char>) -> Option<Jump> {
        if text == "JGT"@ {
            Some(Jump::JGT)
        } else if text == "JEQ"@ {
            Some(Jump::JEQ)
        } else if text == "JGE"@ {
            Some(Jump::JGE)
        } else if text == "JLT"@ {
            Some(Jump::JLT)
        } else if text == "JNE"@ {
            Some(Jump::JNE)
        } else if text == "JLE"@ {
            Some(Jump::JLE)
        } else if text == "JMP"@ {
            Some(Jump::JMP)
        } else {
            None
        }
    }

    /// Reads a jump mnemonic.
    pub fn from_str(s: &str) -> (found: Option<Jump>)
        ensures
            found == Jump::of_mnemonic(s@),
    {
        if s.eq("JGT") {
            Some(Jump::JGT)
        } else if s.eq("JEQ") {
            Some(Jump::JEQ)
        } else if s.eq("JGE") {
            Some(Jump::JGE)
        } else if s.eq("JLT") {
            Some(Jump::JLT)
        } else if s.eq("JNE") {
            Some(Jump::JNE)
        } else if s.eq("JLE") {
            Some(Jump::JLE)
        } else if s.eq("JMP") {
            Some(Jump::JMP)
        } else {
            None
        }
    }

    /// Appends the three jump bits to `out`.
    pub fn assemble(&self, out: &mut String)
        ensures
            final(out)@ == old(out)@ + binary(self.code(), 3),
    {
        let code: usize = match self {
            Jump::Null => 0,
            Jump::JGT => 1,
            Jump::JEQ => 2,
            Jump::JGE => 3,
            Jump::JLT => 4,
            Jump::JNE => 5,
            Jump::JLE => 6,
            Jump::JMP => 7,
        };
        append_binary(out, code, 3);
    }
}

/// No text names the jump that never happens: a text that is read as a jump
/// is one of the seven mnemonics, and stands for a condition.
pub proof fn lemma_jump_mnemonics(text: Seq<char>)
    ensures
        Jump::of_mnemonic(text) != Some(Jump::Null),
        Jump::of_mnemonic(text) is Some <==> {
            ||| text == "JGT"@
            ||| text == "JEQ"@
            ||| text == "JGE"@
            ||| text == "JLT"@
            ||| text == "JNE"@
            ||| text == "JLE"@
            ||| text == "JMP"@
        },
{
}

} // verus!

use crate::strutil::{dec_str, dec_str_signed, push_dec_i32, push_dec_usize, str_eq};
use crate::typ::{FloatType, IntType, Type};
use vstd::prelude::*;
use vstd::string::StringExecFns;

verus! {

/// A finished target program: extern-symbol names and finished functions.
#[derive(Debug)]
pub struct Program {
    pub functions: Vec<Function>,
    pub externs: Vec<String>,
}

/// One finished function: name, reserved bytes, return type, instructions and
/// its pool of string constants.
#[derive(Debug, Clone, PartialEq)]
pub struct Function {
    pub name: String,
    pub registers: usize,
    pub return_type: Type,
    pub body: Vec<Instruction>,
    pub strings: Vec<String>,
}

/// One of the sixteen architectural registers.
#[derive(Debug, Clone, Copy, PartialEq, Eq, Structural, Hash, PartialOrd, Ord)]
pub enum RegisterName {
    A,
    C,
    D,
    B,
    SP,
    BP,
    SI,
    DI,
    R8,
    R9,
    R10,
    R11,
    R12,
    R13,
    R14,
    R15,
}

/// The width at which a register is addressed.
#[derive(Debug, Clone, Copy, PartialEq, Eq, Structural, Hash, PartialOrd, Ord)]
pub enum RegisterSize {
    S64,
    S32,
    S16,
    S8,
}

/// A register name paired with an access width.
#[derive(Debug, Clone, Copy, PartialEq, Eq, Structural, Hash, PartialOrd, Ord)]
pub struct Register {
    pub name: RegisterName,
    pub size: RegisterSize,
}

/// The error returned when a register spelling is not recognised.
#[derive(Debug, Clone, PartialEq, Eq, Structural)]
pub struct InvalidRegister;

/// A destination operand: a register or one of three memory forms.
#[derive(Debug, Clone, PartialEq, Eq, Structural)]
pub enum Destination {
    Register(Register),
    Memory { data_type: DataType, at: usize },
    MemoryRegister { data_type: DataType, register: Register },
    MemoryOffset { data_type: DataType, register: Register, offset: usize, scale: usize },
}

/// A source operand: any destination form, or an immediate, a symbolic name,
/// or a raw amount.
#[derive(Debug, Clone, PartialEq)]
pub enum Source {
    Register(Register),
    Memory { data_type: DataType, at: usize },
    MemoryRegister { data_type: DataType, register: Register },
    MemoryOffset { data_type: DataType, register: Register, offset: usize, scale: usize },
    Int(i32),
    Name(String),
    Amount(usize),
}

/// The size keyword of a memory operand.
#[derive(Debug, Clone, Copy, PartialEq, Eq, Structural, PartialOrd, Ord)]
pub enum DataType {
    Byte,
    Word,
    DoubleWord,
    QuadWord,
}

/// One target instruction.
#[derive(Debug, Clone, PartialEq)]
pub enum Instruction {
    NOp,
    Mov { dest: Destination, src: Source },
    Push { src: Source },
    Pop { dest: Destination },
    Call { func: String },
    Leave,
    Ret,
    Label(String),
    Jmp { label: String },
    JOp { op: ComparisonOperator, label: String },
    Cmp { a: Source, b: Source },
    Add { dest: Destination, src: Source },
    Mul { src: Source },
    Div { src: Source },
}

/// The comparison selector of a conditional jump.
#[derive(Debug, Clone, Copy, PartialEq, Eq, Structural, PartialOrd, Ord)]
pub enum ComparisonOperator {
    Equal,
    NotEqual,
    Less,
    Greater,
    LessEqual,
    GreaterEqual,
    LessUnsigned,
    GreaterUnsigned,
    LessEqualUnsigned,
    GreaterEqualUnsigned,
}

impl Default for Instruction {
    fn default() -> (r: Self)
        ensures
            r == Instruction::NOp,
    {
        Instruction::NOp
    }
}

impl Default for Program {
    fn default() -> (r: Self)
        ensures
            r.functions@ =~= Seq::<Function>::empty(),
            r.externs@ =~= Seq::<String>::empty(),
    {
        Program { functions: Vec::new(), externs: Vec::new() }
    }
}

/// The register width that holds one scalar of the given type, if any.
pub open spec fn spec_register_size(t: Type) -> Option<RegisterSize>
    decreases t,
{
    match t {
        Type::UInt(it) => match it {
            IntType::Size => Some(RegisterSize::S32),
            IntType::S8 => Some(RegisterSize::S8),
            IntType::S16 => Some(RegisterSize::S16),
            IntType::S32 => Some(RegisterSize::S32),
            IntType::S64 => Some(RegisterSize::S64),
        },
        Type::Int(it) => match it {
            IntType::Size => Some(RegisterSize::S32),
            IntType::S8 => Some(RegisterSize::S8),
            IntType::S16 => Some(RegisterSize::S16),
            IntType::S32 => Some(RegisterSize::S32),
            IntType::S64 => Some(RegisterSize::S64),
        },
        Type::Float(ft) => match ft {
            FloatType::S32 => Some(RegisterSize::S32),
            FloatType::S64 => Some(RegisterSize::S64),
        },
        Type::Array { typ, size: _ } => spec_register_size(*typ),
        _ => None,
    }
}

/// The byte width of a register size.
pub open spec fn spec_size_bytes(s: RegisterSize) -> nat {
    match s {
        RegisterSize::S64 => 8,
        RegisterSize::S32 => 4,
        RegisterSize::S16 => 2,
        RegisterSize::S8 => 1,
    }
}

impl RegisterSize {
    /// The register width that holds one scalar of the given type, if any.
    /// `None` and `Never` have no width; arrays take their element's width.
    pub fn typ(typ: &Type) -> (r: Option<Self>)
        ensures
            r == spec_register_size(*typ),
        decreases *typ,
    {
        match typ {
            Type::UInt(inttyp) => match inttyp {
                IntType::Size => Some(Self::S32),
                IntType::S8 => Some(Self::S8),
                IntType::S16 => Some(Self::S16),
                IntType::S32 => Some(Self::S32),
                IntType::S64 => Some(Self::S64),
            },
            Type::Int(inttyp) => match inttyp {
                IntType::Size => Some(Self::S32),
                IntType::S8 => Some(Self::S8),
                IntType::S16 => Some(Self::S16),
                IntType::S32 => Some(Self::S32),
                IntType::S64 => Some(Self::S64),
            },
            Type::Float(floattyp) => match floattyp {
                FloatType::S32 => Some(Self::S32),
                FloatType::S64 => Some(Self::S64),
            },
            Type::Array { typ, size: _ } => Self::typ(typ),
            _ => None,
        }
    }

    /// The byte width of this register size.
    pub fn bytes(&self) -> (r: usize)
        ensures
            r == spec_size_bytes(*self),
    {
        match self {
            RegisterSize::S64 => 8,
            RegisterSize::S32 => 4,
            RegisterSize::S16 => 2,
            RegisterSize::S8 => 1,
        }
    }
}

/// The register selected by an index, if the index names one.
pub open spec fn spec_register_name_from(value: u8) -> Result<RegisterName, ()> {
    if value == 0 {
        Ok(RegisterName::A)
    } else if value == 1 {
        Ok(RegisterName::B)
    } else if value == 2 {
        Ok(RegisterName::C)
    } else if value == 3 {
        Ok(RegisterName::D)
    } else if value == 4 {
        Ok(RegisterName::SI)
    } else if value == 5 {
        Ok(RegisterName::DI)
    } else if value == 6 {
        Ok(RegisterName::R8)
    } else if value == 7 {
        Ok(RegisterName::R9)
    } else if value == 8 {
        Ok(RegisterName::R10)
    } else if value == 9 {
        Ok(RegisterName::R11)
    } else if value == 10 {
        Ok(RegisterName::R12)
    } else if value == 11 {
        Ok(RegisterName::R13)
    } else if value == 12 {
        Ok(RegisterName::R14)
    } else if value == 13 {
        Ok(RegisterName::R15)
    } else {
        Err(())
    }
}

impl RegisterName {
    /// Selects a register by index; `SP` and `BP` have no index.
    pub fn try_from(value: u8) -> (r: Result<Self, ()>)
        ensures
            r == spec_register_name_from(value),
    {
        match value {
            0 => Ok(Self::A),
            1 => Ok(Self::B),
            2 => Ok(Self::C),
            3 => Ok(Self::D),
            4 => Ok(Self::SI),
            5 => Ok(Self::DI),
            6 => Ok(Self::R8),
            7 => Ok(Self::R9),
            8 => Ok(Self::R10),
            9 => Ok(Self::R11),
            10 => Ok(Self::R12),
            11 => Ok(Self::R13),
            12 => Ok(Self::R14),
            13 => Ok(Self::R15),
            _ => Err(()),
        }
    }
}

/// The bare spelling of a register name.
pub open spec fn reg_name_text(n: RegisterName) -> Seq<char> {
    match n {
        RegisterName::A => "a"@,
        RegisterName::C => "c"@,
        RegisterName::D => "d"@,
        RegisterName::B => "b"@,
        RegisterName::SP => "sp"@,
        RegisterName::BP => "bp"@,
        RegisterName::SI => "si"@,
        RegisterName::DI => "di"@,
        RegisterName::R8 => "r8"@,
        RegisterName::R9 => "r9"@,
        RegisterName::R10 => "r10"@,
        RegisterName::R11 => "r11"@,
        RegisterName::R12 => "r12"@,
        RegisterName::R13 => "r13"@,
        RegisterName::R14 => "r14"@,
        RegisterName::R15 => "r15"@,
    }
}

/// The rendered spelling of a register at a width. The four legacy names
/// take `r_x`/`e_x`/`_x`/`_l` forms; `sp`, `bp`, `si`, `di` take
/// `r_`/`e_`/`_`/`_l`; the numbered set prefixes `r` and suffixes
/// nothing/`d`/`w`/`b`.
pub open spec fn register_text(r: Register) -> Seq<char> {
    let nm = reg_name_text(r.name);
    match r.name {
        RegisterName::A | RegisterName::C | RegisterName::D | RegisterName::B => match r.size {
            RegisterSize::S64 => "r"@ + nm + "x"@,
            RegisterSize::S32 => "e"@ + nm + "x"@,
            RegisterSize::S16 => nm + "x"@,
            RegisterSize::S8 => nm + "l"@,
        },
        RegisterName::SP | RegisterName::BP | RegisterName::SI | RegisterName::DI => match r.size {
            RegisterSize::S64 => "r"@ + nm,
            RegisterSize::S32 => "e"@ + nm,
            RegisterSize::S16 => nm,
            RegisterSize::S8 => nm + "l"@,
        },
        _ => match r.size {
            RegisterSize::S64 => "r"@ + nm,
            RegisterSize::S32 => "r"@ + nm + "d"@,
            RegisterSize::S16 => "r"@ + nm + "w"@,
            RegisterSize::S8 => "r"@ + nm + "b"@,
        },
    }
}

/// The bare spelling of a register name.
fn reg_name_str(n: &RegisterName) -> (r: &'static str)
    ensures
        r@ == reg_name_text(*n),
{
    match n {
        RegisterName::A => "a",
        RegisterName::C => "c",
        RegisterName::D => "d",
        RegisterName::B => "b",
        RegisterName::SP => "sp",
        RegisterName::BP => "bp",
        RegisterName::SI => "si",
        RegisterName::DI => "di",
        RegisterName::R8 => "r8",
        RegisterName::R9 => "r9",
        RegisterName::R10 => "r10",
        RegisterName::R11 => "r11",
        RegisterName::R12 => "r12",
        RegisterName::R13 => "r13",
        RegisterName::R14 => "r14",
        RegisterName::R15 => "r15",
    }
}

/// The register named by an assembly spelling, if it is recognised.
pub open spec fn spec_register_from_str(s: Seq<char>) -> Result<Register, InvalidRegister> {
    if s == "rax"@ {
        Ok(Register { name: RegisterName::A, size: RegisterSize::S64 })
    } else if s == "eax"@ {
        Ok(Register { name: RegisterName::A, size: RegisterSize::S32 })
    } else if s == "ax"@ {
        Ok(Register { name: RegisterName::A, size: RegisterSize::S16 })
    } else if s == "al"@ {
        Ok(Register { name: RegisterName::A, size: RegisterSize::S8 })
    } else if s == "rbx"@ {
        Ok(Register { name: RegisterName::B, size: RegisterSize::S64 })
    } else if s == "ebx"@ {
        Ok(Register { name: RegisterName::B, size: RegisterSize::S32 })
    } else if s == "bx"@ {
        Ok(Register { name: RegisterName::B, size: RegisterSize::S16 })
    } else if s == "bl"@ {
        Ok(Register { name: RegisterName::B, size: RegisterSize::S8 })
    } else if s == "rcx"@ {
        Ok(Register { name: RegisterName::C, size: RegisterSize::S64 })
    } else if s == "ecx"@ {
        Ok(Register { name: RegisterName::C, size: RegisterSize::S32 })
    } else if s == "cx"@ {
        Ok(Register { name: RegisterName::C, size: RegisterSize::S16 })
    } else if s == "cl"@ {
        Ok(Register { name: RegisterName::C, size: RegisterSize::S8 })
    } else if s == "rdx"@ {
        Ok(Register { name: RegisterName::D, size: RegisterSize::S64 })
    } else if s == "edx"@ {
        Ok(Register { name: RegisterName::D, size: RegisterSize::S32 })
    } else if s == "dx"@ {
        Ok(Register { name: RegisterName::D, size: RegisterSize::S16 })
    } else if s == "dl"@ {
        Ok(Register { name: RegisterName::D, size: RegisterSize::S8 })
    } else if s == "rsp"@ {
        Ok(Register { name: RegisterName::SP, size: RegisterSize::S64 })
    } else if s == "esp"@ {
        Ok(Register { name: RegisterName::SP, size: RegisterSize::S32 })
    } else if s == "sp"@ {
        Ok(Register { name: RegisterName::SP, size: RegisterSize::S16 })
    } else if s == "spl"@ {
        Ok(Register { name: RegisterName::SP, size: RegisterSize::S8 })
    } else if s == "rbp"@ {
        Ok(Register { name: RegisterName::BP, size: RegisterSize::S64 })
    } else if s == "ebp"@ {
        Ok(Register { name: RegisterName::BP, size: RegisterSize::S32 })
    } else if s == "bp"@ {
        Ok(Register { name: RegisterName::BP, size: RegisterSize::S16 })
    } else if s == "bpl"@ {
        Ok(Register { name: RegisterName::BP, size: RegisterSize::S8 })
    } else if s == "rsi"@ {
        Ok(Register { name: RegisterName::SI, size: RegisterSize::S64 })
    } else if s == "esi"@ {
        Ok(Register { name: RegisterName::SI, size: RegisterSize::S32 })
    } else if s == "si"@ {
        Ok(Register { name: RegisterName::SI, size: RegisterSize::S16 })
    } else if s == "sil"@ {
        Ok(Register { name: RegisterName::SI, size: RegisterSize::S8 })
    } else if s == "rdi"@ {
        Ok(Register { name: RegisterName::DI, size: RegisterSize::S64 })
    } else if s == "edi"@ {
        Ok(Register { name: RegisterName::DI, size: RegisterSize::S32 })
    } else if s == "di"@ {
        Ok(Register { name: RegisterName::DI, size: RegisterSize::S16 })
    } else if s == "dil"@ {
        Ok(Register { name: RegisterName::DI, size: RegisterSize::S8 })
    } else if s == "r9"@ {
        Ok(Register { name: RegisterName::R9, size: RegisterSize::S64 })
    } else if s == "r9d"@ {
        Ok(Register { name: RegisterName::R9, size: RegisterSize::S32 })
    } else if s == "r9w"@ {
        Ok(Register { name: RegisterName::R9, size: RegisterSize::S16 })
    } else if s == "r9b"@ {
        Ok(Register { name: RegisterName::R9, size: RegisterSize::S8 })
    } else if s == "r10"@ {
        Ok(Register { name: RegisterName::R10, size: RegisterSize::S64 })
    } else if s == "r10d"@ {
        Ok(Register { name: RegisterName::R10, size: RegisterSize::S32 })
    } else if s == "r10w"@ {
        Ok(Register { name: RegisterName::R10, size: RegisterSize::S16 })
    } else if s == "r10b"@ {
        Ok(Register { name: RegisterName::R10, size: RegisterSize::S8 })
    } else if s == "r11"@ {
        Ok(Register { name: RegisterName::R11, size: RegisterSize::S64 })
    } else if s == "r11d"@ {
        Ok(Register { name: RegisterName::R11, size: RegisterSize::S32 })
    } else if s == "r11w"@ {
        Ok(Register { name: RegisterName::R11, size: RegisterSize::S16 })
    } else if s == "r11b"@ {
        Ok(Register { name: RegisterName::R11, size: RegisterSize::S8 })
    } else if s == "r12"@ {
        Ok(Register { name: RegisterName::R12, size: RegisterSize::S64 })
    } else if s == "r12d"@ {
        Ok(Register { name: RegisterName::R12, size: RegisterSize::S32 })
    } else if s == "r12w"@ {
        Ok(Register { name: RegisterName::R12, size: RegisterSize::S16 })
    } else if s == "r12b"@ {
        Ok(Register { name: RegisterName::R12, size: RegisterSize::S8 })
    } else if s == "r13"@ {
        Ok(Register { name: RegisterName::R13, size: RegisterSize::S64 })
    } else if s == "r13d"@ {
        Ok(Register { name: RegisterName::R13, size: RegisterSize::S32 })
    } else if s == "r13w"@ {
        Ok(Register { name: RegisterName::R13, size: RegisterSize::S16 })
    } else if s == "r13b"@ {
        Ok(Register { name: RegisterName::R13, size: RegisterSize::S8 })
    } else if s == "r14"@ {
        Ok(Register { name: RegisterName::R14, size: RegisterSize::S64 })
    } else if s == "r14d"@ {
        Ok(Register { name: RegisterName::R14, size: RegisterSize::S32 })
    } else if s == "r14w"@ {
        Ok(Register { name: RegisterName::R14, size: RegisterSize::S16 })
    } else if s == "r14b"@ {
        Ok(Register { name: RegisterName::R14, size: RegisterSize::S8 })
    } else if s == "r15"@ {
        Ok(Register { name: RegisterName::R15, size: RegisterSize::S64 })
    } else if s == "r15d"@ {
        Ok(Register { name: RegisterName::R15, size: RegisterSize::S32 })
    } else if s == "r15w"@ {
        Ok(Register { name: RegisterName::R15, size: RegisterSize::S16 })
    } else if s == "r15b"@ {
        Ok(Register { name: RegisterName::R15, size: RegisterSize::S8 })
    } else {
        Err(InvalidRegister)
    }
}

impl Register {
    /// Renders the register spelling at its width.
    pub fn render(&self) -> (out: String)
        ensures
            out@ == register_text(*self),
    {
        let mut out = String::new();
        let legacy = match self.name {
            RegisterName::A | RegisterName::C | RegisterName::D | RegisterName::B => true,
            _ => false,
        };
        let extended = match self.name {
            RegisterName::SP | RegisterName::BP | RegisterName::SI | RegisterName::DI => true,
            _ => false,
        };
        if legacy {
            match self.size {
                RegisterSize::S64 => {
                    out.append("r");
                    out.append(reg_name_str(&self.name));
                    out.append("x");
                },
                RegisterSize::S32 => {
                    out.append("e");
                    out.append(reg_name_str(&self.name));
                    out.append("x");
                },
                RegisterSize::S16 => {
                    out.append(reg_name_str(&self.name));
                    out.append("x");
                },
                RegisterSize::S8 => {
                    out.append(reg_name_str(&self.name));
                    out.append("l");
                },
            }
        } else if extended {
            match self.size {
                RegisterSize::S64 => {
                    out.append("r");
                    out.append(reg_name_str(&self.name));
                },
                RegisterSize::S32 => {
                    out.append("e");
                    out.append(reg_name_str(&self.name));
                },
                RegisterSize::S16 => {
                    out.append(reg_name_str(&self.name));
                },
                RegisterSize::S8 => {
                    out.append(reg_name_str(&self.name));
                    out.append("l");
                },
            }
        } else {
            out.append("r");
            out.append(reg_name_str(&self.name));
            match self.size {
                RegisterSize::S64 => {},
                RegisterSize::S32 => {
                    out.append("d");
                },
                RegisterSize::S16 => {
                    out.append("w");
                },
                RegisterSize::S8 => {
                    out.append("b");
                },
            }
        }
        proof {
            assert(out@ =~= register_text(*self));
        }
        out
    }

    /// Parses an assembly register spelling (`rax`, `eax`, `r9d`, ...).
    pub fn from_str(s: &str) -> (r: Result<Register, InvalidRegister>)
        ensures
            r == spec_register_from_str(s@),
    {
        if str_eq(s, "rax") {
            Ok(Register { name: RegisterName::A, size: RegisterSize::S64 })
        } else if str_eq(s, "eax") {
            Ok(Register { name: RegisterName::A, size: RegisterSize::S32 })
        } else if str_eq(s, "ax") {
            Ok(Register { name: RegisterName::A, size: RegisterSize::S16 })
        } else if str_eq(s, "al") {
            Ok(Register { name: RegisterName::A, size: RegisterSize::S8 })
        } else if str_eq(s, "rbx") {
            Ok(Register { name: RegisterName::B, size: RegisterSize::S64 })
        } else if str_eq(s, "ebx") {
            Ok(Register { name: RegisterName::B, size: RegisterSize::S32 })
        } else if str_eq(s, "bx") {
            Ok(Register { name: RegisterName::B, size: RegisterSize::S16 })
        } else if str_eq(s, "bl") {
            Ok(Register { name: RegisterName::B, size: RegisterSize::S8 })
        } else if str_eq(s, "rcx") {
            Ok(Register { name: RegisterName::C, size: RegisterSize::S64 })
        } else if str_eq(s, "ecx") {
            Ok(Register { name: RegisterName::C, size: RegisterSize::S32 })
        } else if str_eq(s, "cx") {
            Ok(Register { name: RegisterName::C, size: RegisterSize::S16 })
        } else if str_eq(s, "cl") {
            Ok(Register { name: RegisterName::C, size: RegisterSize::S8 })
        } else if str_eq(s, "rdx") {
            Ok(Register { name: RegisterName::D, size: RegisterSize::S64 })
        } else if str_eq(s, "edx") {
            Ok(Register { name: RegisterName::D, size: RegisterSize::S32 })
        } else if str_eq(s, "dx") {
            Ok(Register { name: RegisterName::D, size: RegisterSize::S16 })
        } else if str_eq(s, "dl") {
            Ok(Register { name: RegisterName::D, size: RegisterSize::S8 })
        } else if str_eq(s, "rsp") {
            Ok(Register { name: RegisterName::SP, size: RegisterSize::S64 })
        } else if str_eq(s, "esp") {
            Ok(Register { name: RegisterName::SP, size: RegisterSize::S32 })
        } else if str_eq(s, "sp") {
            Ok(Register { name: RegisterName::SP, size: RegisterSize::S16 })
        } else if str_eq(s, "spl") {
            Ok(Register { name: RegisterName::SP, size: RegisterSize::S8 })
        } else if str_eq(s, "rbp") {
            Ok(Register { name: RegisterName::BP, size: RegisterSize::S64 })
        } else if str_eq(s, "ebp") {
            Ok(Register { name: RegisterName::BP, size: RegisterSize::S32 })
        } else if str_eq(s, "bp") {
            Ok(Register { name: RegisterName::BP, size: RegisterSize::S16 })
        } else if str_eq(s, "bpl") {
            Ok(Register { name: RegisterName::BP, size: RegisterSize::S8 })
        } else if str_eq(s, "rsi") {
            Ok(Register { name: RegisterName::SI, size: RegisterSize::S64 })
        } else if str_eq(s, "esi") {
            Ok(Register { name: RegisterName::SI, size: RegisterSize::S32 })
        } else if str_eq(s, "si") {
            Ok(Register { name: RegisterName::SI, size: RegisterSize::S16 })
        } else if str_eq(s, "sil") {
            Ok(Register { name: RegisterName::SI, size: RegisterSize::S8 })
        } else if str_eq(s, "rdi") {
            Ok(Register { name: RegisterName::DI, size: RegisterSize::S64 })
        } else if str_eq(s, "edi") {
            Ok(Register { name: RegisterName::DI, size: RegisterSize::S32 })
        } else if str_eq(s, "di") {
            Ok(Register { name: RegisterName::DI, size: RegisterSize::S16 })
        } else if str_eq(s, "dil") {
            Ok(Register { name: RegisterName::DI, size: RegisterSize::S8 })
        } else if str_eq(s, "r9") {
            Ok(Register { name: RegisterName::R9, size: RegisterSize::S64 })
        } else if str_eq(s, "r9d") {
            Ok(Register { name: RegisterName::R9, size: RegisterSize::S32 })
        } else if str_eq(s, "r9w") {
            Ok(Register { name: RegisterName::R9, size: RegisterSize::S16 })
        } else if str_eq(s, "r9b") {
            Ok(Register { name: RegisterName::R9, size: RegisterSize::S8 })
        } else if str_eq(s, "r10") {
            Ok(Register { name: RegisterName::R10, size: RegisterSize::S64 })
        } else if str_eq(s, "r10d") {
            Ok(Register { name: RegisterName::R10, size: RegisterSize::S32 })
        } else if str_eq(s, "r10w") {
            Ok(Register { name: RegisterName::R10, size: RegisterSize::S16 })
        } else if str_eq(s, "r10b") {
            Ok(Register { name: RegisterName::R10, size: RegisterSize::S8 })
        } else if str_eq(s, "r11") {
            Ok(Register { name: RegisterName::R11, size: RegisterSize::S64 })
        } else if str_eq(s, "r11d") {
            Ok(Register { name: RegisterName::R11, size: RegisterSize::S32 })
        } else if str_eq(s, "r11w") {
            Ok(Register { name: RegisterName::R11, size: RegisterSize::S16 })
        } else if str_eq(s, "r11b") {
            Ok(Register { name: RegisterName::R11, size: RegisterSize::S8 })
        } else if str_eq(s, "r12") {
            Ok(Register { name: RegisterName::R12, size: RegisterSize::S64 })
        } else if str_eq(s, "r12d") {
            Ok(Register { name: RegisterName::R12, size: RegisterSize::S32 })
        } else if str_eq(s, "r12w") {
            Ok(Register { name: RegisterName::R12, size: RegisterSize::S16 })
        } else if str_eq(s, "r12b") {
            Ok(Register { name: RegisterName::R12, size: RegisterSize::S8 })
        } else if str_eq(s, "r13") {
            Ok(Register { name: RegisterName::R13, size: RegisterSize::S64 })
        } else if str_eq(s, "r13d") {
            Ok(Register { name: RegisterName::R13, size: RegisterSize::S32 })
        } else if str_eq(s, "r13w") {
            Ok(Register { name: RegisterName::R13, size: RegisterSize::S16 })
        } else if str_eq(s, "r13b") {
            Ok(Register { name: RegisterName::R13, size: RegisterSize::S8 })
        } else if str_eq(s, "r14") {
            Ok(Register { name: RegisterName::R14, size: RegisterSize::S64 })
        } else if str_eq(s, "r14d") {
            Ok(Register { name: RegisterName::R14, size: RegisterSize::S32 })
        } else if str_eq(s, "r14w") {
            Ok(Register { name: RegisterName::R14, size: RegisterSize::S16 })
        } else if str_eq(s, "r14b") {
            Ok(Register { name: RegisterName::R14, size: RegisterSize::S8 })
        } else if str_eq(s, "r15") {
            Ok(Register { name: RegisterName::R15, size: RegisterSize::S64 })
        } else if str_eq(s, "r15d") {
            Ok(Register { name: RegisterName::R15, size: RegisterSize::S32 })
        } else if str_eq(s, "r15w") {
            Ok(Register { name: RegisterName::R15, size: RegisterSize::S16 })
        } else if str_eq(s, "r15b") {
            Ok(Register { name: RegisterName::R15, size: RegisterSize::S8 })
        } else {
            Err(InvalidRegister)
        }
    }
}

impl From<Destination> for Source {
    /// Widens a destination operand into a source operand, form for form.
    fn from(value: Destination) -> (r: Self) {
        match value {
            Destination::Register(register) => Self::Register(register),
            Destination::Memory { data_type, at } => Self::Memory { data_type, at },
            Destination::MemoryRegister { data_type, register } => Self::MemoryRegister {
                data_type,
                register,
            },
            Destination::MemoryOffset { data_type, register, offset, scale } => {
                Self::MemoryOffset { data_type, register, offset, scale }
            },
        }
    }
}

impl vstd::std_specs::convert::FromSpecImpl<Destination> for Source {
    open spec fn obeys_from_spec() -> bool {
        true
    }

    open spec fn from_spec(value: Destination) -> Source {
        match value {
            Destination::Register(register) => Source::Register(register),
            Destination::Memory { data_type, at } => Source::Memory { data_type, at },
            Destination::MemoryRegister { data_type, register } => Source::MemoryRegister {
                data_type,
                register,
            },
            Destination::MemoryOffset { data_type, register, offset, scale } => {
                Source::MemoryOffset { data_type, register, offset, scale }
            },
        }
    }
}

/// A source operand with its symbolic name taken as plain text.
pub ghost enum SrcView {
    Register(Register),
    Memory { data_type: DataType, at: usize },
    MemoryRegister { data_type: DataType, register: Register },
    MemoryOffset { data_type: DataType, register: Register, offset: usize, scale: usize },
    Int(i32),
    Name(Seq<char>),
    Amount(usize),
}

/// The abstract value of a source operand.
pub open spec fn src_view(s: Source) -> SrcView {
    match s {
        Source::Register(register) => SrcView::Register(register),
        Source::Memory { data_type, at } => SrcView::Memory { data_type, at },
        Source::MemoryRegister { data_type, register } => SrcView::MemoryRegister {
            data_type,
            register,
        },
        Source::MemoryOffset { data_type, register, offset, scale } => SrcView::MemoryOffset {
            data_type,
            register,
            offset,
            scale,
        },
        Source::Int(v) => SrcView::Int(v),
        Source::Name(n) => SrcView::Name(n@),
        Source::Amount(a) => SrcView::Amount(a),
    }
}

/// An instruction with its text fields taken as plain text.
pub ghost enum InstrView {
    NOp,
    Mov { dest: Destination, src: SrcView },
    Push { src: SrcView },
    Pop { dest: Destination },
    Call { func: Seq<char> },
    Leave,
    Ret,
    Label(Seq<char>),
    Jmp { label: Seq<char> },
    JOp { op: ComparisonOperator, label: Seq<char> },
    Cmp { a: SrcView, b: SrcView },
    Add { dest: Destination, src: SrcView },
    Mul { src: SrcView },
    Div { src: SrcView },
}

/// The abstract value of an instruction.
pub open spec fn instr_view(i: Instruction) -> InstrView {
    match i {
        Instruction::NOp => InstrView::NOp,
        Instruction::Mov { dest, src } => InstrView::Mov { dest, src: src_view(src) },
        Instruction::Push { src } => InstrView::Push { src: src_view(src) },
        Instruction::Pop { dest } => InstrView::Pop { dest },
        Instruction::Call { func } => InstrView::Call { func: func@ },
        Instruction::Leave => InstrView::Leave,
        Instruction::Ret => InstrView::Ret,
        Instruction::Label(l) => InstrView::Label(l@),
        Instruction::Jmp { label } => InstrView::Jmp { label: label@ },
        Instruction::JOp { op, label } => InstrView::JOp { op, label: label@ },
        Instruction::Cmp { a, b } => InstrView::Cmp { a: src_view(a), b: src_view(b) },
        Instruction::Add { dest, src } => InstrView::Add { dest, src: src_view(src) },
        Instruction::Mul { src } => InstrView::Mul { src: src_view(src) },
        Instruction::Div { src } => InstrView::Div { src: src_view(src) },
    }
}

/// A finished function with its texts taken as plain text.
pub ghost struct FunctionView {
    pub name: Seq<char>,
    pub registers: usize,
    pub return_type: Type,
    pub body: Seq<InstrView>,
    pub strings: Seq<Seq<char>>,
}

/// The abstract value of a finished function.
pub open spec fn function_view(f: Function) -> FunctionView {
    FunctionView {
        name: f.name@,
        registers: f.registers,
        return_type: f.return_type,
        body: f.body@.map_values(|i: Instruction| instr_view(i)),
        strings: f.strings@.map_values(|s: String| s@),
    }
}

/// A finished program with its texts taken as plain text.
pub ghost struct ProgramView {
    pub functions: Seq<FunctionView>,
    pub externs: Seq<Seq<char>>,
}

/// The abstract value of a finished program.
pub open spec fn program_view(p: Program) -> ProgramView {
    ProgramView {
        functions: p.functions@.map_values(|f: Function| function_view(f)),
        externs: p.externs@.map_values(|s: String| s@),
    }
}

/// The size keyword of a memory operand.
pub open spec fn data_type_text(d: DataType) -> Seq<char> {
    match d {
        DataType::Byte => "BYTE"@,
        DataType::Word => "WORD"@,
        DataType::DoubleWord => "DWORD"@,
        DataType::QuadWord => "QWORD"@,
    }
}

/// The rendered text of a destination operand.
pub open spec fn dest_text(d: Destination) -> Seq<char> {
    match d {
        Destination::Register(register) => register_text(register),
        Destination::Memory { data_type, at } => data_type_text(data_type) + " PTR ["@ + dec_str(
            at as nat,
        ) + "]"@,
        Destination::MemoryRegister { data_type, register } => data_type_text(data_type)
            + " PTR ["@ + register_text(register) + "]"@,
        Destination::MemoryOffset { data_type, register, offset, scale } => data_type_text(
            data_type,
        ) + " PTR ["@ + register_text(register) + "+"@ + dec_str(offset as nat) + "*"@ + dec_str(
            scale as nat,
        ) + "]"@,
    }
}

/// The rendered text of a source operand.
pub open spec fn src_text(s: SrcView) -> Seq<char> {
    match s {
        SrcView::Register(register) => register_text(register),
        SrcView::Memory { data_type, at } => data_type_text(data_type) + " PTR ["@ + dec_str(
            at as nat,
        ) + "]"@,
        SrcView::MemoryRegister { data_type, register } => data_type_text(data_type) + " PTR ["@
            + register_text(register) + "]"@,
        SrcView::MemoryOffset { data_type, register, offset, scale } => data_type_text(data_type)
            + " PTR ["@ + register_text(register) + "+"@ + dec_str(offset as nat) + "*"@ + dec_str(
            scale as nat,
        ) + "]"@,
        SrcView::Name(name) => name,
        SrcView::Int(v) => "$"@ + dec_str_signed(v as int),
        SrcView::Amount(amount) => dec_str(amount as nat),
    }
}

/// The comparison suffix of a conditional jump.
pub open spec fn cmp_op_text(op: ComparisonOperator) -> Seq<char> {
    match op {
        ComparisonOperator::Equal => "e"@,
        ComparisonOperator::NotEqual => "ne"@,
        ComparisonOperator::Less => "l"@,
        ComparisonOperator::Greater => "g"@,
        ComparisonOperator::LessEqual => "le"@,
        ComparisonOperator::GreaterEqual => "ge"@,
        ComparisonOperator::LessUnsigned => "b"@,
        ComparisonOperator::GreaterUnsigned => "a"@,
        ComparisonOperator::LessEqualUnsigned => "be"@,
        ComparisonOperator::GreaterEqualUnsigned => "ae"@,
    }
}

/// The rendered line of an instruction: tab-indented mnemonic and operands,
/// except a label, which renders dot-prefixed without indentation.
pub open spec fn instr_text(i: InstrView) -> Seq<char> {
    match i {
        InstrView::NOp => "\tnop"@,
        InstrView::Mov { dest, src } => "\tmov "@ + dest_text(dest) + ", "@ + src_text(src),
        InstrView::Push { src } => "\tpush "@ + src_text(src),
        InstrView::Pop { dest } => "\tpop "@ + dest_text(dest),
        InstrView::Call { func } => "\tcall "@ + func,
        InstrView::Leave => "\tleave"@,
        InstrView::Ret => "\tret"@,
        InstrView::Label(label) => "."@ + label + ":"@,
        InstrView::Jmp { label } => "\tjmp "@ + label,
        InstrView::JOp { op, label } => "\tj"@ + cmp_op_text(op) + " "@ + label,
        InstrView::Cmp { a, b } => "\tcmp "@ + src_text(a) + ", "@ + src_text(b),
        InstrView::Add { dest, src } => "\tadd "@ + dest_text(dest) + ", "@ + src_text(src),
        InstrView::Mul { src } => "\tmul "@ + src_text(src),
        InstrView::Div { src } => "\tdiv "@ + src_text(src),
    }
}

/// The size keyword of a memory operand.
fn data_type_str(d: &DataType) -> (r: &'static str)
    ensures
        r@ == data_type_text(*d),
{
    match d {
        DataType::Byte => "BYTE",
        DataType::Word => "WORD",
        DataType::DoubleWord => "DWORD",
        DataType::QuadWord => "QWORD",
    }
}

impl DataType {
    /// The register width matching this size keyword.
    pub fn into(self) -> (r: RegisterSize)
        ensures
            r == (match self {
                DataType::Byte => RegisterSize::S8,
                DataType::Word => RegisterSize::S16,
                DataType::DoubleWord => RegisterSize::S32,
                DataType::QuadWord => RegisterSize::S64,
            }),
    {
        match self {
            DataType::Byte => RegisterSize::S8,
            DataType::Word => RegisterSize::S16,
            DataType::DoubleWord => RegisterSize::S32,
            DataType::QuadWord => RegisterSize::S64,
        }
    }

    /// Renders the size keyword.
    pub fn render(&self) -> (out: String)
        ensures
            out@ == data_type_text(*self),
    {
        data_type_str(self).to_owned()
    }
}

impl ComparisonOperator {
    /// Renders the comparison suffix.
    pub fn render(&self) -> (out: String)
        ensures
            out@ == cmp_op_text(*self),
    {
        let s = match self {
            ComparisonOperator::Equal => "e",
            ComparisonOperator::NotEqual => "ne",
            ComparisonOperator::Less => "l",
            ComparisonOperator::Greater => "g",
            ComparisonOperator::LessEqual => "le",
            ComparisonOperator::GreaterEqual => "ge",
            ComparisonOperator::LessUnsigned => "b",
            ComparisonOperator::GreaterUnsigned => "a",
            ComparisonOperator::LessEqualUnsigned => "be",
            ComparisonOperator::GreaterEqualUnsigned => "ae",
        };
        s.to_owned()
    }
}

/// Appends the `SIZE PTR [...]` form of a memory operand.
fn push_memory_at(out: &mut String, data_type: &DataType, at: usize)
    ensures
        final(out)@ == old(out)@ + data_type_text(*data_type) + " PTR ["@ + dec_str(at as nat)
            + "]"@,
{
    out.append(data_type_str(data_type));
    out.append(" PTR [");
    push_dec_usize(out, at);
    out.append("]");
    proof {
        assert(final(out)@ =~= old(out)@ + data_type_text(*data_type) + " PTR ["@ + dec_str(
            at as nat,
        ) + "]"@);
    }
}

/// Appends the `SIZE PTR [reg]` form of a memory operand.
fn push_memory_register(out: &mut String, data_type: &DataType, register: &Register)
    ensures
        final(out)@ == old(out)@ + data_type_text(*data_type) + " PTR ["@ + register_text(
            *register,
        ) + "]"@,
{
    out.append(data_type_str(data_type));
    out.append(" PTR [");
    let r = register.render();
    out.append(r.as_str());
    out.append("]");
    proof {
        assert(final(out)@ =~= old(out)@ + data_type_text(*data_type) + " PTR ["@ + register_text(
            *register,
        ) + "]"@);
    }
}

/// Appends the `SIZE PTR [reg+offset*scale]` form of a memory operand.
fn push_memory_offset(
    out: &mut String,
    data_type: &DataType,
    register: &Register,
    offset: usize,
    scale: usize,
)
    ensures
        final(out)@ == old(out)@ + data_type_text(*data_type) + " PTR ["@ + register_text(
            *register,
        ) + "+"@ + dec_str(offset as nat) + "*"@ + dec_str(scale as nat) + "]"@,
{
    out.append(data_type_str(data_type));
    out.append(" PTR [");
    let r = register.render();
    out.append(r.as_str());
    out.append("+");
    push_dec_usize(out, offset);
    out.append("*");
    push_dec_usize(out, scale);
    out.append("]");
    proof {
        assert(final(out)@ =~= old(out)@ + data_type_text(*data_type) + " PTR ["@ + register_text(
            *register,
        ) + "+"@ + dec_str(offset as nat) + "*"@ + dec_str(scale as nat) + "]"@);
    }
}

impl Destination {
    /// Renders the destination operand.
    pub fn render(&self) -> (out: String)
        ensures
            out@ == dest_text(*self),
    {
        let mut out = String::new();
        match self {
            Destination::Register(register) => {
                let r = register.render();
                out.append(r.as_str());
            },
            Destination::Memory { data_type, at } => {
                push_memory_at(&mut out, data_type, *at);
            },
            Destination::MemoryRegister { data_type, register } => {
                push_memory_register(&mut out, data_type, register);
            },
            Destination::MemoryOffset { data_type, register, offset, scale } => {
                push_memory_offset(&mut out, data_type, register, *offset, *scale);
            },
        }
        proof {
            assert(out@ =~= dest_text(*self));
        }
        out
    }
}

impl Source {
    /// Renders the source operand.
    pub fn render(&self) -> (out: String)
        ensures
            out@ == src_text(src_view(*self)),
    {
        let mut out = String::new();
        match self {
            Source::Register(register) => {
                let r = register.render();
                out.append(r.as_str());
            },
            Source::Memory { data_type, at } => {
                push_memory_at(&mut out, data_type, *at);
            },
            Source::MemoryRegister { data_type, register } => {
                push_memory_register(&mut out, data_type, register);
            },
            Source::MemoryOffset { data_type, register, offset, scale } => {
                push_memory_offset(&mut out, data_type, register, *offset, *scale);
            },
            Source::Name(name) => {
                out.append(name.as_str());
            },
            Source::Int(v) => {
                out.append("$");
                push_dec_i32(&mut out, *v);
            },
            Source::Amount(amount) => {
                push_dec_usize(&mut out, *amount);
            },
        }
        proof {
            assert(out@ =~= src_text(src_view(*self)));
        }
        out
    }
}

impl Instruction {
    /// Renders the instruction line.
    pub fn render(&self) -> (out: String)
        ensures
            out@ == instr_text(instr_view(*self)),
    {
        let mut out = String::new();
        match self {
            Instruction::NOp => {
                out.append("\tnop");
            },
            Instruction::Mov { dest, src } => {
                out.append("\tmov ");
                let d = dest.render();
                out.append(d.as_str());
                out.append(", ");
                let s = src.render();
                out.append(s.as_str());
            },
            Instruction::Push { src } => {
                out.append("\tpush ");
                let s = src.render();
                out.append(s.as_str());
            },
            Instruction::Pop { dest } => {
                out.append("\tpop ");
                let d = dest.render();
                out.append(d.as_str());
            },
            Instruction::Call { func } => {
                out.append("\tcall ");
                out.append(func.as_str());
            },
            Instruction::Leave => {
                out.append("\tleave");
            },
            Instruction::Ret => {
                out.append("\tret");
            },
            Instruction::Label(label) => {
                out.append(".");
                out.append(label.as_str());
                out.append(":");
            },
            Instruction::Jmp { label } => {
                out.append("\tjmp ");
                out.append(label.as_str());
            },
            Instruction::JOp { op, label } => {
                out.append("\tj");
                let o = op.render();
                out.append(o.as_str());
                out.append(" ");
                out.append(label.as_str());
            },
            Instruction::Cmp { a, b } => {
                out.append("\tcmp ");
                let ra = a.render();
                out.append(ra.as_str());
                out.append(", ");
                let rb = b.render();
                out.append(rb.as_str());
            },
            Instruction::Add { dest, src } => {
                out.append("\tadd ");
                let d = dest.render();
                out.append(d.as_str());
                out.append(", ");
                let s = src.render();
                out.append(s.as_str());
            },
            Instruction::Mul { src } => {
                out.append("\tmul ");
                let s = src.render();
                out.append(s.as_str());
            },
            Instruction::Div { src } => {
                out.append("\tdiv ");
                let s = src.render();
                out.append(s.as_str());
            },
        }
        proof {
            assert(out@ =~= instr_text(instr_view(*self)));
        }
        out
    }
}

/// The rendered instruction lines of a body, each ended by a line break.
pub open spec fn instrs_text(b: Seq<InstrView>) -> Seq<char>
    decreases b.len(),
{
    if b.len() == 0 {
        Seq::<char>::empty()
    } else {
        instrs_text(b.drop_last()) + instr_text(b.last()) + "\n"@
    }
}

/// The data line of one pooled string constant: no line break ends it.
pub open spec fn string_line_text(fname: Seq<char>, idx: nat, s: Seq<char>) -> Seq<char> {
    fname + "_c"@ + dec_str(idx) + " db `"@ + s + "`, 0"@
}

/// The concatenated data lines of a function's string pool.
pub open spec fn strings_text(fname: Seq<char>, ss: Seq<Seq<char>>) -> Seq<char>
    decreases ss.len(),
{
    if ss.len() == 0 {
        Seq::<char>::empty()
    } else {
        strings_text(fname, ss.drop_last()) + string_line_text(
            fname,
            (ss.len() - 1) as nat,
            ss.last(),
        )
    }
}

/// The rendered text of a finished function: label line, instruction lines,
/// then the pooled string data lines.
pub open spec fn function_text(f: FunctionView) -> Seq<char> {
    f.name + ":\n"@ + instrs_text(f.body) + strings_text(f.name, f.strings)
}

/// The concatenated rendered functions of a program.
pub open spec fn functions_text(fs: Seq<FunctionView>) -> Seq<char>
    decreases fs.len(),
{
    if fs.len() == 0 {
        Seq::<char>::empty()
    } else {
        functions_text(fs.drop_last()) + function_text(fs.last())
    }
}

/// The extern declaration lines of a program, in list order.
pub open spec fn externs_text(es: Seq<Seq<char>>) -> Seq<char>
    decreases es.len(),
{
    if es.len() == 0 {
        Seq::<char>::empty()
    } else {
        externs_text(es.drop_last()) + "extern "@ + es.last() + "\n"@
    }
}

/// The rendered text of a whole program.
pub open spec fn program_text(p: ProgramView) -> Seq<char> {
    externs_text(p.externs) + "global main\nsection .text\n"@ + functions_text(p.functions)
}

impl Function {
    /// Renders the function: its label line, its instructions one per line,
    /// and the data lines of its string pool.
    pub fn render(&self) -> (out: String)
        ensures
            out@ == function_text(function_view(*self)),
    {
        let ghost fv = function_view(*self);
        let mut out = self.name.clone();
        out.append(":\n");
        let mut i: usize = 0;
        while i < self.body.len()
            invariant
                i <= self.body@.len(),
                fv == function_view(*self),
                fv.body.len() == self.body@.len(),
                fv.strings.len() == self.strings@.len(),
                out@ == self.name@ + ":\n"@ + instrs_text(fv.body.take(i as int)),
            decreases self.body@.len() - i,
        {
            proof {
                assert(fv.body.take(i + 1).drop_last() =~= fv.body.take(i as int));
                assert(fv.body.take(i + 1).last() == instr_view(self.body@[i as int]));
            }
            let line = self.body[i].render();
            out.append(line.as_str());
            out.append("\n");
            proof {
                assert(out@ =~= self.name@ + ":\n"@ + instrs_text(fv.body.take(i + 1)));
            }
            i = i + 1;
        }
        proof {
            assert(fv.body.take(self.body@.len() as int) =~= fv.body);
        }
        let mut k: usize = 0;
        while k < self.strings.len()
            invariant
                k <= self.strings@.len(),
                fv == function_view(*self),
                fv.strings.len() == self.strings@.len(),
                out@ == self.name@ + ":\n"@ + instrs_text(fv.body) + strings_text(
                    fv.name,
                    fv.strings.take(k as int),
                ),
            decreases self.strings@.len() - k,
        {
            proof {
                assert(fv.strings.take(k + 1).drop_last() =~= fv.strings.take(k as int));
                assert(fv.strings.take(k + 1).last() == self.strings@[k as int]@);
            }
            out.append(self.name.as_str());
            out.append("_c");
            push_dec_usize(&mut out, k);
            out.append(" db `");
            out.append(self.strings[k].as_str());
            out.append("`, 0");
            proof {
                assert(out@ =~= self.name@ + ":\n"@ + instrs_text(fv.body) + strings_text(
                    fv.name,
                    fv.strings.take(k + 1),
                ));
            }
            k = k + 1;
        }
        proof {
            assert(fv.strings.take(self.strings@.len() as int) =~= fv.strings);
        }
        out
    }
}

impl Program {
    /// Renders the whole program: extern lines, the fixed `global main` and
    /// `section .text` lines, then each finished function in order.
    pub fn render(&self) -> (out: String)
        ensures
            out@ == program_text(program_view(*self)),
    {
        let ghost pv = program_view(*self);
        let mut out = String::new();
        let mut i: usize = 0;
        while i < self.externs.len()
            invariant
                i <= self.externs@.len(),
                pv == program_view(*self),
                pv.externs.len() == self.externs@.len(),
                pv.functions.len() == self.functions@.len(),
                out@ == externs_text(pv.externs.take(i as int)),
            decreases self.externs@.len() - i,
        {
            proof {
                assert(pv.externs.take(i + 1).drop_last() =~= pv.externs.take(i as int));
                assert(pv.externs.take(i + 1).last() == self.externs@[i as int]@);
            }
            out.append("extern ");
            out.append(self.externs[i].as_str());
            out.append("\n");
            proof {
                assert(out@ =~= externs_text(pv.externs.take(i + 1)));
            }
            i = i + 1;
        }
        proof {
            assert(pv.externs.take(self.externs@.len() as int) =~= pv.externs);
        }
        out.append("global main\nsection .text\n");
        let mut k: usize = 0;
        while k < self.functions.len()
            invariant
                k <= self.functions@.len(),
                pv == program_view(*self),
                pv.functions.len() == self.functions@.len(),
                out@ == externs_text(pv.externs) + "global main\nsection .text\n"@
                    + functions_text(pv.functions.take(k as int)),
            decreases self.functions@.len() - k,
        {
            proof {
                assert(pv.functions.take(k + 1).drop_last() =~= pv.functions.take(k as int));
                assert(pv.functions.take(k + 1).last() == function_view(
                    self.functions@[k as int],
                ));
            }
            let f = self.functions[k].render();
            out.append(f.as_str());
            proof {
                assert(out@ =~= externs_text(pv.externs) + "global main\nsection .text\n"@
                    + functions_text(pv.functions.take(k + 1)));
            }
            k = k + 1;
        }
        proof {
            assert(pv.functions.take(self.functions@.len() as int) =~= pv.functions);
        }
        out
    }
}

} // verus!

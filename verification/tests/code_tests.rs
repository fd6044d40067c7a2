use lerp_lib::code::{
    ComparisonOperator, DataType, Destination, Instruction, InvalidRegister, Register,
    RegisterName, RegisterSize, Source,
};
use lerp_lib::typ::{FloatType, IntType, InvalidType, Type};

fn reg(name: RegisterName, size: RegisterSize) -> Register {
    Register { name, size }
}

#[test]
fn register_rendering_legacy() {
    assert_eq!(reg(RegisterName::A, RegisterSize::S64).render(), "rax");
    assert_eq!(reg(RegisterName::A, RegisterSize::S32).render(), "eax");
    assert_eq!(reg(RegisterName::A, RegisterSize::S16).render(), "ax");
    assert_eq!(reg(RegisterName::A, RegisterSize::S8).render(), "al");
    assert_eq!(reg(RegisterName::B, RegisterSize::S32).render(), "ebx");
    assert_eq!(reg(RegisterName::C, RegisterSize::S8).render(), "cl");
    assert_eq!(reg(RegisterName::D, RegisterSize::S16).render(), "dx");
}

#[test]
fn register_rendering_pointer_and_index() {
    assert_eq!(reg(RegisterName::SP, RegisterSize::S64).render(), "rsp");
    assert_eq!(reg(RegisterName::SP, RegisterSize::S32).render(), "esp");
    assert_eq!(reg(RegisterName::SP, RegisterSize::S16).render(), "sp");
    assert_eq!(reg(RegisterName::SP, RegisterSize::S8).render(), "spl");
    assert_eq!(reg(RegisterName::DI, RegisterSize::S8).render(), "dil");
    assert_eq!(reg(RegisterName::SI, RegisterSize::S64).render(), "rsi");
}

#[test]
fn register_rendering_numbered() {
    assert_eq!(reg(RegisterName::R9, RegisterSize::S64).render(), "rr9");
    assert_eq!(reg(RegisterName::R9, RegisterSize::S32).render(), "rr9d");
    assert_eq!(reg(RegisterName::R15, RegisterSize::S16).render(), "rr15w");
    assert_eq!(reg(RegisterName::R10, RegisterSize::S8).render(), "rr10b");
}

#[test]
fn register_from_str_table() {
    assert_eq!(Register::from_str("rax"), Ok(reg(RegisterName::A, RegisterSize::S64)));
    assert_eq!(Register::from_str("bl"), Ok(reg(RegisterName::B, RegisterSize::S8)));
    assert_eq!(Register::from_str("esp"), Ok(reg(RegisterName::SP, RegisterSize::S32)));
    assert_eq!(Register::from_str("r9d"), Ok(reg(RegisterName::R9, RegisterSize::S32)));
    assert_eq!(Register::from_str("r15b"), Ok(reg(RegisterName::R15, RegisterSize::S8)));
    assert_eq!(Register::from_str("r8"), Err(InvalidRegister));
    assert_eq!(Register::from_str("xyz"), Err(InvalidRegister));
}

#[test]
fn register_name_try_from_indices() {
    assert_eq!(RegisterName::try_from(0), Ok(RegisterName::A));
    assert_eq!(RegisterName::try_from(1), Ok(RegisterName::B));
    assert_eq!(RegisterName::try_from(4), Ok(RegisterName::SI));
    assert_eq!(RegisterName::try_from(6), Ok(RegisterName::R8));
    assert_eq!(RegisterName::try_from(13), Ok(RegisterName::R15));
    assert_eq!(RegisterName::try_from(14), Err(()));
}

#[test]
fn register_size_of_types() {
    assert_eq!(RegisterSize::typ(&Type::UInt(IntType::Size)), Some(RegisterSize::S32));
    assert_eq!(RegisterSize::typ(&Type::Int(IntType::S64)), Some(RegisterSize::S64));
    assert_eq!(RegisterSize::typ(&Type::Float(FloatType::S64)), Some(RegisterSize::S64));
    assert_eq!(RegisterSize::typ(&Type::NoneType), None);
    assert_eq!(RegisterSize::typ(&Type::Never), None);
    let arr = Type::Array { typ: Box::new(Type::UInt(IntType::S8)), size: Some(7) };
    assert_eq!(RegisterSize::typ(&arr), Some(RegisterSize::S8));
}

#[test]
fn register_size_bytes() {
    assert_eq!(RegisterSize::S64.bytes(), 8);
    assert_eq!(RegisterSize::S32.bytes(), 4);
    assert_eq!(RegisterSize::S16.bytes(), 2);
    assert_eq!(RegisterSize::S8.bytes(), 1);
}

#[test]
fn data_type_into_register_size() {
    assert_eq!(DataType::Byte.into(), RegisterSize::S8);
    assert_eq!(DataType::Word.into(), RegisterSize::S16);
    assert_eq!(DataType::DoubleWord.into(), RegisterSize::S32);
    assert_eq!(DataType::QuadWord.into(), RegisterSize::S64);
}

#[test]
fn operand_rendering() {
    assert_eq!(Source::Int(42).render(), "$42");
    assert_eq!(Source::Int(-7).render(), "$-7");
    assert_eq!(Source::Amount(12).render(), "12");
    assert_eq!(Source::Name("lbl".to_string()).render(), "lbl");
    assert_eq!(
        Source::Memory { data_type: DataType::Byte, at: 4096 }.render(),
        "BYTE PTR [4096]"
    );
    assert_eq!(
        Destination::MemoryRegister {
            data_type: DataType::QuadWord,
            register: reg(RegisterName::BP, RegisterSize::S64),
        }
        .render(),
        "QWORD PTR [rbp]"
    );
    assert_eq!(
        Destination::MemoryOffset {
            data_type: DataType::DoubleWord,
            register: reg(RegisterName::SI, RegisterSize::S64),
            offset: 3,
            scale: 4,
        }
        .render(),
        "DWORD PTR [rsi+3*4]"
    );
}

#[test]
fn instruction_rendering() {
    assert_eq!(Instruction::NOp.render(), "\tnop");
    assert_eq!(
        Instruction::Mov {
            dest: Destination::Register(reg(RegisterName::A, RegisterSize::S32)),
            src: Source::Int(5),
        }
        .render(),
        "\tmov eax, $5"
    );
    assert_eq!(
        Instruction::Push { src: Source::Register(reg(RegisterName::BP, RegisterSize::S32)) }
            .render(),
        "\tpush ebp"
    );
    assert_eq!(
        Instruction::Pop { dest: Destination::Register(reg(RegisterName::A, RegisterSize::S16)) }
            .render(),
        "\tpop ax"
    );
    assert_eq!(Instruction::Call { func: "printf".to_string() }.render(), "\tcall printf");
    assert_eq!(Instruction::Leave.render(), "\tleave");
    assert_eq!(Instruction::Ret.render(), "\tret");
    assert_eq!(Instruction::Label("loop_top".to_string()).render(), ".loop_top:");
    assert_eq!(Instruction::Jmp { label: "done".to_string() }.render(), "\tjmp done");
    assert_eq!(
        Instruction::JOp { op: ComparisonOperator::LessEqual, label: "out".to_string() }.render(),
        "\tjle out"
    );
    assert_eq!(
        Instruction::Cmp { a: Source::Int(1), b: Source::Int(2) }.render(),
        "\tcmp $1, $2"
    );
    assert_eq!(
        Instruction::Mul { src: Source::Register(reg(RegisterName::C, RegisterSize::S32)) }
            .render(),
        "\tmul ecx"
    );
    assert_eq!(
        Instruction::Div { src: Source::Amount(2) }.render(),
        "\tdiv 2"
    );
}

#[test]
fn comparison_suffixes() {
    assert_eq!(ComparisonOperator::Equal.render(), "e");
    assert_eq!(ComparisonOperator::NotEqual.render(), "ne");
    assert_eq!(ComparisonOperator::Less.render(), "l");
    assert_eq!(ComparisonOperator::Greater.render(), "g");
    assert_eq!(ComparisonOperator::LessEqual.render(), "le");
    assert_eq!(ComparisonOperator::GreaterEqual.render(), "ge");
    assert_eq!(ComparisonOperator::LessUnsigned.render(), "b");
    assert_eq!(ComparisonOperator::GreaterUnsigned.render(), "a");
    assert_eq!(ComparisonOperator::LessEqualUnsigned.render(), "be");
    assert_eq!(ComparisonOperator::GreaterEqualUnsigned.render(), "ae");
}

#[test]
fn type_token_table() {
    assert_eq!(Type::from_str("none"), Ok(Type::NoneType));
    assert_eq!(Type::from_str("!"), Ok(Type::Never));
    assert_eq!(Type::from_str("usz"), Ok(Type::UInt(IntType::Size)));
    assert_eq!(Type::from_str("u8"), Ok(Type::UInt(IntType::S8)));
    assert_eq!(Type::from_str("u64"), Ok(Type::UInt(IntType::S64)));
    assert_eq!(Type::from_str("isz"), Ok(Type::Int(IntType::Size)));
    assert_eq!(Type::from_str("i16"), Ok(Type::Int(IntType::S16)));
    assert_eq!(Type::from_str("f32"), Ok(Type::Float(FloatType::S32)));
    assert_eq!(Type::from_str("f64"), Ok(Type::Float(FloatType::S64)));
    assert_eq!(Type::from_str("i7"), Err(InvalidType));
    assert_eq!(Type::from_str(""), Err(InvalidType));
}

#[test]
fn type_rendering() {
    assert_eq!(Type::NoneType.render(), "none");
    assert_eq!(Type::Never.render(), "!");
    assert_eq!(Type::UInt(IntType::Size).render(), "usz");
    assert_eq!(Type::Int(IntType::S32).render(), "i32");
    assert_eq!(Type::Float(FloatType::S64).render(), "f64");
    let arr = Type::Array { typ: Box::new(Type::UInt(IntType::S8)), size: Some(3) };
    assert_eq!(arr.render(), "u8[3]");
    let open = Type::Array { typ: Box::new(Type::Int(IntType::S64)), size: None };
    assert_eq!(open.render(), "i64[]");
}

#[test]
fn type_render_token_round_trip() {
    let tokens = ["none", "!", "usz", "u8", "u16", "u32", "u64", "isz", "i8", "i16", "i32", "i64",
        "f32", "f64"];
    for token in tokens {
        let typ = Type::from_str(token).unwrap();
        assert_eq!(typ.render(), *token);
    }
}

#[test]
fn destination_widens_to_source() {
    let d = Destination::MemoryOffset {
        data_type: DataType::Word,
        register: reg(RegisterName::B, RegisterSize::S64),
        offset: 1,
        scale: 2,
    };
    let s: Source = d.clone().into();
    assert_eq!(s.render(), d.render());
    let d2 = Destination::Register(reg(RegisterName::C, RegisterSize::S8));
    let s2 = Source::from(d2);
    assert_eq!(s2, Source::Register(reg(RegisterName::C, RegisterSize::S8)));
}

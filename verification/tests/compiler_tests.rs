use lerp_lib::code::{Destination, Instruction, Register, RegisterName, RegisterSize, Source};
use lerp_lib::compiler::{compile_program, CompileError, Compiler};
use lerp_lib::parser::{parse, Position};
use lerp_lib::typ::{IntType, Type};

fn reg(name: RegisterName, size: RegisterSize) -> Register {
    Register { name, size }
}

fn eax() -> Register {
    reg(RegisterName::A, RegisterSize::S32)
}

fn ebx() -> Register {
    reg(RegisterName::B, RegisterSize::S32)
}

#[test]
fn compile_addition_type_and_instructions() {
    let nodes = parse("(+ 1 2)").unwrap();
    let mut compiler = Compiler::default();
    compiler.push_frame("main".to_string());
    let mut nodes = nodes;
    let typ = compiler.compile(nodes.remove(0)).unwrap();
    assert_eq!(typ, Type::Int(IntType::S32));
    let body = &compiler.frame().function.body;
    let expected = vec![
        Instruction::Mov { dest: Destination::Register(eax()), src: Source::Int(1) },
        Instruction::Push { src: Source::Register(eax()) },
        Instruction::Mov { dest: Destination::Register(eax()), src: Source::Int(2) },
        Instruction::Mov { dest: Destination::Register(ebx()), src: Source::Register(eax()) },
        Instruction::Pop { dest: Destination::Register(eax()) },
        Instruction::Add { dest: Destination::Register(eax()), src: Source::Register(ebx()) },
    ];
    assert_eq!(body[2..].to_vec(), expected);
}

#[test]
fn compile_extern_reverses_names() {
    let nodes = parse("(extern \"a\" \"b\")").unwrap();
    let program = compile_program(nodes).unwrap();
    assert_eq!(program.externs, vec!["b".to_string(), "a".to_string()]);
}

#[test]
fn compile_addition_wrong_arity() {
    let nodes = parse("(+ 1)").unwrap();
    let err = compile_program(nodes).unwrap_err();
    assert_eq!(err.value, CompileError::ExpectedArgs(2));
    assert_eq!(err.pos, Position { ln: 0, col: 0 });
    assert_eq!(err.render(), "1:1: expected 2 arguments");
}

#[test]
fn compile_invalid_head() {
    let nodes = parse("(1 2)").unwrap();
    let err = compile_program(nodes).unwrap_err();
    assert_eq!(err.value, CompileError::InvalidHead);
    assert_eq!(err.pos, Position { ln: 0, col: 1 });
    assert_eq!(err.render(), "1:2: invalid head");
}

#[test]
fn compile_string_argument_call() {
    let nodes = parse("(foo \"hi\")").unwrap();
    let program = compile_program(nodes).unwrap();
    assert_eq!(program.functions.len(), 1);
    let main = &program.functions[0];
    assert_eq!(main.name, "main");
    assert_eq!(main.strings, vec!["hi".to_string()]);
    let expected = vec![
        Instruction::Push {
            src: Source::Register(reg(RegisterName::BP, RegisterSize::S32)),
        },
        Instruction::Mov {
            dest: Destination::Register(reg(RegisterName::BP, RegisterSize::S32)),
            src: Source::Register(reg(RegisterName::SP, RegisterSize::S32)),
        },
        Instruction::Push { src: Source::Name("main_c0".to_string()) },
        Instruction::Call { func: "foo".to_string() },
        Instruction::Add {
            dest: Destination::Register(reg(RegisterName::SP, RegisterSize::S32)),
            src: Source::Amount(3),
        },
        Instruction::Leave,
        Instruction::Ret,
    ];
    assert_eq!(main.body, expected);
}

#[test]
fn compile_program_rendered_text() {
    let nodes = parse("(extern foo)(foo \"hi\")").unwrap();
    let program = compile_program(nodes).unwrap();
    let text = program.render();
    assert_eq!(
        text,
        "extern foo\nglobal main\nsection .text\nmain:\n\tpush ebp\n\tmov ebp, esp\n\tpush main_c0\n\tcall foo\n\tadd esp, 3\n\tleave\n\tret\nmain_c0 db `hi`, 0"
    );
}

#[test]
fn compile_addition_rendered_text() {
    let nodes = parse("(+ 1 2)").unwrap();
    let program = compile_program(nodes).unwrap();
    let text = program.render();
    assert_eq!(
        text,
        "global main\nsection .text\nmain:\n\tpush ebp\n\tmov ebp, esp\n\tmov eax, $1\n\tpush eax\n\tmov eax, $2\n\tmov ebx, eax\n\tpop eax\n\tadd eax, ebx\n\tleave\n\tret\n"
    );
}

#[test]
fn compile_empty_list_is_noop() {
    let nodes = parse("()").unwrap();
    let program = compile_program(nodes).unwrap();
    let main = &program.functions[0];
    assert_eq!(main.body.len(), 4);
    assert_eq!(main.body[2], Instruction::Leave);
    assert_eq!(main.body[3], Instruction::Ret);
}

#[test]
fn compile_type_mismatch() {
    let nodes = parse("(+ 1 \"x\")").unwrap();
    let err = compile_program(nodes).unwrap_err();
    assert_eq!(err.pos, Position { ln: 0, col: 5 });
    match &err.value {
        CompileError::InvalidTypeExpected { expected, got } => {
            assert_eq!(*expected, Type::Int(IntType::S32));
            assert_eq!(
                *got,
                Type::Array { typ: Box::new(Type::UInt(IntType::S8)), size: Some(2) }
            );
        }
        other => panic!("unexpected error {:?}", other),
    }
    assert_eq!(err.render(), "1:6: expected i32, got u8[2]");
}

#[test]
fn compile_addition_of_strings() {
    let nodes = parse("(+ \"a\" \"b\")").unwrap();
    let mut compiler = Compiler::default();
    compiler.push_frame("main".to_string());
    let mut nodes = nodes;
    let typ = compiler.compile(nodes.remove(0)).unwrap();
    assert_eq!(
        typ,
        Type::Array { typ: Box::new(Type::UInt(IntType::S8)), size: Some(2) }
    );
}

#[test]
fn compile_bare_word_not_found() {
    let nodes = parse("x").unwrap();
    let err = compile_program(nodes).unwrap_err();
    assert_eq!(err.value, CompileError::NotFound("x".to_string()));
    assert_eq!(err.render(), "1:1: \"x\" not found");
}

#[test]
fn compile_float_literal_unsupported() {
    let nodes = parse("1.5").unwrap();
    let err = compile_program(nodes).unwrap_err();
    assert_eq!(err.render(), "1:1: invalid type f32");
}

#[test]
fn compile_extern_invalid_argument() {
    let nodes = parse("(extern 1)").unwrap();
    let err = compile_program(nodes).unwrap_err();
    assert_eq!(err.value, CompileError::InvalidType(Type::Int(IntType::S32)));
    assert_eq!(err.pos, Position { ln: 0, col: 8 });
    assert_eq!(err.render(), "1:9: invalid type i32");
}

#[test]
fn compile_call_argument_error_position() {
    let nodes = parse("(f (g))").unwrap();
    let err = compile_program(nodes).unwrap_err();
    assert_eq!(err.value, CompileError::InvalidType(Type::NoneType));
    assert_eq!(err.pos, Position { ln: 0, col: 3 });
    assert_eq!(err.render(), "1:4: invalid type none");
}

#[test]
fn compile_nested_addition() {
    let nodes = parse("(+ (+ 1 2) 3)").unwrap();
    let mut compiler = Compiler::default();
    compiler.push_frame("main".to_string());
    let mut nodes = nodes;
    let typ = compiler.compile(nodes.remove(0)).unwrap();
    assert_eq!(typ, Type::Int(IntType::S32));
    assert_eq!(compiler.frame().function.body.len(), 2 + 6 + 1 + 1 + 3);
}

#[test]
fn compile_two_string_constants_number_in_order() {
    let nodes = parse("(f \"aa\")(g \"bbb\")").unwrap();
    let program = compile_program(nodes).unwrap();
    let main = &program.functions[0];
    assert_eq!(main.strings, vec!["aa".to_string(), "bbb".to_string()]);
    assert!(main.body.contains(&Instruction::Push { src: Source::Name("main_c0".to_string()) }));
    assert!(main.body.contains(&Instruction::Push { src: Source::Name("main_c1".to_string()) }));
    let text = program.render();
    assert!(text.ends_with("main_c0 db `aa`, 0main_c1 db `bbb`, 0"));
}

#[test]
fn frame_write_returns_addresses() {
    let mut compiler = Compiler::default();
    compiler.push_frame("main".to_string());
    let addr = compiler.write(Instruction::NOp);
    assert_eq!(addr, 2);
    let addr = compiler.write(Instruction::Leave);
    assert_eq!(addr, 3);
}

#[test]
fn new_string_names_by_pool_index() {
    let mut compiler = Compiler::default();
    compiler.push_frame("main".to_string());
    assert_eq!(compiler.new_string("x".to_string()), "main_c0");
    assert_eq!(compiler.new_string("y".to_string()), "main_c1");
    assert_eq!(compiler.frame().function.strings, vec!["x".to_string(), "y".to_string()]);
}

#[test]
fn pop_frame_reserved_bytes_restore_stack() {
    let mut compiler = Compiler::default();
    compiler.push_frame("f".to_string());
    compiler.frame_mut().registers = 12;
    compiler.pop_frame();
    let f = &compiler.program.functions[0];
    assert_eq!(
        f.body[2],
        Instruction::Add {
            dest: Destination::Register(reg(RegisterName::SP, RegisterSize::S32)),
            src: Source::Amount(12),
        }
    );
    assert_eq!(f.body[3], Instruction::Leave);
    assert_eq!(f.body[4], Instruction::Ret);
}

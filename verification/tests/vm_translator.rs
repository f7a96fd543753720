use nand2tetris::vm_translator::code_writer::Writer;
use nand2tetris::vm_translator::parser::{Command, Parser};

#[test]
fn parser_classifies_commands() {
    let source = "push constant 7\npop local 2\nlabel X\ngoto X\nif-goto X\nfunction F 1\ncall F 0\nreturn\nadd\n";
    let mut parser = Parser::new(source);
    let expected = [
        Command::Push,
        Command::Pop,
        Command::Label,
        Command::Goto,
        Command::If,
        Command::Function,
        Command::Call,
        Command::Return,
        Command::Arithmetic,
    ];
    for want in expected {
        assert!(parser.has_more_commands());
        parser.advance();
        let got = parser.command_type();
        assert_eq!(format!("{:?}", got), format!("{:?}", want));
    }
    assert!(!parser.has_more_commands());
}

#[test]
fn parser_hands_out_arguments() {
    let mut parser = Parser::new("push constant 7\nlabel HERE\nreturn\n");
    parser.advance();
    assert_eq!(parser.command(), "push");
    assert_eq!(parser.arg1().unwrap(), "constant");
    assert_eq!(parser.arg2().unwrap(), "7");
    parser.advance();
    assert_eq!(parser.arg1().unwrap(), "HERE");
    assert_eq!(
        parser.arg2().unwrap_err(),
        "command type Label doesn't have two arguments."
    );
    parser.advance();
    assert_eq!(
        parser.arg1().unwrap_err(),
        "Command type should not be C_RETURN."
    );
}

#[test]
fn push_constant_translates_to_scratch_register_code() {
    let mut writer = Writer::new();
    writer.write("Main.vm", "push constant 7\n").unwrap();
    assert_eq!(
        writer.output().as_str(),
        "// push constant 7\n@7\nD=A\n@R14\nM=D\nD=A\n@R13\nM=D\n@R13\nA=M\nD=M\n@SP\nA=M\nM=D\n@SP\nM=M+1\n"
    );
}

#[test]
fn add_translates_to_binary_pop_push() {
    let mut writer = Writer::new();
    writer.write("Main.vm", "add\n").unwrap();
    assert_eq!(
        writer.output().as_str(),
        "// add\n@SP\nAM=M-1\nD=M\n@SP\nAM=M-1\nM=D+M\n@SP\nM=M+1\n"
    );
}

#[test]
fn static_segment_is_scoped_by_file_base_name() {
    let mut writer = Writer::new();
    writer.write("dir/Foo.vm", "push static 2\n").unwrap();
    assert!(writer.output().contains("@Foo.2\n"));
    writer.write("dir/Bar.vm", "pop static 2\n").unwrap();
    assert!(writer.output().contains("@Bar.2\n"));
}

#[test]
fn labels_are_scoped_by_the_enclosing_function() {
    let source = "function Foo.main 0\nlabel LOOP\ngoto LOOP\nif-goto LOOP\n";
    let mut writer = Writer::new();
    writer.write("Foo.vm", source).unwrap();
    let out = writer.output();
    assert!(out.contains("(Foo.main$LOOP)\n"));
    assert!(out.contains("@Foo.main$LOOP\n0;JMP\n"));
    assert!(out.contains("@Foo.main$LOOP\nD;JNE\n"));
}

#[test]
fn label_before_any_function_has_an_empty_scope() {
    let mut writer = Writer::new();
    writer.write("Foo.vm", "label START\n").unwrap();
    assert!(writer.output().contains("($START)\n"));
}

#[test]
fn comparison_serials_increase_across_files() {
    let mut writer = Writer::new();
    writer.write("A.vm", "eq\ngt\neq\n").unwrap();
    writer.write("B.vm", "eq\nlt\n").unwrap();
    let out = writer.output();
    assert!(out.contains("(EQ.IF.1)"));
    assert!(out.contains("(EQ.IF.2)"));
    assert!(out.contains("(EQ.IF.3)"));
    assert!(out.contains("(GT.IF.1)"));
    assert!(out.contains("(LT.IF.1)"));
    let first = out.find("(EQ.IF.1)").unwrap();
    let second = out.find("(EQ.IF.2)").unwrap();
    let third = out.find("(EQ.IF.3)").unwrap();
    assert!(first < second && second < third);
}

#[test]
fn call_serials_count_per_function_across_files() {
    let mut writer = Writer::new();
    writer.write("A.vm", "call Foo.bar 0\ncall Foo.bar 1\n").unwrap();
    writer.write("B.vm", "call Foo.bar 2\ncall Other.f 0\n").unwrap();
    let out = writer.output();
    assert!(out.contains("(RETURN.Foo.bar.1)\n"));
    assert!(out.contains("(RETURN.Foo.bar.2)\n"));
    assert!(out.contains("(RETURN.Foo.bar.3)\n"));
    assert!(out.contains("(RETURN.Other.f.1)\n"));
}

#[test]
fn call_repositions_arg_and_lcl() {
    let mut writer = Writer::new();
    writer.write("A.vm", "call Foo.bar 2\n").unwrap();
    let out = writer.output();
    assert!(out.contains("@RETURN.Foo.bar.1\nD=A\n@SP\nA=M\nM=D\n@SP\nM=M+1\n"));
    assert!(out.contains("@SP\nD=M\n@2\nD=D-A\n@5\nD=D-A\n@ARG\nM=D\n"));
    assert!(out.contains("@SP\nD=M\n@LCL\nM=D\n"));
    assert!(out.contains("@Foo.bar\n0;JMP\n"));
}

#[test]
fn function_pushes_one_zero_per_local() {
    let mut writer = Writer::new();
    writer.write("A.vm", "function Foo.bar 2\n").unwrap();
    assert_eq!(
        writer.output().as_str(),
        "// function Foo.bar 2\n(Foo.bar)\n@0\nD=A\n@SP\nA=M\nM=D\n@SP\nM=M+1\n@0\nD=A\n@SP\nA=M\nM=D\n@SP\nM=M+1\n"
    );
}

#[test]
fn return_restores_the_frame() {
    let mut writer = Writer::new();
    writer.write("A.vm", "return\n").unwrap();
    assert_eq!(
        writer.output().as_str(),
        "// return\n@LCL\nD=M\n@R13\nM=D\n@5\nA=D-A\nD=M\n@R14\nM=D\n@SP\nAM=M-1\nD=M\n@ARG\nA=M\nM=D\n@ARG\nD=M+1\n@SP\nM=D\n@R13\nA=M-1\nD=M\n@THAT\nM=D\n@R13\nD=M\n@2\nA=D-A\nD=M\n@THIS\nM=D\n@R13\nD=M\n@3\nA=D-A\nD=M\n@ARG\nM=D\n@R13\nD=M\n@4\nA=D-A\nD=M\n@LCL\nM=D\n@R14\nA=M\n0;JMP\n"
    );
}

#[test]
fn write_init_sets_the_stack_pointer_and_calls_sys_init() {
    let mut writer = Writer::new();
    writer.write_init();
    let out = writer.output();
    assert!(out.starts_with("@256\nD=A\n@SP\nM=D\n// call Sys.init 0\n"));
    assert!(out.contains("@Sys.init\n0;JMP\n(RETURN.Sys.init.1)\n"));
}

#[test]
fn unknown_arithmetic_verb_is_an_error() {
    let mut writer = Writer::new();
    let err = writer.write("A.vm", "frobnicate\n").unwrap_err();
    assert_eq!(err, "Undefined command `frobnicate`.");
    assert_eq!(writer.output().as_str(), "// frobnicate\n");
}

#[test]
fn unknown_segment_is_an_error() {
    let mut writer = Writer::new();
    let err = writer.write("A.vm", "push bogus 3\n").unwrap_err();
    assert_eq!(err, "Undefined command `push bogus 3`.");
}

#[test]
fn missing_arguments_are_an_error() {
    let mut writer = Writer::new();
    assert_eq!(
        writer.write("A.vm", "push constant\n").unwrap_err(),
        "command `push constant` is missing an argument."
    );
    let mut writer = Writer::new();
    assert_eq!(
        writer.write("A.vm", "label\n").unwrap_err(),
        "command `label` is missing an argument."
    );
}

#[test]
fn non_numeric_index_is_an_error() {
    let mut writer = Writer::new();
    assert_eq!(
        writer.write("A.vm", "push constant x7\n").unwrap_err(),
        "argument `x7` is not a number."
    );
}

#[test]
fn empty_source_emits_nothing() {
    let mut writer = Writer::new();
    writer.write("A.vm", "// only comments\n\n").unwrap();
    assert_eq!(writer.output().as_str(), "");
}

#[test]
fn pop_stores_through_the_resolved_address() {
    let mut writer = Writer::new();
    writer.write("A.vm", "pop this 3\n").unwrap();
    assert_eq!(
        writer.output().as_str(),
        "// pop this 3\n@3\nD=A\n@THIS\nD=D+M\n@R13\nM=D\n@SP\nAM=M-1\nD=M\n@R13\nA=M\nM=D\n"
    );
}

#[test]
fn set_file_name_takes_the_base_name() {
    let mut writer = Writer::new();
    assert_eq!(writer.set_file_name(), "init");
    writer.write("some/dir/Game.vm", "add\n").unwrap();
    assert_eq!(writer.set_file_name(), "Game");
}

use nand2tetris::assembler::assemble::assemble;
use nand2tetris::vm_translator::code_writer::Writer;

/// Runs 16-bit binary instruction words on a model of the target machine
/// until the program counter reaches `halt` or falls off the end.
fn run_machine(bin: &[String], mem: &mut Vec<i16>, halt: usize) {
    let mut a: i16 = 0;
    let mut d: i16 = 0;
    let mut pc: usize = 0;
    let mut steps: usize = 0;
    while pc < bin.len() && pc != halt {
        steps += 1;
        assert!(steps < 100_000, "the program did not terminate");
        let line = bin[pc].as_bytes();
        assert_eq!(line.len(), 16);
        let bit = |i: usize| line[i] == b'1';
        let value = i16::from_str_radix(&bin[pc][1..], 2).unwrap();
        if !bit(0) {
            a = value;
            pc += 1;
            continue;
        }
        let x = d;
        let y = if bit(3) { mem[a as u16 as usize] } else { a };
        let mut xx = if bit(4) { 0 } else { x };
        if bit(5) {
            xx = !xx;
        }
        let mut yy = if bit(6) { 0 } else { y };
        if bit(7) {
            yy = !yy;
        }
        let mut out = if bit(8) { xx.wrapping_add(yy) } else { xx & yy };
        if bit(9) {
            out = !out;
        }
        let old_a = a;
        if bit(10) {
            a = out;
        }
        if bit(11) {
            d = out;
        }
        if bit(12) {
            mem[old_a as u16 as usize] = out;
        }
        let jump = (bit(13) && out < 0) || (bit(14) && out == 0) || (bit(15) && out > 0);
        if jump {
            pc = a as u16 as usize;
        } else {
            pc += 1;
        }
    }
}

fn translate_and_assemble(source: &str) -> Vec<String> {
    let mut writer = Writer::new();
    writer.write("Main.vm", source).unwrap();
    assemble(writer.output().as_str()).unwrap()
}

#[test]
fn push_push_add_leaves_the_sum_on_top() {
    let bin = translate_and_assemble("push constant 7\npush constant 8\nadd\n");
    let mut mem = vec![0i16; 32768];
    mem[0] = 256;
    run_machine(&bin, &mut mem, usize::MAX);
    assert_eq!(mem[0], 257);
    assert_eq!(mem[256], 15);
}

#[test]
fn comparison_pushes_all_ones_or_zero() {
    let bin = translate_and_assemble(
        "push constant 3\npush constant 5\nlt\npush constant 4\npush constant 4\neq\npush constant 1\npush constant 2\ngt\n",
    );
    let mut mem = vec![0i16; 32768];
    mem[0] = 256;
    run_machine(&bin, &mut mem, usize::MAX);
    assert_eq!(mem[0], 259);
    assert_eq!(mem[256], -1);
    assert_eq!(mem[257], -1);
    assert_eq!(mem[258], 0);
}

#[test]
fn function_return_hands_argument_zero_back() {
    let bin = translate_and_assemble("function Foo 2\npush argument 0\nreturn\n");
    let mut mem = vec![0i16; 32768];
    // A frame as `call Foo 1` would leave it: one argument, the five saved
    // words, and LCL at the top of stack. The saved return address points
    // past the program, which halts the machine.
    let halt = bin.len() as i16;
    mem[255] = 42;
    mem[256] = halt;
    mem[257] = 999;
    mem[258] = 888;
    mem[259] = 777;
    mem[260] = 666;
    mem[0] = 261;
    mem[1] = 261;
    mem[2] = 255;
    run_machine(&bin, &mut mem, usize::MAX);
    assert_eq!(mem[0], 256, "the stack pointer ends at the caller's ARG+1");
    assert_eq!(mem[255], 42, "the returned value is argument 0");
    assert_eq!(mem[1], 999, "LCL is restored");
    assert_eq!(mem[2], 888, "ARG is restored");
    assert_eq!(mem[3], 777, "THIS is restored");
    assert_eq!(mem[4], 666, "THAT is restored");
}

#[test]
fn if_goto_branches_on_any_nonzero_value() {
    let source = "function Main.f 0\npush constant 1\nif-goto TAKEN\npush constant 9\nlabel TAKEN\npush constant 5\n";
    let bin = translate_and_assemble(source);
    let mut mem = vec![0i16; 32768];
    mem[0] = 256;
    run_machine(&bin, &mut mem, usize::MAX);
    // The branch is taken on 1, so 9 is never pushed.
    assert_eq!(mem[0], 257);
    assert_eq!(mem[256], 5);
}

#[test]
fn rerunning_the_pipeline_reproduces_identical_output() {
    let vm_source = "function Main.f 1\npush constant 7\npop local 0\npush local 0\neq\ncall Other.g 0\nreturn\n";
    let mut first_writer = Writer::new();
    first_writer.write_init();
    first_writer.write("dir/Main.vm", vm_source).unwrap();
    let first_asm = first_writer.output().clone();
    let first_bin = assemble(first_asm.as_str()).unwrap();

    let mut second_writer = Writer::new();
    second_writer.write_init();
    second_writer.write("dir/Main.vm", vm_source).unwrap();
    let second_asm = second_writer.output().clone();
    let second_bin = assemble(second_asm.as_str()).unwrap();

    assert_eq!(first_asm, second_asm);
    assert_eq!(first_bin, second_bin);
}

use nand2tetris::assembler::assemble::assemble;
use nand2tetris::assembler::code::Code;
use nand2tetris::assembler::parser::{Command, Parser};
use nand2tetris::assembler::symbol_table::{make_symbol_table, SymbolTable};

const DESTS: [&str; 8] = ["null", "M", "D", "MD", "A", "AM", "AD", "AMD"];

const COMPS: [&str; 28] = [
    "0", "1", "-1", "D", "A", "!D", "!A", "-D", "-A", "D+1", "A+1", "D-1", "A-1", "D+A", "D-A",
    "A-D", "D&A", "D|A", "M", "!M", "-M", "M+1", "M-1", "D+M", "D-M", "M-D", "D&M", "D|M",
];

const JUMPS: [&str; 8] = ["null", "JGT", "JEQ", "JGE", "JLT", "JNE", "JLE", "JMP"];

fn encode_dest(m: &str) -> String {
    Code::new(Some(m.to_string())).dest().unwrap()
}

fn encode_comp(m: &str) -> String {
    Code::new(Some(m.to_string())).comp().unwrap()
}

fn encode_jump(m: &str) -> String {
    Code::new(Some(m.to_string())).jump().unwrap()
}

fn decode_dest(bits: &str) -> &'static str {
    for m in DESTS {
        if encode_dest(m) == bits {
            return m;
        }
    }
    panic!("no destination mnemonic encodes to {}", bits);
}

fn decode_comp(bits: &str) -> &'static str {
    for m in COMPS {
        if encode_comp(m) == bits {
            return m;
        }
    }
    panic!("no computation mnemonic encodes to {}", bits);
}

fn decode_jump(bits: &str) -> &'static str {
    for m in JUMPS {
        if encode_jump(m) == bits {
            return m;
        }
    }
    panic!("no jump mnemonic encodes to {}", bits);
}

#[test]
fn reserved_symbols_have_fixed_addresses() {
    let table = SymbolTable::new();
    let expected: [(&str, usize); 23] = [
        ("SP", 0),
        ("LCL", 1),
        ("ARG", 2),
        ("THIS", 3),
        ("THAT", 4),
        ("R0", 0),
        ("R1", 1),
        ("R2", 2),
        ("R3", 3),
        ("R4", 4),
        ("R5", 5),
        ("R6", 6),
        ("R7", 7),
        ("R8", 8),
        ("R9", 9),
        ("R10", 10),
        ("R11", 11),
        ("R12", 12),
        ("R13", 13),
        ("R14", 14),
        ("R15", 15),
        ("SCREEN", 16384),
        ("KBD", 24576),
    ];
    for (name, address) in expected {
        let key = name.to_string();
        assert!(table.contains(&key));
        assert_eq!(table.get_address(&key), address);
    }
}

#[test]
fn dest_encoding_is_bijective_and_bitwise() {
    for m in DESTS {
        let bits = encode_dest(m);
        assert_eq!(bits.len(), 3);
        assert_eq!(bits.as_bytes()[0] == b'1', m.contains('A'));
        assert_eq!(bits.as_bytes()[1] == b'1', m.contains('D'));
        assert_eq!(bits.as_bytes()[2] == b'1', m.contains('M'));
        assert_eq!(decode_dest(&bits), m);
        assert_eq!(bits == "000", m == "null");
    }
}

#[test]
fn comp_encoding_is_bijective() {
    for m in COMPS {
        let bits = encode_comp(m);
        assert_eq!(bits.len(), 7);
        assert_eq!(decode_comp(&bits), m);
    }
}

#[test]
fn jump_encoding_is_bijective() {
    for m in JUMPS {
        let bits = encode_jump(m);
        assert_eq!(bits.len(), 3);
        assert_eq!(decode_jump(&bits), m);
    }
}

#[test]
fn unknown_mnemonics_are_rejected_with_field_and_text() {
    assert_eq!(
        Code::new(Some("X".to_string())).dest().unwrap_err(),
        "mnemonic X is not allowed in `dest`."
    );
    assert_eq!(
        Code::new(Some("Q+1".to_string())).comp().unwrap_err(),
        "mnemonic Q+1 is not allowed in `comp`."
    );
    assert_eq!(
        Code::new(Some("JXX".to_string())).jump().unwrap_err(),
        "mnemonic JXX is not allowed in `jump`."
    );
}

#[test]
fn absent_field_is_null() {
    assert_eq!(Code::new(None).dest().unwrap(), "000");
    assert_eq!(Code::new(None).jump().unwrap(), "000");
}

#[test]
fn roundtrip_recovers_mnemonics() {
    let source = "D=A\nM=D+1\nAMD=D|A;JNE\n0;JMP\nD&M;JLE\n";
    let expected: [(&str, &str, &str); 5] = [
        ("D", "A", "null"),
        ("M", "D+1", "null"),
        ("AMD", "D|A", "JNE"),
        ("null", "0", "JMP"),
        ("null", "D&M", "JLE"),
    ];
    let bin = assemble(source).unwrap();
    assert_eq!(bin.len(), expected.len());
    for (line, (dest, comp, jump)) in bin.iter().zip(expected) {
        assert_eq!(line.len(), 16);
        assert_eq!(&line[0..3], "111");
        assert_eq!(decode_comp(&line[3..10]), comp);
        assert_eq!(decode_dest(&line[10..13]), dest);
        assert_eq!(decode_jump(&line[13..16]), jump);
    }
}

#[test]
fn parser_strips_comments_and_blank_lines() {
    let source = "  // leading comment\n\n  @12 // trailing\n\nD=A\n   \n(END)\n";
    let mut parser = Parser::new(source);
    assert!(parser.has_more_commands());
    parser.advance();
    assert!(matches!(parser.command_type(), Command::ACommand));
    assert_eq!(parser.symbol().unwrap(), "12");
    parser.advance();
    assert!(matches!(parser.command_type(), Command::CCommand));
    parser.advance();
    assert!(matches!(parser.command_type(), Command::LCommand));
    assert_eq!(parser.symbol().unwrap(), "END");
    assert!(!parser.has_more_commands());
}

#[test]
fn parser_decomposes_compute_commands() {
    let mut parser = Parser::new("MD=D+1;JGT\nD+M\nA=!A\n0;JMP\n");
    parser.advance();
    assert_eq!(parser.dest().unwrap(), "MD");
    assert_eq!(parser.comp().unwrap(), "D+1");
    assert_eq!(parser.jump().unwrap(), "JGT");
    let (d, c, j) = parser.decompose_c_command();
    assert_eq!(d.unwrap(), "MD");
    assert_eq!(c.unwrap(), "D+1");
    assert_eq!(j.unwrap(), "JGT");
    parser.advance();
    assert!(parser.dest().is_none());
    assert_eq!(parser.comp().unwrap(), "D+M");
    assert!(parser.jump().is_none());
    parser.advance();
    assert_eq!(parser.dest().unwrap(), "A");
    assert_eq!(parser.comp().unwrap(), "!A");
    assert!(parser.jump().is_none());
    parser.advance();
    assert!(parser.dest().is_none());
    assert_eq!(parser.comp().unwrap(), "0");
    assert_eq!(parser.jump().unwrap(), "JMP");
}

#[test]
fn symbol_of_compute_command_is_a_type_error() {
    let mut parser = Parser::new("D=A\n");
    parser.advance();
    assert_eq!(
        parser.symbol().unwrap_err(),
        "Command type should be A_COMMAND or L_COMMAND."
    );
}

#[test]
fn first_pass_records_labels_at_instruction_counts() {
    let mut parser = Parser::new("@3\nD=A\n(FIRST)\n(SECOND)\n@0\n(THIRD)\n");
    let table = make_symbol_table(&mut parser);
    assert_eq!(table.get_address(&"FIRST".to_string()), 2);
    assert_eq!(table.get_address(&"SECOND".to_string()), 2);
    assert_eq!(table.get_address(&"THIRD".to_string()), 3);
}

#[test]
fn loop_label_resolves_to_its_instruction_index() {
    let source = "@3\nD=A\n@0\nM=D\n(LOOP)\n@0\nD=M\n@LOOP\nD;JGT\n";
    let bin = assemble(source).unwrap();
    assert_eq!(bin.len(), 8);
    // LOOP stands after four non-label instructions, so it resolves to 4.
    assert_eq!(bin[6], "0000000000000100");
    assert_eq!(bin[0], "0000000000000011");
}

#[test]
fn new_variable_gets_the_first_free_address() {
    let bin = assemble("@counter\n").unwrap();
    assert_eq!(bin, vec!["0000000000010000".to_string()]);
}

#[test]
fn variable_addresses_rise_by_first_occurrence() {
    let bin = assemble("@a\n@b\n@a\n@c\n").unwrap();
    assert_eq!(
        bin,
        vec![
            "0000000000010000".to_string(),
            "0000000000010001".to_string(),
            "0000000000010000".to_string(),
            "0000000000010010".to_string(),
        ]
    );
}

#[test]
fn numeric_address_is_emitted_verbatim() {
    let bin = assemble("@0\n@1\n@32767\n@65535\n").unwrap();
    assert_eq!(bin[0], "0000000000000000");
    assert_eq!(bin[1], "0000000000000001");
    assert_eq!(bin[2], "0111111111111111");
    assert_eq!(bin[3], "1111111111111111");
}

#[test]
fn oversized_or_malformed_numerals_are_rejected() {
    assert_eq!(
        assemble("@65536\n").unwrap_err(),
        "symbol 65536 is not a valid 16-bit address."
    );
    assert_eq!(
        assemble("@1abc\n").unwrap_err(),
        "symbol 1abc is not a valid 16-bit address."
    );
}

#[test]
fn bad_mnemonics_abort_the_run() {
    assert_eq!(
        assemble("D=A\nX=D\n").unwrap_err(),
        "mnemonic X is not allowed in `dest`."
    );
    assert_eq!(
        assemble("D=Q\n").unwrap_err(),
        "mnemonic Q is not allowed in `comp`."
    );
    assert_eq!(
        assemble("0;JXX\n").unwrap_err(),
        "mnemonic JXX is not allowed in `jump`."
    );
}

#[test]
fn labels_emit_no_binary_line() {
    let bin = assemble("(ONLY)\n").unwrap();
    assert!(bin.is_empty());
}

#[test]
fn empty_and_comment_only_sources_assemble_to_nothing() {
    assert_eq!(assemble(""), Ok(vec![]));
    assert_eq!(assemble("// nothing here\n\n   \n// still nothing"), Ok(vec![]));
}

#[test]
fn reserved_names_resolve_in_source() {
    let bin = assemble("@SCREEN\n@KBD\n@R13\n").unwrap();
    assert_eq!(bin[0], "0100000000000000");
    assert_eq!(bin[1], "0110000000000000");
    assert_eq!(bin[2], "0000000000001101");
}

#[test]
fn table_add_and_lookup() {
    let mut table = SymbolTable::new();
    let key = "custom".to_string();
    assert!(!table.contains(&key));
    table.add_entry("custom".to_string(), 77);
    assert!(table.contains(&key));
    assert_eq!(table.get_address(&key), 77);
    table.add_entry("custom".to_string(), 78);
    assert_eq!(table.get_address(&key), 78);
}

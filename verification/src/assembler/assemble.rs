//! The assembler's second pass: walks the cleaned source again, resolves
//! every symbolic reference through the symbol table, and emits one
//! 16-character binary word per instruction, label lines elided.

use vstd::prelude::*;
use vstd::string::*;
use crate::assembler::code::{comp_code, comp_err, dest_code, dest_err, jump_code, jump_err, Code};
use crate::assembler::parser::{
    a_symbol, command_kind, comp_of, dest_of, jump_of, Command, Parser,
};
use crate::assembler::symbol_table::{count_instructions, first_pass, make_symbol_table};
use crate::text::{
    all_digits, bin16, clean_lines_spec, dec_value, is_digit, is_digit_char, parse_u16, to_bin16,
};

verus! {

/// The second pass's running state: the symbol table so far, the count of
/// variables bound so far, and the binary words emitted so far.
pub struct Pass2 {
    pub table: Map<Seq<char>, usize>,
    pub n_var: nat,
    pub out: Seq<Seq<char>>,
}

pub open spec fn numeral_err(sym: Seq<char>) -> Seq<char> {
    "symbol "@ + sym + " is not a valid 16-bit address."@
}

pub open spec fn range_err(sym: Seq<char>) -> Seq<char> {
    "address of symbol "@ + sym + " does not fit in 16 bits."@
}

/// The binary word of one compute instruction: `111`, then the computation,
/// destination and jump fields; or the first field error, checked in the
/// order computation, destination, jump.
pub open spec fn encode_compute(code: Seq<char>) -> Result<Seq<char>, Seq<char>> {
    let compm = comp_of(code);
    let destm = match dest_of(code) {
        Some(d) => d,
        None => "null"@,
    };
    let jumpm = match jump_of(code) {
        Some(j) => j,
        None => "null"@,
    };
    match comp_code(compm) {
        None => Err(comp_err(compm)),
        Some(cc) => match dest_code(destm) {
            None => Err(dest_err(destm)),
            Some(dc) => match jump_code(jumpm) {
                None => Err(jump_err(jumpm)),
                Some(jc) => Ok("111"@ + cc + dc + jc),
            },
        },
    }
}

/// What one address instruction does to the state: a decimal symbol is
/// emitted as given; a known symbol resolves through the table; a new
/// symbol is bound to the next free variable address, starting at 16.
pub open spec fn address_step(st: Pass2, sym: Seq<char>) -> Result<Pass2, Seq<char>> {
    if sym.len() > 0 && is_digit_char(sym[0]) {
        if all_digits(sym) && dec_value(sym) < 65536 {
            Ok(Pass2 { table: st.table, n_var: st.n_var, out: st.out.push(bin16(dec_value(sym))) })
        } else {
            Err(numeral_err(sym))
        }
    } else if st.table.contains_key(sym) {
        if st.table[sym] < 65536 {
            Ok(
                Pass2 {
                    table: st.table,
                    n_var: st.n_var,
                    out: st.out.push(bin16(st.table[sym] as nat)),
                },
            )
        } else {
            Err(range_err(sym))
        }
    } else if st.n_var + 16 < 65536 {
        Ok(
            Pass2 {
                table: st.table.insert(sym, (st.n_var + 16) as usize),
                n_var: st.n_var + 1,
                out: st.out.push(bin16(st.n_var + 16)),
            },
        )
    } else {
        Err(range_err(sym))
    }
}

/// What one line does to the second pass's state.
pub open spec fn pass2_step(st: Pass2, line: Seq<char>) -> Result<Pass2, Seq<char>> {
    match command_kind(line) {
        Command::CCommand => match encode_compute(line) {
            Ok(b) => Ok(Pass2 { table: st.table, n_var: st.n_var, out: st.out.push(b) }),
            Err(e) => Err(e),
        },
        Command::ACommand => address_step(st, a_symbol(line)),
        Command::LCommand => Ok(st),
    }
}

/// The second pass over a run of lines, stopping at the first error.
pub open spec fn pass2_run(lines: Seq<Seq<char>>, st: Pass2) -> Result<Pass2, Seq<char>>
    decreases lines.len(),
{
    if lines.len() == 0 {
        Ok(st)
    } else {
        match pass2_step(st, lines[0]) {
            Ok(st2) => pass2_run(lines.drop_first(), st2),
            Err(e) => Err(e),
        }
    }
}

/// The whole assembler as a function of the source text: first pass to
/// gather labels, second pass to emit the binary words.
pub open spec fn assemble_spec(source: Seq<char>) -> Result<Seq<Seq<char>>, Seq<char>> {
    let lines = clean_lines_spec(source);
    let init = Pass2 { table: first_pass(lines), n_var: 0, out: Seq::empty() };
    match pass2_run(lines, init) {
        Ok(st) => Ok(st.out),
        Err(e) => Err(e),
    }
}

/// The distinct new variables of a run of lines, in first-occurrence
/// order: the symbolic, non-numeric address operands whose symbol is not
/// yet bound.
pub open spec fn new_vars(lines: Seq<Seq<char>>, dom: Set<Seq<char>>) -> Seq<Seq<char>>
    decreases lines.len(),
{
    if lines.len() == 0 {
        Seq::empty()
    } else {
        let l = lines[0];
        let rest = lines.drop_first();
        if command_kind(l) is ACommand {
            let s = a_symbol(l);
            if !(s.len() > 0 && is_digit_char(s[0])) && !dom.contains(s) {
                seq![s] + new_vars(rest, dom.insert(s))
            } else {
                new_vars(rest, dom)
            }
        } else {
            new_vars(rest, dom)
        }
    }
}

/// The second pass never rebinds a symbol that already stands in the
/// table.
proof fn lemma_pass2_preserves(lines: Seq<Seq<char>>, st: Pass2, s: Seq<char>)
    requires
        st.table.contains_key(s),
        pass2_run(lines, st) is Ok,
    ensures
        pass2_run(lines, st) matches Ok(r) ==> r.table.contains_key(s) && r.table[s]
            == st.table[s],
    decreases lines.len(),
{
    if lines.len() > 0 {
        match pass2_step(st, lines[0]) {
            Ok(st2) => {
                lemma_pass2_preserves(lines.drop_first(), st2, s);
            },
            Err(_) => {},
        }
    }
}

/// Variable addresses are handed out from 16 upward, one per distinct new
/// variable in first-occurrence order; referencing a variable again
/// consumes no new address.
pub proof fn lemma_variable_addresses(lines: Seq<Seq<char>>, st: Pass2)
    requires
        pass2_run(lines, st) is Ok,
    ensures
        pass2_run(lines, st) matches Ok(r) ==> {
            let vs = new_vars(lines, st.table.dom());
            r.n_var == st.n_var + vs.len() && (forall|k: int|
                0 <= k < vs.len() ==> r.table.contains_key(#[trigger] vs[k]) && r.table[vs[k]]
                    == st.n_var + 16 + k)
        },
    decreases lines.len(),
{
    if lines.len() > 0 {
        let l = lines[0];
        let rest = lines.drop_first();
        let vs = new_vars(lines, st.table.dom());
        match pass2_step(st, l) {
            Ok(st2) => {
                lemma_variable_addresses(rest, st2);
                let r = match pass2_run(rest, st2) {
                    Ok(r) => r,
                    Err(_) => st2,
                };
                if command_kind(l) is ACommand {
                    let s = a_symbol(l);
                    if !(s.len() > 0 && is_digit_char(s[0])) && !st.table.dom().contains(s) {
                        assert(st2.table == st.table.insert(s, (st.n_var + 16) as usize));
                        assert(st2.table.dom() =~= st.table.dom().insert(s));
                        let vs2 = new_vars(rest, st.table.dom().insert(s));
                        assert(vs =~= seq![s] + vs2);
                        lemma_pass2_preserves(rest, st2, s);
                        assert forall|k: int|
                            0 <= k < vs.len() implies r.table.contains_key(#[trigger] vs[k])
                            && r.table[vs[k]] == st.n_var + 16 + k by {
                            if k == 0 {
                                assert(vs[0] == s);
                                assert(st2.table[s] == st.n_var + 16);
                            } else {
                                assert(vs[k] == vs2[k - 1]);
                            }
                        }
                    } else {
                        assert(st2.table == st.table);
                        assert(vs == new_vars(rest, st.table.dom()));
                    }
                } else {
                    assert(st2.table == st.table);
                    assert(vs == new_vars(rest, st.table.dom()));
                }
            },
            Err(_) => {},
        }
    }
}

/// A line of binary output: exactly sixteen characters, each a binary
/// digit.
pub open spec fn is_binary_word(w: Seq<char>) -> bool {
    w.len() == 16 && (forall|i: int| 0 <= i < w.len() ==> #[trigger] w[i] == '0' || w[i] == '1')
}

/// A successful second pass appends only binary words to an output that
/// held only binary words.
proof fn lemma_pass2_words(lines: Seq<Seq<char>>, st: Pass2)
    requires
        pass2_run(lines, st) is Ok,
        forall|i: int| 0 <= i < st.out.len() ==> is_binary_word(#[trigger] st.out[i]),
    ensures
        pass2_run(lines, st) matches Ok(r) ==> forall|i: int|
            0 <= i < r.out.len() ==> is_binary_word(#[trigger] r.out[i]),
    decreases lines.len(),
{
    if lines.len() > 0 {
        let l = lines[0];
        match pass2_step(st, l) {
            Ok(st2) => {
                lemma_pass2_step_words(st, l, st2);
                lemma_pass2_words(lines.drop_first(), st2);
            },
            Err(_) => {},
        }
    }
}

/// One accepted line pushes at most one word, and that word is sixteen
/// binary digits.
proof fn lemma_pass2_step_words(st: Pass2, l: Seq<char>, st2: Pass2)
    requires
        pass2_step(st, l) == Ok::<Pass2, Seq<char>>(st2),
        forall|i: int| 0 <= i < st.out.len() ==> is_binary_word(#[trigger] st.out[i]),
    ensures
        forall|i: int| 0 <= i < st2.out.len() ==> is_binary_word(#[trigger] st2.out[i]),
{
    reveal_strlit("111");
    assert("111"@ =~= seq!['1', '1', '1']);
    crate::assembler::code::lemma_code_words(comp_of(l));
    crate::assembler::code::lemma_code_words(
        match dest_of(l) {
            Some(d) => d,
            None => "null"@,
        },
    );
    crate::assembler::code::lemma_code_words(
        match jump_of(l) {
            Some(j) => j,
            None => "null"@,
        },
    );
    crate::text::lemma_bin_digits_len(dec_value(a_symbol(l)), 16);
    crate::text::lemma_bin_digits_len(st.table[a_symbol(l)] as nat, 16);
    crate::text::lemma_bin_digits_len(st.n_var + 16, 16);
    crate::text::lemma_bin_digits_chars(dec_value(a_symbol(l)), 16);
    crate::text::lemma_bin_digits_chars(st.table[a_symbol(l)] as nat, 16);
    crate::text::lemma_bin_digits_chars(st.n_var + 16, 16);
    assert forall|i: int| 0 <= i < st2.out.len() implies is_binary_word(#[trigger] st2.out[i]) by {
        if i < st.out.len() {
            assert(st2.out[i] == st.out[i]);
        } else {
            assert(st2.out[i] == st2.out.last());
            let w = st2.out[i];
            if command_kind(l) is CCommand {
                let cc = comp_code(comp_of(l))->Some_0;
                let dc = dest_code(
                    match dest_of(l) {
                        Some(d) => d,
                        None => "null"@,
                    },
                )->Some_0;
                let jc = jump_code(
                    match jump_of(l) {
                        Some(j) => j,
                        None => "null"@,
                    },
                )->Some_0;
                assert(w == "111"@ + cc + dc + jc);
                assert forall|j: int| 0 <= j < w.len() implies #[trigger] w[j] == '0' || w[j]
                    == '1' by {
                    if j < 3 {
                        assert(w[j] == "111"@[j]);
                    } else if j < 10 {
                        assert(w[j] == cc[j - 3]);
                    } else if j < 13 {
                        assert(w[j] == dc[j - 10]);
                    } else {
                        assert(w[j] == jc[j - 13]);
                    }
                }
            }
        }
    }
}

/// Every line of the assembler's output is exactly sixteen characters of
/// `0` and `1`.
pub proof fn lemma_output_words_are_binary(source: Seq<char>)
    requires
        assemble_spec(source) is Ok,
    ensures
        assemble_spec(source) matches Ok(v) ==> forall|i: int|
            0 <= i < v.len() ==> is_binary_word(#[trigger] v[i]),
{
    let lines = clean_lines_spec(source);
    let init = Pass2 { table: first_pass(lines), n_var: 0, out: Seq::empty() };
    lemma_pass2_words(lines, init);
}

/// The second pass emits exactly one word per non-label line, in source
/// order with label lines elided, so a label's recorded address indexes
/// the word emitted for the instruction after it.
pub proof fn lemma_one_word_per_instruction(lines: Seq<Seq<char>>, st: Pass2)
    requires
        pass2_run(lines, st) is Ok,
    ensures
        pass2_run(lines, st) matches Ok(r) ==> r.out.len() == st.out.len() + count_instructions(
            lines,
        ),
    decreases lines.len(),
{
    if lines.len() > 0 {
        match pass2_step(st, lines[0]) {
            Ok(st2) => {
                lemma_one_word_per_instruction(lines.drop_first(), st2);
            },
            Err(_) => {},
        }
    }
}

/// Re-running the assembler on an unchanged source reproduces identical
/// output: the result is a function of the source text alone, and
/// `assemble` starts every counter from its documented initial value.
pub proof fn lemma_assemble_deterministic(s1: Seq<char>, s2: Seq<char>)
    requires
        s1 == s2,
    ensures
        assemble_spec(s1) == assemble_spec(s2),
{
}

fn numeral_err_string(sym: &String) -> (e: String)
    ensures
        e@ == numeral_err(sym@),
{
    let mut e = String::from_str("symbol ");
    e.append(sym.as_str());
    e.append(" is not a valid 16-bit address.");
    e
}

fn range_err_string(sym: &String) -> (e: String)
    ensures
        e@ == range_err(sym@),
{
    let mut e = String::from_str("address of symbol ");
    e.append(sym.as_str());
    e.append(" does not fit in 16 bits.");
    e
}

/// Assembles one whole assembly source into binary words, one 16-character
/// line per non-label instruction, in source order.
pub fn assemble(source: &str) -> (r: Result<Vec<String>, String>)
    ensures
        match r {
            Ok(v) => assemble_spec(source@) == Ok::<Seq<Seq<char>>, Seq<char>>(
                v@.map_values(|l: String| l@),
            ),
            Err(e) => assemble_spec(source@) == Err::<Seq<Seq<char>>, Seq<char>>(e@),
        },
{
    let mut first = Parser::new(source);
    let ghost lines = first@.lines;
    let mut symbol_table = make_symbol_table(&mut first);
    let mut parser = Parser::new(source);
    let mut out: Vec<String> = Vec::new();
    let mut n_var: usize = 0;
    let ghost init = Pass2 { table: first_pass(lines), n_var: 0, out: Seq::empty() };
    proof {
        assert(lines.skip(0) =~= lines);
        assert(out@.map_values(|l: String| l@) =~= Seq::<Seq<char>>::empty());
    }
    while parser.has_more_commands()
        invariant
            parser@.lines == lines,
            lines == clean_lines_spec(source@),
            lines.len() <= usize::MAX,
            parser@.current <= lines.len(),
            n_var <= 65520,
            init == (Pass2 { table: first_pass(lines), n_var: 0 as nat, out: Seq::<Seq<char>>::empty() }),
            pass2_run(lines, init) == pass2_run(
                lines.skip(parser@.current as int),
                Pass2 {
                    table: symbol_table@,
                    n_var: n_var as nat,
                    out: out@.map_values(|l: String| l@),
                },
            ),
        decreases lines.len() - parser@.current,
    {
        parser.advance();
        let ghost cur = parser@.current - 1;
        let ghost st = Pass2 {
            table: symbol_table@,
            n_var: n_var as nat,
            out: out@.map_values(|l: String| l@),
        };
        proof {
            assert(lines.skip(cur).drop_first() =~= lines.skip(cur + 1));
            assert(lines.skip(cur)[0] == lines[cur]);
        }
        match parser.command_type() {
            Command::CCommand => {
                let comp_field = Code::new(parser.comp());
                let cc = match comp_field.comp() {
                    Ok(cc) => cc,
                    Err(e) => {
                        return Err(e);
                    },
                };
                let dest_field = Code::new(parser.dest());
                let dc = match dest_field.dest() {
                    Ok(dc) => dc,
                    Err(e) => {
                        return Err(e);
                    },
                };
                let jump_field = Code::new(parser.jump());
                let jc = match jump_field.jump() {
                    Ok(jc) => jc,
                    Err(e) => {
                        return Err(e);
                    },
                };
                let mut word = String::from_str("111");
                word.append(cc.as_str());
                word.append(dc.as_str());
                word.append(jc.as_str());
                let ghost old_out = out@;
                out.push(word);
                proof {
                    assert(out@.map_values(|l: String| l@)
                        =~= old_out.map_values(|l: String| l@).push(
                        "111"@ + cc@ + dc@ + jc@,
                    ));
                }
            },
            Command::ACommand => {
                let symbol = match parser.symbol() {
                    Ok(s) => s,
                    Err(e) => {
                        proof {
                            assert(false);
                        }
                        return Err(e);
                    },
                };
                let n = symbol.as_str().unicode_len();
                if n > 0 && is_digit(symbol.as_str().get_char(0)) {
                    match parse_u16(symbol.as_str()) {
                        Some(v) => {
                            let ghost old_out = out@;
                            out.push(to_bin16(v));
                            proof {
                                assert(out@.map_values(|l: String| l@)
                                    =~= old_out.map_values(|l: String| l@).push(
                                    bin16(dec_value(symbol@)),
                                ));
                            }
                        },
                        None => {
                            return Err(numeral_err_string(&symbol));
                        },
                    }
                } else if symbol_table.contains(&symbol) {
                    let a = symbol_table.get_address(&symbol);
                    if a < 65536 {
                        let ghost old_out = out@;
                        out.push(to_bin16(a));
                        proof {
                            assert(out@.map_values(|l: String| l@)
                                =~= old_out.map_values(|l: String| l@).push(bin16(a as nat)));
                        }
                    } else {
                        return Err(range_err_string(&symbol));
                    }
                } else if n_var < 65520 {
                    let addr = n_var + 16;
                    let ghost old_out = out@;
                    symbol_table.add_entry(symbol, addr);
                    out.push(to_bin16(addr));
                    n_var = n_var + 1;
                    proof {
                        assert(out@.map_values(|l: String| l@)
                            =~= old_out.map_values(|l: String| l@).push(bin16(addr as nat)));
                    }
                } else {
                    return Err(range_err_string(&symbol));
                }
            },
            Command::LCommand => {},
        }
    }
    proof {
        assert(lines.skip(lines.len() as int) =~= Seq::<Seq<char>>::empty());
    }
    Ok(out)
}

} // verus!

//! The symbol table, pre-seeded with the architecture's reserved names, and
//! the assembler's first pass, which records every label's address.

use vstd::prelude::*;
use vstd::string::*;
use crate::assembler::parser::{command_kind, l_symbol, Command, Parser};
use crate::table::StrMap;
use crate::text::{is_digit, is_digit_char};

verus! {

/// The addresses the architecture fixes before any source is read.
pub open spec fn reserved_map() -> Map<Seq<char>, usize> {
    Map::<Seq<char>, usize>::empty().insert("SP"@, 0).insert("LCL"@, 1).insert("ARG"@, 2).insert(
        "THIS"@,
        3,
    ).insert("THAT"@, 4).insert("R0"@, 0).insert("R1"@, 1).insert("R2"@, 2).insert(
        "R3"@,
        3,
    ).insert("R4"@, 4).insert("R5"@, 5).insert("R6"@, 6).insert("R7"@, 7).insert(
        "R8"@,
        8,
    ).insert("R9"@, 9).insert("R10"@, 10).insert("R11"@, 11).insert("R12"@, 12).insert(
        "R13"@,
        13,
    ).insert("R14"@, 14).insert("R15"@, 15).insert("SCREEN"@, 16384).insert("KBD"@, 24576)
}

pub struct SymbolTable {
    table: StrMap,
}

impl View for SymbolTable {
    type V = Map<Seq<char>, usize>;

    closed spec fn view(&self) -> Map<Seq<char>, usize> {
        self.table@
    }
}

impl SymbolTable {
    /// A fresh table holding exactly the reserved names.
    pub fn new() -> (t: Self)
        ensures
            t@ == reserved_map(),
    {
        let mut table = StrMap::new();
        table.insert(String::from_str("SP"), 0);
        table.insert(String::from_str("LCL"), 1);
        table.insert(String::from_str("ARG"), 2);
        table.insert(String::from_str("THIS"), 3);
        table.insert(String::from_str("THAT"), 4);
        table.insert(String::from_str("R0"), 0);
        table.insert(String::from_str("R1"), 1);
        table.insert(String::from_str("R2"), 2);
        table.insert(String::from_str("R3"), 3);
        table.insert(String::from_str("R4"), 4);
        table.insert(String::from_str("R5"), 5);
        table.insert(String::from_str("R6"), 6);
        table.insert(String::from_str("R7"), 7);
        table.insert(String::from_str("R8"), 8);
        table.insert(String::from_str("R9"), 9);
        table.insert(String::from_str("R10"), 10);
        table.insert(String::from_str("R11"), 11);
        table.insert(String::from_str("R12"), 12);
        table.insert(String::from_str("R13"), 13);
        table.insert(String::from_str("R14"), 14);
        table.insert(String::from_str("R15"), 15);
        table.insert(String::from_str("SCREEN"), 16384);
        table.insert(String::from_str("KBD"), 24576);
        Self { table }
    }

    pub fn add_entry(&mut self, symbol: String, address: usize)
        ensures
            final(self)@ == old(self)@.insert(symbol@, address),
    {
        self.table.insert(symbol, address);
    }

    pub fn contains(&self, symbol: &String) -> (r: bool)
        ensures
            r == self@.contains_key(symbol@),
    {
        self.table.contains(symbol.as_str())
    }

    pub fn get_address(&self, symbol: &String) -> (a: usize)
        requires
            self@.contains_key(symbol@),
        ensures
            a == self@[symbol@],
    {
        self.table.get(symbol.as_str())
    }
}

/// Every reserved name resolves to its fixed address in a fresh table,
/// before any entry is added.
#[verifier::rlimit(60)]
pub proof fn lemma_reserved_addresses()
    ensures
        reserved_map().contains_key("SP"@) && reserved_map()["SP"@] == 0,
        reserved_map().contains_key("LCL"@) && reserved_map()["LCL"@] == 1,
        reserved_map().contains_key("ARG"@) && reserved_map()["ARG"@] == 2,
        reserved_map().contains_key("THIS"@) && reserved_map()["THIS"@] == 3,
        reserved_map().contains_key("THAT"@) && reserved_map()["THAT"@] == 4,
        reserved_map().contains_key("R0"@) && reserved_map()["R0"@] == 0,
        reserved_map().contains_key("R1"@) && reserved_map()["R1"@] == 1,
        reserved_map().contains_key("R2"@) && reserved_map()["R2"@] == 2,
        reserved_map().contains_key("R3"@) && reserved_map()["R3"@] == 3,
        reserved_map().contains_key("R4"@) && reserved_map()["R4"@] == 4,
        reserved_map().contains_key("R5"@) && reserved_map()["R5"@] == 5,
        reserved_map().contains_key("R6"@) && reserved_map()["R6"@] == 6,
        reserved_map().contains_key("R7"@) && reserved_map()["R7"@] == 7,
        reserved_map().contains_key("R8"@) && reserved_map()["R8"@] == 8,
        reserved_map().contains_key("R9"@) && reserved_map()["R9"@] == 9,
        reserved_map().contains_key("R10"@) && reserved_map()["R10"@] == 10,
        reserved_map().contains_key("R11"@) && reserved_map()["R11"@] == 11,
        reserved_map().contains_key("R12"@) && reserved_map()["R12"@] == 12,
        reserved_map().contains_key("R13"@) && reserved_map()["R13"@] == 13,
        reserved_map().contains_key("R14"@) && reserved_map()["R14"@] == 14,
        reserved_map().contains_key("R15"@) && reserved_map()["R15"@] == 15,
        reserved_map().contains_key("SCREEN"@) && reserved_map()["SCREEN"@] == 16384,
        reserved_map().contains_key("KBD"@) && reserved_map()["KBD"@] == 24576,
{
    reveal_strlit("SP");
    reveal_strlit("LCL");
    reveal_strlit("ARG");
    reveal_strlit("THIS");
    reveal_strlit("THAT");
    reveal_strlit("R0");
    reveal_strlit("R1");
    reveal_strlit("R2");
    reveal_strlit("R3");
    reveal_strlit("R4");
    reveal_strlit("R5");
    reveal_strlit("R6");
    reveal_strlit("R7");
    reveal_strlit("R8");
    reveal_strlit("R9");
    reveal_strlit("R10");
    reveal_strlit("R11");
    reveal_strlit("R12");
    reveal_strlit("R13");
    reveal_strlit("R14");
    reveal_strlit("R15");
    reveal_strlit("SCREEN");
    reveal_strlit("KBD");
    assert("SP"@ =~= seq!['S', 'P']);
    assert("LCL"@ =~= seq!['L', 'C', 'L']);
    assert("ARG"@ =~= seq!['A', 'R', 'G']);
    assert("THIS"@ =~= seq!['T', 'H', 'I', 'S']);
    assert("THAT"@ =~= seq!['T', 'H', 'A', 'T']);
    assert("R0"@ =~= seq!['R', '0']);
    assert("R1"@ =~= seq!['R', '1']);
    assert("R2"@ =~= seq!['R', '2']);
    assert("R3"@ =~= seq!['R', '3']);
    assert("R4"@ =~= seq!['R', '4']);
    assert("R5"@ =~= seq!['R', '5']);
    assert("R6"@ =~= seq!['R', '6']);
    assert("R7"@ =~= seq!['R', '7']);
    assert("R8"@ =~= seq!['R', '8']);
    assert("R9"@ =~= seq!['R', '9']);
    assert("R10"@ =~= seq!['R', '1', '0']);
    assert("R11"@ =~= seq!['R', '1', '1']);
    assert("R12"@ =~= seq!['R', '1', '2']);
    assert("R13"@ =~= seq!['R', '1', '3']);
    assert("R14"@ =~= seq!['R', '1', '4']);
    assert("R15"@ =~= seq!['R', '1', '5']);
    assert("SCREEN"@ =~= seq!['S', 'C', 'R', 'E', 'E', 'N']);
    assert("KBD"@ =~= seq!['K', 'B', 'D']);
}

/// What the first pass makes of the lines still to be read, starting from
/// table `m` with `count` instructions already seen: each label whose symbol
/// does not begin with a digit is recorded at the count of non-label lines
/// before it.
pub open spec fn first_pass_from(
    lines: Seq<Seq<char>>,
    m: Map<Seq<char>, usize>,
    count: nat,
) -> Map<Seq<char>, usize>
    decreases lines.len(),
{
    if lines.len() == 0 {
        m
    } else {
        let l = lines[0];
        if command_kind(l) is LCommand {
            let s = l_symbol(l);
            if s.len() > 0 && !is_digit_char(s[0]) {
                first_pass_from(lines.drop_first(), m.insert(s, count as usize), count)
            } else {
                first_pass_from(lines.drop_first(), m, count)
            }
        } else {
            first_pass_from(lines.drop_first(), m, count + 1)
        }
    }
}

/// The symbol table after the first pass over a whole source.
pub open spec fn first_pass(lines: Seq<Seq<char>>) -> Map<Seq<char>, usize> {
    first_pass_from(lines, reserved_map(), 0)
}

/// The first pass: walks every line once and records each label at the
/// count of non-label instructions seen so far.
pub fn make_symbol_table(parser: &mut Parser) -> (t: SymbolTable)
    requires
        old(parser)@.current == 0,
        old(parser)@.lines.len() <= usize::MAX,
    ensures
        t@ == first_pass(old(parser)@.lines),
        final(parser)@.lines == old(parser)@.lines,
        final(parser)@.current == old(parser)@.lines.len(),
{
    let mut symbol_table = SymbolTable::new();
    let mut i: usize = 0;
    let ghost lines = parser@.lines;
    proof {
        assert(lines.skip(0) =~= lines);
    }
    while parser.has_more_commands()
        invariant
            parser@.lines == lines,
            lines.len() <= usize::MAX,
            parser@.current <= lines.len(),
            i <= parser@.current,
            first_pass(lines) == first_pass_from(
                lines.skip(parser@.current as int),
                symbol_table@,
                i as nat,
            ),
        decreases lines.len() - parser@.current,
    {
        parser.advance();
        let ghost cur = parser@.current - 1;
        proof {
            assert(lines.skip(cur).drop_first() =~= lines.skip(cur + 1));
            assert(lines.skip(cur)[0] == lines[cur]);
        }
        match parser.command_type() {
            Command::LCommand => {
                match parser.symbol() {
                    Ok(symbol) => {
                        let n = symbol.as_str().unicode_len();
                        if n > 0 && !is_digit(symbol.as_str().get_char(0)) {
                            symbol_table.add_entry(symbol, i);
                        }
                    },
                    Err(_) => {
                        proof {
                            assert(false);
                        }
                    },
                }
            },
            _ => {
                i = i + 1;
            },
        }
    }
    proof {
        assert(lines.skip(lines.len() as int) =~= Seq::<Seq<char>>::empty());
    }
    symbol_table
}

/// The count of lines that emit an instruction: every line but a label
/// declaration.
pub open spec fn count_instructions(lines: Seq<Seq<char>>) -> nat
    decreases lines.len(),
{
    if lines.len() == 0 {
        0
    } else {
        (if command_kind(lines[0]) is LCommand {
            0nat
        } else {
            1nat
        }) + count_instructions(lines.drop_first())
    }
}

pub proof fn lemma_count_instructions_bound(lines: Seq<Seq<char>>)
    ensures
        count_instructions(lines) <= lines.len(),
    decreases lines.len(),
{
    if lines.len() > 0 {
        lemma_count_instructions_bound(lines.drop_first());
    }
}

/// Lines that declare no label with the symbol `s` leave `s` alone.
proof fn lemma_first_pass_preserves(
    lines: Seq<Seq<char>>,
    m: Map<Seq<char>, usize>,
    count: nat,
    s: Seq<char>,
)
    requires
        forall|j: int|
            0 <= j < lines.len() ==> !(command_kind(#[trigger] lines[j]) is LCommand && l_symbol(
                lines[j],
            ) == s),
    ensures
        first_pass_from(lines, m, count).contains_key(s) == m.contains_key(s),
        m.contains_key(s) ==> first_pass_from(lines, m, count)[s] == m[s],
    decreases lines.len(),
{
    if lines.len() > 0 {
        let l = lines[0];
        if command_kind(l) is LCommand {
            let sym = l_symbol(l);
            if sym.len() > 0 && !is_digit_char(sym[0]) {
                lemma_first_pass_preserves(
                    lines.drop_first(),
                    m.insert(sym, count as usize),
                    count,
                    s,
                );
            } else {
                lemma_first_pass_preserves(lines.drop_first(), m, count, s);
            }
        } else {
            lemma_first_pass_preserves(lines.drop_first(), m, count + 1, s);
        }
    }
}

proof fn lemma_label_address_from(
    lines: Seq<Seq<char>>,
    m: Map<Seq<char>, usize>,
    count: nat,
    i: int,
)
    requires
        0 <= i < lines.len(),
        command_kind(lines[i]) is LCommand,
        l_symbol(lines[i]).len() > 0,
        !is_digit_char(l_symbol(lines[i])[0]),
        forall|j: int|
            i < j < lines.len() ==> !(command_kind(#[trigger] lines[j]) is LCommand && l_symbol(
                lines[j],
            ) == l_symbol(lines[i])),
        count + i <= usize::MAX,
    ensures
        first_pass_from(lines, m, count).contains_key(l_symbol(lines[i])),
        first_pass_from(lines, m, count)[l_symbol(lines[i])] == count + count_instructions(
            lines.take(i),
        ),
    decreases lines.len(),
{
    let s = l_symbol(lines[i]);
    let rest = lines.drop_first();
    if i == 0 {
        assert(lines.take(0) =~= Seq::<Seq<char>>::empty());
        let m2 = m.insert(s, count as usize);
        assert forall|j: int|
            0 <= j < rest.len() implies !(command_kind(#[trigger] rest[j]) is LCommand && l_symbol(
            rest[j],
        ) == s) by {
            assert(rest[j] == lines[j + 1]);
        }
        lemma_first_pass_preserves(rest, m2, count, s);
    } else {
        assert(lines.take(i).drop_first() =~= rest.take(i - 1));
        assert(rest[i - 1] == lines[i]);
        assert forall|j: int|
            i - 1 < j < rest.len() implies !(command_kind(#[trigger] rest[j]) is LCommand
            && l_symbol(rest[j]) == s) by {
            assert(rest[j] == lines[j + 1]);
        }
        let l = lines[0];
        if command_kind(l) is LCommand {
            let sym = l_symbol(l);
            lemma_count_instructions_bound(rest.take(i - 1));
            if sym.len() > 0 && !is_digit_char(sym[0]) {
                lemma_label_address_from(rest, m.insert(sym, count as usize), count, i - 1);
            } else {
                lemma_label_address_from(rest, m, count, i - 1);
            }
        } else {
            lemma_label_address_from(rest, m, count + 1, i - 1);
        }
    }
}

/// A label's address is the count of non-label lines before it, however
/// many label declarations stand in a row; a later declaration of the same
/// symbol, which the original would overwrite with, is the one exception.
pub proof fn lemma_label_addresses(lines: Seq<Seq<char>>, i: int)
    requires
        0 <= i < lines.len(),
        lines.len() <= usize::MAX,
        command_kind(lines[i]) is LCommand,
        l_symbol(lines[i]).len() > 0,
        !is_digit_char(l_symbol(lines[i])[0]),
        forall|j: int|
            i < j < lines.len() ==> !(command_kind(#[trigger] lines[j]) is LCommand && l_symbol(
                lines[j],
            ) == l_symbol(lines[i])),
    ensures
        first_pass(lines).contains_key(l_symbol(lines[i])),
        first_pass(lines)[l_symbol(lines[i])] == count_instructions(lines.take(i)),
{
    lemma_label_address_from(lines, reserved_map(), 0, i);
}

} // verus!

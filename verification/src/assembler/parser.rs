//! The assembly token reader: a cursor over the cleaned lines of one
//! assembly source, classifying each line and taking it apart.

use vstd::prelude::*;
use vstd::string::*;
use crate::text::{clean_lines_spec, clean_source, find_char_from, scan_char};

verus! {

pub enum Command {
    ACommand,
    CCommand,
    LCommand,
}

/// What kind of command a cleaned line is: an address instruction starts
/// with `@`, a label declaration is enclosed in parentheses, and anything
/// else is a compute instruction.
pub open spec fn command_kind(code: Seq<char>) -> Command {
    if code.len() > 0 && code[0] == '@' {
        Command::ACommand
    } else if code.len() > 0 && code[0] == '(' && code.last() == ')' {
        Command::LCommand
    } else {
        Command::CCommand
    }
}

/// The symbol of an address instruction: everything after the `@`.
pub open spec fn a_symbol(code: Seq<char>) -> Seq<char> {
    code.subrange(1, code.len() as int)
}

/// The symbol of a label declaration: everything between the parentheses.
pub open spec fn l_symbol(code: Seq<char>) -> Seq<char> {
    code.subrange(1, code.len() - 1)
}

/// The destination mnemonic and what follows the `=`, if the line has one.
pub open spec fn split_eq(code: Seq<char>) -> (Option<Seq<char>>, Seq<char>) {
    let e = find_char_from(code, '=', 0);
    if e < code.len() {
        (Some(code.take(e)), code.subrange(e + 1, code.len() as int))
    } else {
        (None, code)
    }
}

/// The computation mnemonic and the jump mnemonic, if a `;` separates one.
pub open spec fn split_semi(t: Seq<char>) -> (Seq<char>, Option<Seq<char>>) {
    let k = find_char_from(t, ';', 0);
    if k < t.len() {
        (t.take(k), Some(t.subrange(k + 1, t.len() as int)))
    } else {
        (t, None)
    }
}

pub open spec fn dest_of(code: Seq<char>) -> Option<Seq<char>> {
    split_eq(code).0
}

pub open spec fn comp_of(code: Seq<char>) -> Seq<char> {
    split_semi(split_eq(code).1).0
}

pub open spec fn jump_of(code: Seq<char>) -> Option<Seq<char>> {
    split_semi(split_eq(code).1).1
}

pub struct ParserView {
    pub lines: Seq<Seq<char>>,
    pub current: nat,
    pub code: Seq<char>,
}

pub struct Parser {
    lines: Vec<String>,
    current: usize,
    code: String,
}

impl View for Parser {
    type V = ParserView;

    closed spec fn view(&self) -> ParserView {
        ParserView {
            lines: self.lines@.map_values(|l: String| l@),
            current: self.current as nat,
            code: self.code@,
        }
    }
}

impl Parser {
    /// Loads one assembly source: comments and blank lines are dropped and
    /// the cursor stands before the first command.
    pub fn new(source: &str) -> (p: Parser)
        ensures
            p@.lines == clean_lines_spec(source@),
            p@.current == 0,
            p@.code == Seq::<char>::empty(),
            p@.lines.len() <= usize::MAX,
    {
        let p = Parser { lines: clean_source(source), current: 0, code: String::new() };
        proof {
            assert(p.lines.len() == p.lines@.len());
        }
        p
    }

    pub fn has_more_commands(&self) -> (b: bool)
        ensures
            b == (self@.current < self@.lines.len()),
    {
        self.current < self.lines.len()
    }

    /// Steps the cursor to the next command and loads it.
    pub fn advance(&mut self)
        requires
            old(self)@.current < old(self)@.lines.len(),
        ensures
            final(self)@.lines == old(self)@.lines,
            final(self)@.current == old(self)@.current + 1,
            final(self)@.code == old(self)@.lines[old(self)@.current as int],
    {
        proof {
            assert(self.lines.len() == self.lines@.len());
            assert(self@.lines.len() == self.lines@.len());
        }
        self.code = self.lines[self.current].clone();
        self.current = self.current + 1;
    }

    pub fn command_type(&self) -> (c: Command)
        ensures
            c == command_kind(self@.code),
    {
        let s = self.code.as_str();
        let n = s.unicode_len();
        if n > 0 && s.get_char(0) == '@' {
            Command::ACommand
        } else if n > 0 && s.get_char(0) == '(' && s.get_char(n - 1) == ')' {
            Command::LCommand
        } else {
            Command::CCommand
        }
    }

    /// The symbol of the current address instruction or label declaration.
    pub fn symbol(&self) -> (r: Result<String, String>)
        ensures
            match r {
                Ok(s) => (command_kind(self@.code) is ACommand && s@ == a_symbol(self@.code)) || (
                command_kind(self@.code) is LCommand && s@ == l_symbol(self@.code)),
                Err(e) => command_kind(self@.code) is CCommand && e@
                    == "Command type should be A_COMMAND or L_COMMAND."@,
            },
    {
        let s = self.code.as_str();
        let n = s.unicode_len();
        match self.command_type() {
            Command::ACommand => Ok(String::from_str(s.substring_char(1, n))),
            Command::LCommand => Ok(String::from_str(s.substring_char(1, n - 1))),
            Command::CCommand => Err(
                String::from_str("Command type should be A_COMMAND or L_COMMAND."),
            ),
        }
    }

    pub fn dest(&self) -> (r: Option<String>)
        ensures
            match r {
                Some(d) => dest_of(self@.code) == Some(d@),
                None => dest_of(self@.code) is None,
            },
    {
        self.decompose_c_command().0
    }

    pub fn comp(&self) -> (r: Option<String>)
        ensures
            match r {
                Some(c) => c@ == comp_of(self@.code),
                None => false,
            },
    {
        self.decompose_c_command().1
    }

    pub fn jump(&self) -> (r: Option<String>)
        ensures
            match r {
                Some(j) => jump_of(self@.code) == Some(j@),
                None => jump_of(self@.code) is None,
            },
    {
        self.decompose_c_command().2
    }

    /// Splits the current compute instruction on `=` and `;` into its
    /// destination, computation and jump fields; the computation is always
    /// present.
    pub fn decompose_c_command(&self) -> (r: (Option<String>, Option<String>, Option<String>))
        ensures
            match r.0 {
                Some(d) => dest_of(self@.code) == Some(d@),
                None => dest_of(self@.code) is None,
            },
            match r.1 {
                Some(c) => c@ == comp_of(self@.code),
                None => false,
            },
            match r.2 {
                Some(j) => jump_of(self@.code) == Some(j@),
                None => jump_of(self@.code) is None,
            },
    {
        let s = self.code.as_str();
        let n = s.unicode_len();
        let e = scan_char(s, '=', 0);
        let dest: Option<String>;
        let rest: &str;
        if e < n {
            dest = Some(String::from_str(s.substring_char(0, e)));
            rest = s.substring_char(e + 1, n);
        } else {
            dest = None;
            rest = s;
        }
        proof {
            assert(rest@ == split_eq(self@.code).1);
        }
        let m = rest.unicode_len();
        let k = scan_char(rest, ';', 0);
        let comp: Option<String>;
        let jump: Option<String>;
        if k < m {
            comp = Some(String::from_str(rest.substring_char(0, k)));
            jump = Some(String::from_str(rest.substring_char(k + 1, m)));
        } else {
            comp = Some(String::from_str(rest));
            jump = None;
        }
        (dest, comp, jump)
    }
}

} // verus!

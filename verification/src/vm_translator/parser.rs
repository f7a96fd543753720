//! The VM token reader: a cursor over the cleaned lines of one VM source,
//! classifying each command by its leading token and handing out its
//! arguments.

use vstd::prelude::*;
use vstd::string::*;
use crate::text::{clean_lines_spec, clean_source, split_tokens, string_eq, tokens_of};

verus! {

#[derive(Debug)]
pub enum Command {
    Arithmetic,
    Push,
    Pop,
    Label,
    Goto,
    If,
    Function,
    Return,
    Call,
}

/// The name the command kind shows in messages.
pub open spec fn kind_name(c: Command) -> Seq<char> {
    match c {
        Command::Arithmetic => "Arithmetic"@,
        Command::Push => "Push"@,
        Command::Pop => "Pop"@,
        Command::Label => "Label"@,
        Command::Goto => "Goto"@,
        Command::If => "If"@,
        Command::Function => "Function"@,
        Command::Return => "Return"@,
        Command::Call => "Call"@,
    }
}

/// What kind of command a line is, judged by its first token; any verb not
/// in the fixed set is an arithmetic command.
pub open spec fn vm_command_kind(code: Seq<char>) -> Command {
    let toks = tokens_of(code);
    if toks.len() == 0 {
        Command::Arithmetic
    } else if toks[0] == "push"@ {
        Command::Push
    } else if toks[0] == "pop"@ {
        Command::Pop
    } else if toks[0] == "label"@ {
        Command::Label
    } else if toks[0] == "goto"@ {
        Command::Goto
    } else if toks[0] == "if-goto"@ {
        Command::If
    } else if toks[0] == "function"@ {
        Command::Function
    } else if toks[0] == "call"@ {
        Command::Call
    } else if toks[0] == "return"@ {
        Command::Return
    } else {
        Command::Arithmetic
    }
}

/// The command kinds that carry a second argument.
pub open spec fn has_two_args(c: Command) -> bool {
    c is Push || c is Pop || c is Function || c is Call
}

pub open spec fn arg2_err(c: Command) -> Seq<char> {
    "command type "@ + kind_name(c) + " doesn't have two arguments."@
}

pub open spec fn missing_arg_err(line: Seq<char>) -> Seq<char> {
    "command `"@ + line + "` is missing an argument."@
}

pub struct ParserView {
    pub lines: Seq<Seq<char>>,
    pub current: nat,
    pub code: Seq<char>,
}

pub struct Parser {
    lines: Vec<String>,
    current: usize,
    code: String,
}

impl View for Parser {
    type V = ParserView;

    closed spec fn view(&self) -> ParserView {
        ParserView {
            lines: self.lines@.map_values(|l: String| l@),
            current: self.current as nat,
            code: self.code@,
        }
    }
}

impl Parser {
    /// Loads one VM source: comments and blank lines are dropped and the
    /// cursor stands before the first command.
    pub fn new(source: &str) -> (p: Parser)
        ensures
            p@.lines == clean_lines_spec(source@),
            p@.current == 0,
            p@.code == Seq::<char>::empty(),
            p@.lines.len() <= usize::MAX,
    {
        let p = Parser { lines: clean_source(source), current: 0, code: String::new() };
        proof {
            assert(p.lines.len() == p.lines@.len());
        }
        p
    }

    pub fn has_more_commands(&self) -> (b: bool)
        ensures
            b == (self@.current < self@.lines.len()),
    {
        self.current < self.lines.len()
    }

    /// Steps the cursor to the next command and loads it.
    pub fn advance(&mut self)
        requires
            old(self)@.current < old(self)@.lines.len(),
        ensures
            final(self)@.lines == old(self)@.lines,
            final(self)@.current == old(self)@.current + 1,
            final(self)@.code == old(self)@.lines[old(self)@.current as int],
    {
        proof {
            assert(self.lines.len() == self.lines@.len());
            assert(self@.lines.len() == self.lines@.len());
        }
        self.code = self.lines[self.current].clone();
        self.current = self.current + 1;
    }

    pub fn command_type(&self) -> (c: Command)
        requires
            tokens_of(self@.code).len() > 0,
        ensures
            c == vm_command_kind(self@.code),
    {
        let toks = split_tokens(self.code.as_str());
        proof {
            assert(toks@.map_values(|t: String| t@).len() == toks@.len());
            assert(toks@[0]@ == tokens_of(self@.code)[0]);
        }
        let head = &toks[0];
        if string_eq(head, "push") {
            Command::Push
        } else if string_eq(head, "pop") {
            Command::Pop
        } else if string_eq(head, "label") {
            Command::Label
        } else if string_eq(head, "goto") {
            Command::Goto
        } else if string_eq(head, "if-goto") {
            Command::If
        } else if string_eq(head, "function") {
            Command::Function
        } else if string_eq(head, "call") {
            Command::Call
        } else if string_eq(head, "return") {
            Command::Return
        } else {
            Command::Arithmetic
        }
    }

    /// The first argument of the current command; none exists for `return`,
    /// or when the line is too short.
    pub fn arg1(&self) -> (r: Result<String, String>)
        requires
            tokens_of(self@.code).len() > 0,
        ensures
            match r {
                Ok(s) => !(vm_command_kind(self@.code) is Return) && tokens_of(self@.code).len()
                    >= 2 && s@ == tokens_of(self@.code)[1],
                Err(e) => (vm_command_kind(self@.code) is Return && e@
                    == "Command type should not be C_RETURN."@) || (!(vm_command_kind(self@.code) is Return)
                    && tokens_of(self@.code).len() < 2 && e@ == missing_arg_err(self@.code)),
            },
    {
        match self.command_type() {
            Command::Return => Err(String::from_str("Command type should not be C_RETURN.")),
            _ => {
                let toks = split_tokens(self.code.as_str());
                proof {
                    assert(toks@.map_values(|t: String| t@).len() == toks@.len());
                }
                if toks.len() < 2 {
                    Err(self.missing_arg_string())
                } else {
                    proof {
                        assert(toks@[1]@ == tokens_of(self@.code)[1]);
                    }
                    Ok(toks[1].clone())
                }
            },
        }
    }

    fn missing_arg_string(&self) -> (e: String)
        ensures
            e@ == missing_arg_err(self@.code),
    {
        let mut e = String::from_str("command `");
        e.append(self.code.as_str());
        e.append("` is missing an argument.");
        e
    }

    /// The second argument of the current command, defined only for the
    /// kinds that carry one; an error names the kind that has none, or the
    /// line that is too short.
    pub fn arg2(&self) -> (r: Result<String, String>)
        requires
            tokens_of(self@.code).len() > 0,
        ensures
            match r {
                Ok(s) => has_two_args(vm_command_kind(self@.code)) && tokens_of(self@.code).len()
                    >= 3 && s@ == tokens_of(self@.code)[2],
                Err(e) => (!has_two_args(vm_command_kind(self@.code)) && e@ == arg2_err(
                    vm_command_kind(self@.code),
                )) || (has_two_args(vm_command_kind(self@.code)) && tokens_of(self@.code).len() < 3
                    && e@ == missing_arg_err(self@.code)),
            },
    {
        let kind = self.command_type();
        match kind {
            Command::Push | Command::Pop | Command::Function | Command::Call => {
                let toks = split_tokens(self.code.as_str());
                proof {
                    assert(toks@.map_values(|t: String| t@).len() == toks@.len());
                }
                if toks.len() < 3 {
                    return Err(self.missing_arg_string());
                }
                proof {
                    assert(toks@[2]@ == tokens_of(self@.code)[2]);
                }
                Ok(toks[2].clone())
            },
            _ => {
                let mut e = String::from_str("command type ");
                e.append(Self::kind_name_str(&kind));
                e.append(" doesn't have two arguments.");
                Err(e)
            },
        }
    }

    /// The command's own verb: its first token.
    pub fn command(&self) -> (r: String)
        requires
            tokens_of(self@.code).len() > 0,
        ensures
            r@ == tokens_of(self@.code)[0],
    {
        let toks = split_tokens(self.code.as_str());
        proof {
            assert(toks@.map_values(|t: String| t@).len() == toks@.len());
            assert(toks@[0]@ == tokens_of(self@.code)[0]);
        }
        toks[0].clone()
    }

    fn kind_name_str(c: &Command) -> (r: &'static str)
        ensures
            r@ == kind_name(*c),
    {
        match c {
            Command::Arithmetic => "Arithmetic",
            Command::Push => "Push",
            Command::Pop => "Pop",
            Command::Label => "Label",
            Command::Goto => "Goto",
            Command::If => "If",
            Command::Function => "Function",
            Command::Return => "Return",
            Command::Call => "Call",
        }
    }
}

} // verus!

//! The VM code generator: lowers each stack-machine command to a fixed or
//! parameterized block of assembly text, keeping the operand stack and the
//! calling convention's frame layout intact.

use vstd::prelude::*;
use vstd::string::*;
use crate::table::StrMap;
use crate::text::{
    all_digits, clean_lines_spec, dec_digits, dec_value, file_stem, file_stem_exec, is_digit_char,
    lemma_cleaned_lines_tokens, lemma_dec_digits_digits, lemma_dec_digits_injective, parse_usize,
    raw_lines, str_eq, tokens_of, usize_to_string,
};
use crate::vm_translator::parser::{missing_arg_err, vm_command_kind, Command, Parser};

verus! {

/// The generator's state: the current source path, the three comparison
/// serial counters, the per-function call counter, and the assembly text
/// emitted so far.
#[verifier::ext_equal]
pub struct GenState {
    pub vm_path: Seq<char>,
    pub n_eq: nat,
    pub n_gt: nat,
    pub n_lt: nat,
    pub calls: Map<Seq<char>, usize>,
    pub out: Seq<char>,
}

// ---------------------------------------------------------------------------
// Generated text, block by block
// ---------------------------------------------------------------------------

/// The label a comparison branches to: its kind's tag and its serial.
pub open spec fn cmp_label(tag: Seq<char>, n: nat) -> Seq<char> {
    tag + dec_digits(n)
}

/// The code of `eq`: subtract, branch on equality, materialize all-ones or
/// zero as the boolean result.
pub open spec fn eq_code(n: nat) -> Seq<char> {
    "@SP\nAM=M-1\nD=M\n@SP\nAM=M-1\nD=M-D\n@EQ.IF."@ + dec_digits(n) + "\nD;JEQ\nD=0\n@EQ.ENDIF."@
        + dec_digits(n) + "\n0;JMP\n(EQ.IF."@ + dec_digits(n) + ")\nD=-1\n(EQ.ENDIF."@ + dec_digits(
        n,
    ) + ")\n@SP\nA=M\nM=D\n@SP\nM=M+1\n"@
}

/// The code of `gt`, shaped as `eq` with its own labels and branch test.
pub open spec fn gt_code(n: nat) -> Seq<char> {
    "@SP\nAM=M-1\nD=M\n@SP\nAM=M-1\nD=M-D\n@GT.IF."@ + dec_digits(n) + "\nD;JGT\nD=0\n@GT.ENDIF."@
        + dec_digits(n) + "\n0;JMP\n(GT.IF."@ + dec_digits(n) + ")\nD=-1\n(GT.ENDIF."@ + dec_digits(
        n,
    ) + ")\n@SP\nA=M\nM=D\n@SP\nM=M+1\n"@
}

/// The code of `lt`, shaped as `eq` with its own labels and branch test.
pub open spec fn lt_code(n: nat) -> Seq<char> {
    "@SP\nAM=M-1\nD=M\n@SP\nAM=M-1\nD=M-D\n@LT.IF."@ + dec_digits(n) + "\nD;JLT\nD=0\n@LT.ENDIF."@
        + dec_digits(n) + "\n0;JMP\n(LT.IF."@ + dec_digits(n) + ")\nD=-1\n(LT.ENDIF."@ + dec_digits(
        n,
    ) + ")\n@SP\nA=M\nM=D\n@SP\nM=M+1\n"@
}

/// The code of one arithmetic command, with the comparison counters it
/// leaves behind; nothing for an unknown verb.
pub open spec fn arith_code(cmd: Seq<char>, n_eq: nat, n_gt: nat, n_lt: nat) -> Option<
    (Seq<char>, nat, nat, nat),
> {
    if cmd == "add"@ {
        Some(("@SP\nAM=M-1\nD=M\n@SP\nAM=M-1\nM=D+M\n@SP\nM=M+1\n"@, n_eq, n_gt, n_lt))
    } else if cmd == "sub"@ {
        Some(("@SP\nAM=M-1\nD=M\n@SP\nAM=M-1\nM=M-D\n@SP\nM=M+1\n"@, n_eq, n_gt, n_lt))
    } else if cmd == "neg"@ {
        Some(("@SP\nAM=M-1\nM=-M\n@SP\nM=M+1\n"@, n_eq, n_gt, n_lt))
    } else if cmd == "eq"@ {
        Some((eq_code(n_eq + 1), n_eq + 1, n_gt, n_lt))
    } else if cmd == "gt"@ {
        Some((gt_code(n_gt + 1), n_eq, n_gt + 1, n_lt))
    } else if cmd == "lt"@ {
        Some((lt_code(n_lt + 1), n_eq, n_gt, n_lt + 1))
    } else if cmd == "and"@ {
        Some(("@SP\nAM=M-1\nD=M\n@SP\nAM=M-1\nM=D&M\n@SP\nM=M+1\n"@, n_eq, n_gt, n_lt))
    } else if cmd == "or"@ {
        Some(("@SP\nAM=M-1\nD=M\n@SP\nAM=M-1\nM=D|M\n@SP\nM=M+1\n"@, n_eq, n_gt, n_lt))
    } else if cmd == "not"@ {
        Some(("@SP\nAM=M-1\nM=!M\n@SP\nM=M+1\n"@, n_eq, n_gt, n_lt))
    } else {
        None
    }
}

pub open spec fn undefined_arith_err(cmd: Seq<char>) -> Seq<char> {
    "Undefined command `"@ + cmd + "`."@
}

/// What one arithmetic command does to the state: the comment is written
/// first, so it stands in the output even when the verb is unknown.
pub open spec fn arith_step(st: GenState, cmd: Seq<char>) -> (GenState, Option<Seq<char>>) {
    let commented = st.out + "// "@ + cmd + "\n"@;
    match arith_code(cmd, st.n_eq, st.n_gt, st.n_lt) {
        Some(r) => (
            GenState {
                vm_path: st.vm_path,
                n_eq: r.1,
                n_gt: r.2,
                n_lt: r.3,
                calls: st.calls,
                out: commented + r.0,
            },
            None,
        ),
        None => (
            GenState {
                vm_path: st.vm_path,
                n_eq: st.n_eq,
                n_gt: st.n_gt,
                n_lt: st.n_lt,
                calls: st.calls,
                out: commented,
            },
            Some(undefined_arith_err(cmd)),
        ),
    }
}

/// The code that leaves a segment's resolved address in the first scratch
/// register; the second scratch register carries a `constant`'s value.
pub open spec fn segment_address(segment: Seq<char>, index: nat, stem: Seq<char>) -> Option<
    Seq<char>,
> {
    if segment == "argument"@ {
        Some("@"@ + dec_digits(index) + "\nD=A\n@ARG\nD=D+M\n@R13\nM=D\n"@)
    } else if segment == "local"@ {
        Some("@"@ + dec_digits(index) + "\nD=A\n@LCL\nD=D+M\n@R13\nM=D\n"@)
    } else if segment == "static"@ {
        Some("@"@ + stem + "."@ + dec_digits(index) + "\nD=A\n@R13\nM=D\n"@)
    } else if segment == "constant"@ {
        Some("@"@ + dec_digits(index) + "\nD=A\n@R14\nM=D\nD=A\n@R13\nM=D\n"@)
    } else if segment == "this"@ {
        Some("@"@ + dec_digits(index) + "\nD=A\n@THIS\nD=D+M\n@R13\nM=D\n"@)
    } else if segment == "that"@ {
        Some("@"@ + dec_digits(index) + "\nD=A\n@THAT\nD=D+M\n@R13\nM=D\n"@)
    } else if segment == "pointer"@ {
        Some("@"@ + dec_digits(index) + "\nD=A\n@3\nD=D+A\n@R13\nM=D\n"@)
    } else if segment == "temp"@ {
        Some("@"@ + dec_digits(index) + "\nD=A\n@5\nD=D+A\n@R13\nM=D\n"@)
    } else {
        None
    }
}

/// The code of a push or pop through the resolved address; nothing for an
/// unknown segment or verb.
pub open spec fn push_pop_code(
    command: Seq<char>,
    segment: Seq<char>,
    index: nat,
    stem: Seq<char>,
) -> Option<Seq<char>> {
    match segment_address(segment, index, stem) {
        None => None,
        Some(addr) => if command == "push"@ {
            Some(addr + "@R13\nA=M\nD=M\n@SP\nA=M\nM=D\n@SP\nM=M+1\n"@)
        } else if command == "pop"@ {
            Some(addr + "@SP\nAM=M-1\nD=M\n@R13\nA=M\nM=D\n"@)
        } else {
            None
        },
    }
}

pub open spec fn undefined_push_pop_err(command: Seq<char>, segment: Seq<char>, index: nat) -> Seq<
    char,
> {
    "Undefined command `"@ + command + " "@ + segment + " "@ + dec_digits(index) + "`."@
}

/// What one push or pop does to the state; the comment is written first.
pub open spec fn push_pop_step(
    st: GenState,
    command: Seq<char>,
    segment: Seq<char>,
    index: nat,
) -> (GenState, Option<Seq<char>>) {
    let commented = st.out + "// "@ + command + " "@ + segment + " "@ + dec_digits(index) + "\n"@;
    match push_pop_code(command, segment, index, file_stem(st.vm_path)) {
        Some(code) => (
            GenState {
                vm_path: st.vm_path,
                n_eq: st.n_eq,
                n_gt: st.n_gt,
                n_lt: st.n_lt,
                calls: st.calls,
                out: commented + code,
            },
            None,
        ),
        None => (
            GenState {
                vm_path: st.vm_path,
                n_eq: st.n_eq,
                n_gt: st.n_gt,
                n_lt: st.n_lt,
                calls: st.calls,
                out: commented,
            },
            Some(undefined_push_pop_err(command, segment, index)),
        ),
    }
}

/// The text a label declaration appends.
pub open spec fn label_text(label: Seq<char>) -> Seq<char> {
    "// label ("@ + label + ")\n("@ + label + ")\n"@
}

/// The text a goto appends.
pub open spec fn goto_text(label: Seq<char>) -> Seq<char> {
    "// goto "@ + label + "\n@"@ + label + "\n0;JMP\n"@
}

/// The text an if-goto appends: it branches when the popped value is
/// nonzero.
pub open spec fn if_text(label: Seq<char>) -> Seq<char> {
    "// if-goto "@ + label + "\n@SP\nAM=M-1\nD=M\n@"@ + label + "\nD;JNE\n"@
}

/// The return-address label of the `n`-th call of a function.
pub open spec fn return_label(function: Seq<char>, n: nat) -> Seq<char> {
    "RETURN."@ + function + "."@ + dec_digits(n)
}

/// The text of one `call`: push the return address and the caller's four
/// registers, reposition ARG and LCL, jump, and declare the return label.
pub open spec fn call_text(function: Seq<char>, num_args: nat, n: nat) -> Seq<char> {
    "// call "@ + function + " "@ + dec_digits(num_args) + "\n"@ + "@"@ + return_label(function, n)
        + "\nD=A\n@SP\nA=M\nM=D\n@SP\nM=M+1\n"@ + "@LCL\nD=M\n@SP\nA=M\nM=D\n@SP\nM=M+1\n"@
        + "@ARG\nD=M\n@SP\nA=M\nM=D\n@SP\nM=M+1\n"@ + "@THIS\nD=M\n@SP\nA=M\nM=D\n@SP\nM=M+1\n"@
        + "@THAT\nD=M\n@SP\nA=M\nM=D\n@SP\nM=M+1\n"@ + "@SP\nD=M\n@"@ + dec_digits(num_args)
        + "\nD=D-A\n@5\nD=D-A\n@ARG\nM=D\n"@ + "@SP\nD=M\n@LCL\nM=D\n"@ + "@"@ + function
        + "\n0;JMP\n"@ + "("@ + return_label(function, n) + ")\n"@
}

/// What one `call` does to the state: the function's occurrence count rises
/// by one and names the return label.
pub open spec fn call_step(st: GenState, function: Seq<char>, num_args: nat) -> GenState {
    let n = (if st.calls.contains_key(function) {
        st.calls[function] + 1
    } else {
        1
    }) as nat;
    GenState {
        vm_path: st.vm_path,
        n_eq: st.n_eq,
        n_gt: st.n_gt,
        n_lt: st.n_lt,
        calls: st.calls.insert(function, n as usize),
        out: st.out + call_text(function, num_args, n),
    }
}

/// The fixed text of `return`: recover the return address from the frame,
/// hand the result to the caller's argument slot, restore the four saved
/// registers, and jump back.
pub open spec fn return_text() -> Seq<char> {
    "// return\n"@ + "@LCL\nD=M\n@R13\nM=D\n"@ + "@5\nA=D-A\nD=M\n@R14\nM=D\n"@
        + "@SP\nAM=M-1\nD=M\n@ARG\nA=M\nM=D\n"@ + "@ARG\nD=M+1\n@SP\nM=D\n"@
        + "@R13\nA=M-1\nD=M\n@THAT\nM=D\n"@ + "@R13\nD=M\n@2\nA=D-A\nD=M\n@THIS\nM=D\n"@
        + "@R13\nD=M\n@3\nA=D-A\nD=M\n@ARG\nM=D\n"@ + "@R13\nD=M\n@4\nA=D-A\nD=M\n@LCL\nM=D\n"@
        + "@R14\nA=M\n0;JMP\n"@
}

/// `num_locals` repetitions of pushing a literal zero.
pub open spec fn push_zeros(k: nat) -> Seq<char>
    decreases k,
{
    if k == 0 {
        Seq::empty()
    } else {
        push_zeros((k - 1) as nat) + "@0\nD=A\n@SP\nA=M\nM=D\n@SP\nM=M+1\n"@
    }
}

/// The text of one `function`: its label, then zero-initialized locals.
pub open spec fn function_text(function: Seq<char>, num_locals: nat) -> Seq<char> {
    "// function "@ + function + " "@ + dec_digits(num_locals) + "\n"@ + "("@ + function + ")\n"@
        + push_zeros(num_locals)
}

/// The stack-pointer initialization emitted before any file's code.
pub open spec fn init_text() -> Seq<char> {
    "@256\nD=A\n@SP\nM=D\n"@
}

/// The same state with more text appended.
pub open spec fn appended(st: GenState, t: Seq<char>) -> GenState {
    GenState {
        vm_path: st.vm_path,
        n_eq: st.n_eq,
        n_gt: st.n_gt,
        n_lt: st.n_lt,
        calls: st.calls,
        out: st.out + t,
    }
}

/// Room for `n` more counter bumps without leaving the machine word.
pub open spec fn room_for(st: GenState, n: nat) -> bool {
    st.n_eq + n <= usize::MAX && st.n_gt + n <= usize::MAX && st.n_lt + n <= usize::MAX
        && (forall|f: Seq<char>|
        st.calls.contains_key(f) ==> #[trigger] st.calls[f] + n <= usize::MAX)
}

pub proof fn lemma_room_mono(st: GenState, m: nat, n: nat)
    requires
        room_for(st, n),
        m <= n,
    ensures
        room_for(st, m),
{
    assert forall|f: Seq<char>| st.calls.contains_key(f) implies #[trigger] st.calls[f] + m
        <= usize::MAX by {
        assert(st.calls[f] + n <= usize::MAX);
    }
}

/// One command bumps each counter at most once and touches at most one
/// call count, so the room shrinks by at most one.
pub proof fn lemma_room_after(st: GenState, st2: GenState, n: nat)
    requires
        room_for(st, n + 1),
        st2.n_eq <= st.n_eq + 1,
        st2.n_gt <= st.n_gt + 1,
        st2.n_lt <= st.n_lt + 1,
        forall|f: Seq<char>|
            st2.calls.contains_key(f) ==> (st.calls.contains_key(f) && #[trigger] st2.calls[f]
                <= st.calls[f] + 1) || (!st.calls.contains_key(f) && st2.calls[f] <= 1),
    ensures
        room_for(st2, n),
{
    assert forall|f: Seq<char>| st2.calls.contains_key(f) implies #[trigger] st2.calls[f] + n
        <= usize::MAX by {
        if st.calls.contains_key(f) {
            assert(st.calls[f] + (n + 1) <= usize::MAX);
        }
    }
}

/// A token that names a number the machine word can hold.
pub open spec fn num_ok(t: Seq<char>) -> bool {
    t.len() > 0 && all_digits(t) && dec_value(t) <= usize::MAX
}

pub open spec fn bad_number_err(tok: Seq<char>) -> Seq<char> {
    "argument `"@ + tok + "` is not a number."@
}

/// What one push or pop line does to the state and current function.
pub open spec fn vm_push_pop(st: GenState, cur_fn: Seq<char>, line: Seq<char>, cmd: Seq<char>) -> (
    GenState,
    Seq<char>,
    Option<Seq<char>>,
) {
    let toks = tokens_of(line);
    if toks.len() < 3 {
        (st, cur_fn, Some(missing_arg_err(line)))
    } else if !num_ok(toks[2]) {
        (st, cur_fn, Some(bad_number_err(toks[2])))
    } else {
        let r = push_pop_step(st, cmd, toks[1], dec_value(toks[2]));
        (r.0, cur_fn, r.1)
    }
}

/// What one VM command line does to the generator's state and to the name
/// of the function being generated, which scopes labels.
pub open spec fn vm_step(st: GenState, cur_fn: Seq<char>, line: Seq<char>) -> (
    GenState,
    Seq<char>,
    Option<Seq<char>>,
) {
    let toks = tokens_of(line);
    match vm_command_kind(line) {
        Command::Arithmetic => {
            let r = arith_step(st, toks[0]);
            (r.0, cur_fn, r.1)
        },
        Command::Push => vm_push_pop(st, cur_fn, line, "push"@),
        Command::Pop => vm_push_pop(st, cur_fn, line, "pop"@),
        Command::Label => if toks.len() < 2 {
            (st, cur_fn, Some(missing_arg_err(line)))
        } else {
            (appended(st, label_text(cur_fn + "$"@ + toks[1])), cur_fn, None)
        },
        Command::Goto => if toks.len() < 2 {
            (st, cur_fn, Some(missing_arg_err(line)))
        } else {
            (appended(st, goto_text(cur_fn + "$"@ + toks[1])), cur_fn, None)
        },
        Command::If => if toks.len() < 2 {
            (st, cur_fn, Some(missing_arg_err(line)))
        } else {
            (appended(st, if_text(cur_fn + "$"@ + toks[1])), cur_fn, None)
        },
        Command::Function => if toks.len() < 3 {
            (st, cur_fn, Some(missing_arg_err(line)))
        } else if !num_ok(toks[2]) {
            (st, cur_fn, Some(bad_number_err(toks[2])))
        } else {
            (appended(st, function_text(toks[1], dec_value(toks[2]))), toks[1], None)
        },
        Command::Call => if toks.len() < 3 {
            (st, cur_fn, Some(missing_arg_err(line)))
        } else if !num_ok(toks[2]) {
            (st, cur_fn, Some(bad_number_err(toks[2])))
        } else {
            (call_step(st, toks[1], dec_value(toks[2])), cur_fn, None)
        },
        Command::Return => (appended(st, return_text()), cur_fn, None),
    }
}

/// The generator over a run of lines, stopping at the first error with the
/// output written up to that point.
pub open spec fn vm_run(lines: Seq<Seq<char>>, st: GenState, cur_fn: Seq<char>) -> (
    GenState,
    Seq<char>,
    Option<Seq<char>>,
)
    decreases lines.len(),
{
    if lines.len() == 0 {
        (st, cur_fn, None)
    } else {
        let r = vm_step(st, cur_fn, lines[0]);
        if r.2 is Some {
            r
        } else {
            vm_run(lines.drop_first(), r.0, r.1)
        }
    }
}

/// Labels of one comparison kind never repeat: distinct serials give
/// distinct labels.
pub proof fn lemma_cmp_label_injective(tag: Seq<char>, a: nat, b: nat)
    requires
        cmp_label(tag, a) == cmp_label(tag, b),
    ensures
        a == b,
{
    lemma_dec_digits_digits(a);
    lemma_dec_digits_digits(b);
    assert((tag + dec_digits(a)).len() == tag.len() + dec_digits(a).len());
    assert((tag + dec_digits(b)).len() == tag.len() + dec_digits(b).len());
    assert(dec_digits(a).len() == dec_digits(b).len());
    assert forall|i: int| 0 <= i < dec_digits(a).len() implies #[trigger] dec_digits(a)[i]
        == dec_digits(b)[i] by {
        assert((tag + dec_digits(a))[tag.len() + i] == dec_digits(a)[i]);
        assert((tag + dec_digits(b))[tag.len() + i] == dec_digits(b)[i]);
    }
    assert(dec_digits(a) =~= dec_digits(b));
    lemma_dec_digits_injective(a, b);
}

/// A comparison label, made of its kind's tag and decimal digits, never
/// equals a function-scoped name, which always carries the `$` separator
/// the generator inserts.
pub proof fn lemma_cmp_label_fresh(tag: Seq<char>, n: nat, f: Seq<char>, l: Seq<char>)
    requires
        forall|i: int| 0 <= i < tag.len() ==> #[trigger] tag[i] != '$',
    ensures
        cmp_label(tag, n) != f + "$"@ + l,
{
    reveal_strlit("$");
    assert("$"@ =~= seq!['$']);
    lemma_dec_digits_digits(n);
    let q = f + "$"@ + l;
    let c = cmp_label(tag, n);
    if c == q {
        let p = f.len() as int;
        assert(q.len() == f.len() + 1 + l.len());
        assert(c.len() == tag.len() + dec_digits(n).len());
        assert(p < c.len());
        assert(q[p] == (f + "$"@)[p]);
        assert(q[p] == "$"@[0]);
        assert(q[p] == '$');
        assert(c[p] == '$');
        if p < tag.len() {
            assert(tag[p] != '$');
            assert(c[p] == tag[p]);
        } else {
            assert(c[p] == dec_digits(n)[p - tag.len()]);
            assert(is_digit_char(c[p]));
        }
        assert(false);
    }
}

/// The branch labels of the three comparison kinds never collide with any
/// label or goto target from VM source, whose qualified name carries `$`.
pub proof fn lemma_comparison_labels_never_collide(n: nat, f: Seq<char>, l: Seq<char>)
    ensures
        cmp_label("EQ.IF."@, n) != f + "$"@ + l,
        cmp_label("EQ.ENDIF."@, n) != f + "$"@ + l,
        cmp_label("GT.IF."@, n) != f + "$"@ + l,
        cmp_label("GT.ENDIF."@, n) != f + "$"@ + l,
        cmp_label("LT.IF."@, n) != f + "$"@ + l,
        cmp_label("LT.ENDIF."@, n) != f + "$"@ + l,
{
    reveal_strlit("EQ.IF.");
    reveal_strlit("EQ.ENDIF.");
    reveal_strlit("GT.IF.");
    reveal_strlit("GT.ENDIF.");
    reveal_strlit("LT.IF.");
    reveal_strlit("LT.ENDIF.");
    assert("EQ.IF."@ =~= seq!['E', 'Q', '.', 'I', 'F', '.']);
    assert("EQ.ENDIF."@ =~= seq!['E', 'Q', '.', 'E', 'N', 'D', 'I', 'F', '.']);
    assert("GT.IF."@ =~= seq!['G', 'T', '.', 'I', 'F', '.']);
    assert("GT.ENDIF."@ =~= seq!['G', 'T', '.', 'E', 'N', 'D', 'I', 'F', '.']);
    assert("LT.IF."@ =~= seq!['L', 'T', '.', 'I', 'F', '.']);
    assert("LT.ENDIF."@ =~= seq!['L', 'T', '.', 'E', 'N', 'D', 'I', 'F', '.']);
    lemma_cmp_label_fresh("EQ.IF."@, n, f, l);
    lemma_cmp_label_fresh("EQ.ENDIF."@, n, f, l);
    lemma_cmp_label_fresh("GT.IF."@, n, f, l);
    lemma_cmp_label_fresh("GT.ENDIF."@, n, f, l);
    lemma_cmp_label_fresh("LT.IF."@, n, f, l);
    lemma_cmp_label_fresh("LT.ENDIF."@, n, f, l);
}

/// Across a run the comparison serials only climb; each comparison takes
/// the serial one above its kind's counter, so the serials one kind uses
/// are strictly increasing across a whole run, files included.
pub proof fn lemma_serials_monotonic(lines: Seq<Seq<char>>, st: GenState, cur_fn: Seq<char>)
    ensures
        vm_run(lines, st, cur_fn).0.n_eq >= st.n_eq,
        vm_run(lines, st, cur_fn).0.n_gt >= st.n_gt,
        vm_run(lines, st, cur_fn).0.n_lt >= st.n_lt,
    decreases lines.len(),
{
    if lines.len() > 0 {
        let r = vm_step(st, cur_fn, lines[0]);
        if r.2 is Some {
        } else {
            lemma_serials_monotonic(lines.drop_first(), r.0, r.1);
        }
    }
}

/// Re-running the generator over the same lines from the same state
/// reproduces identical output: the run is a function of its inputs alone,
/// and `Writer::new` starts every counter from its documented initial
/// value.
pub proof fn lemma_generator_deterministic(
    lines: Seq<Seq<char>>,
    st1: GenState,
    st2: GenState,
    cur_fn: Seq<char>,
)
    requires
        st1 == st2,
    ensures
        vm_run(lines, st1, cur_fn) == vm_run(lines, st2, cur_fn),
{
}

/// The counter a comparison verb draws its serials from.
pub open spec fn counter_of(st: GenState, verb: Seq<char>) -> nat {
    if verb == "eq"@ {
        st.n_eq
    } else if verb == "gt"@ {
        st.n_gt
    } else {
        st.n_lt
    }
}

/// The serials one comparison verb uses across a run, in order of use.
pub open spec fn cmp_serials(
    lines: Seq<Seq<char>>,
    st: GenState,
    cur_fn: Seq<char>,
    verb: Seq<char>,
) -> Seq<nat>
    decreases lines.len(),
{
    if lines.len() == 0 {
        Seq::empty()
    } else {
        let r = vm_step(st, cur_fn, lines[0]);
        if r.2 is Some {
            Seq::empty()
        } else {
            let rest = cmp_serials(lines.drop_first(), r.0, r.1, verb);
            if vm_command_kind(lines[0]) is Arithmetic && tokens_of(lines[0])[0] == verb {
                seq![counter_of(st, verb) + 1] + rest
            } else {
                rest
            }
        }
    }
}

/// Each comparison kind's serials are consecutive and strictly increasing
/// across a whole run, files included: the `k`-th use of a verb takes the
/// serial `k + 1` above the counter the run began with.
pub proof fn lemma_cmp_serials_strictly_increase(
    lines: Seq<Seq<char>>,
    st: GenState,
    cur_fn: Seq<char>,
    verb: Seq<char>,
)
    requires
        verb == "eq"@ || verb == "gt"@ || verb == "lt"@,
    ensures
        forall|k: int|
            0 <= k < cmp_serials(lines, st, cur_fn, verb).len() ==> #[trigger] cmp_serials(
                lines,
                st,
                cur_fn,
                verb,
            )[k] == counter_of(st, verb) + 1 + k,
    decreases lines.len(),
{
    reveal_strlit("add");
    reveal_strlit("sub");
    reveal_strlit("neg");
    reveal_strlit("eq");
    reveal_strlit("gt");
    reveal_strlit("lt");
    assert("add"@ =~= seq!['a', 'd', 'd']);
    assert("sub"@ =~= seq!['s', 'u', 'b']);
    assert("neg"@ =~= seq!['n', 'e', 'g']);
    assert("eq"@ =~= seq!['e', 'q']);
    assert("gt"@ =~= seq!['g', 't']);
    assert("lt"@ =~= seq!['l', 't']);
    if lines.len() > 0 {
        let r = vm_step(st, cur_fn, lines[0]);
        if r.2 is Some {
        } else {
            lemma_cmp_serials_strictly_increase(lines.drop_first(), r.0, r.1, verb);
            let rest = cmp_serials(lines.drop_first(), r.0, r.1, verb);
            if vm_command_kind(lines[0]) is Arithmetic && tokens_of(lines[0])[0] == verb {
                assert(counter_of(r.0, verb) == counter_of(st, verb) + 1);
            } else {
                assert(counter_of(r.0, verb) == counter_of(st, verb));
            }
        }
    }
}

/// A failing command ends the run with the state it left behind.
proof fn lemma_step_err(
    lines: Seq<Seq<char>>,
    st0: GenState,
    cur: int,
    st: GenState,
    cf: Seq<char>,
    stf: GenState,
    e: Seq<char>,
)
    requires
        0 <= cur < lines.len(),
        vm_run(lines, st0, Seq::<char>::empty()) == vm_run(lines.skip(cur), st, cf),
        vm_step(st, cf, lines[cur]).0 == stf,
        vm_step(st, cf, lines[cur]).2 == Some(e),
    ensures
        vm_run(lines, st0, Seq::<char>::empty()).0 == stf,
        vm_run(lines, st0, Seq::<char>::empty()).2 == Some(e),
{
    assert(lines.skip(cur)[0] == lines[cur]);
}

/// The VM code generator. It owns the three comparison serials and the
/// call-occurrence map, which persist across files, and accumulates the
/// generated assembly in memory.
pub struct Writer {
    vm_path: String,
    n_eq: usize,
    n_gt: usize,
    n_lt: usize,
    n_call_func: StrMap,
    out: String,
}

impl View for Writer {
    type V = GenState;

    closed spec fn view(&self) -> GenState {
        GenState {
            vm_path: self.vm_path@,
            n_eq: self.n_eq as nat,
            n_gt: self.n_gt as nat,
            n_lt: self.n_lt as nat,
            calls: self.n_call_func@,
            out: self.out@,
        }
    }
}

impl Writer {
    /// A fresh generator: all counters at their initial values, no output.
    pub fn new() -> (w: Writer)
        ensures
            w@ == (GenState {
                vm_path: "init.vm"@,
                n_eq: 0 as nat,
                n_gt: 0 as nat,
                n_lt: 0 as nat,
                calls: Map::<Seq<char>, usize>::empty(),
                out: Seq::<char>::empty(),
            }),
    {
        Writer {
            vm_path: String::from_str("init.vm"),
            n_eq: 0,
            n_gt: 0,
            n_lt: 0,
            n_call_func: StrMap::new(),
            out: String::new(),
        }
    }

    /// The generated assembly so far.
    pub fn output(&self) -> (s: &String)
        ensures
            s@ == self@.out,
    {
        &self.out
    }

    /// The base name of the source file now being translated, which scopes
    /// its static variables.
    pub fn set_file_name(&self) -> (r: String)
        ensures
            r@ == file_stem(self@.vm_path),
    {
        file_stem_exec(self.vm_path.as_str())
    }

    /// Emits the stack-pointer initialization and the call of the runtime's
    /// entry function.
    pub fn write_init(&mut self)
        requires
            room_for(old(self)@, 1),
        ensures
            final(self)@ == call_step(appended(old(self)@, init_text()), "Sys.init"@, 0),
    {
        self.out.append("@256\nD=A\n@SP\nM=D\n");
        proof {
            assert(self@ =~= appended(old(self)@, init_text()));
        }
        self.write_call(String::from_str("Sys.init"), 0);
    }

    /// Emits one arithmetic command's code, advancing the matching
    /// comparison serial; an unknown verb leaves only the comment and an
    /// error naming it.
    pub fn write_arithmetic(&mut self, command: String) -> (r: Result<(), String>)
        requires
            room_for(old(self)@, 1),
        ensures
            final(self)@ == arith_step(old(self)@, command@).0,
            (match r {
                Ok(_) => arith_step(old(self)@, command@).1 is None,
                Err(e) => arith_step(old(self)@, command@).1 == Some(e@),
            }),
    {
        let ghost st = self@;
        let c = command.as_str();
        let code: Option<String>;
        if str_eq(c, "add") {
            code = Some(String::from_str("@SP\nAM=M-1\nD=M\n@SP\nAM=M-1\nM=D+M\n@SP\nM=M+1\n"));
        } else if str_eq(c, "sub") {
            code = Some(String::from_str("@SP\nAM=M-1\nD=M\n@SP\nAM=M-1\nM=M-D\n@SP\nM=M+1\n"));
        } else if str_eq(c, "neg") {
            code = Some(String::from_str("@SP\nAM=M-1\nM=-M\n@SP\nM=M+1\n"));
        } else if str_eq(c, "eq") {
            self.n_eq = self.n_eq + 1;
            let serial = usize_to_string(self.n_eq);
            let mut s = String::from_str("@SP\nAM=M-1\nD=M\n@SP\nAM=M-1\nD=M-D\n@EQ.IF.");
            s.append(serial.as_str());
            s.append("\nD;JEQ\nD=0\n@EQ.ENDIF.");
            s.append(serial.as_str());
            s.append("\n0;JMP\n(EQ.IF.");
            s.append(serial.as_str());
            s.append(")\nD=-1\n(EQ.ENDIF.");
            s.append(serial.as_str());
            s.append(")\n@SP\nA=M\nM=D\n@SP\nM=M+1\n");
            proof {
                assert(s@ =~= eq_code(st.n_eq + 1));
            }
            code = Some(s);
        } else if str_eq(c, "gt") {
            self.n_gt = self.n_gt + 1;
            let serial = usize_to_string(self.n_gt);
            let mut s = String::from_str("@SP\nAM=M-1\nD=M\n@SP\nAM=M-1\nD=M-D\n@GT.IF.");
            s.append(serial.as_str());
            s.append("\nD;JGT\nD=0\n@GT.ENDIF.");
            s.append(serial.as_str());
            s.append("\n0;JMP\n(GT.IF.");
            s.append(serial.as_str());
            s.append(")\nD=-1\n(GT.ENDIF.");
            s.append(serial.as_str());
            s.append(")\n@SP\nA=M\nM=D\n@SP\nM=M+1\n");
            proof {
                assert(s@ =~= gt_code(st.n_gt + 1));
            }
            code = Some(s);
        } else if str_eq(c, "lt") {
            self.n_lt = self.n_lt + 1;
            let serial = usize_to_string(self.n_lt);
            let mut s = String::from_str("@SP\nAM=M-1\nD=M\n@SP\nAM=M-1\nD=M-D\n@LT.IF.");
            s.append(serial.as_str());
            s.append("\nD;JLT\nD=0\n@LT.ENDIF.");
            s.append(serial.as_str());
            s.append("\n0;JMP\n(LT.IF.");
            s.append(serial.as_str());
            s.append(")\nD=-1\n(LT.ENDIF.");
            s.append(serial.as_str());
            s.append(")\n@SP\nA=M\nM=D\n@SP\nM=M+1\n");
            proof {
                assert(s@ =~= lt_code(st.n_lt + 1));
            }
            code = Some(s);
        } else if str_eq(c, "and") {
            code = Some(String::from_str("@SP\nAM=M-1\nD=M\n@SP\nAM=M-1\nM=D&M\n@SP\nM=M+1\n"));
        } else if str_eq(c, "or") {
            code = Some(String::from_str("@SP\nAM=M-1\nD=M\n@SP\nAM=M-1\nM=D|M\n@SP\nM=M+1\n"));
        } else if str_eq(c, "not") {
            code = Some(String::from_str("@SP\nAM=M-1\nM=!M\n@SP\nM=M+1\n"));
        } else {
            code = None;
        }
        self.out.append("// ");
        self.out.append(command.as_str());
        self.out.append("\n");
        match code {
            Some(s2) => {
                self.out.append(s2.as_str());
                proof {
                    assert(self@ =~= arith_step(st, command@).0);
                }
                Ok(())
            },
            None => {
                let mut e = String::from_str("Undefined command `");
                e.append(command.as_str());
                e.append("`.");
                proof {
                    assert(self@ =~= arith_step(st, command@).0);
                    assert(e@ =~= undefined_arith_err(command@));
                }
                Err(e)
            },
        }
    }

    /// Emits one push or pop: resolve the segment's address into the first
    /// scratch register, then move the value between it and the stack.
    pub fn write_push_pop(&mut self, command: String, segment: String, index: usize) -> (r: Result<
        (),
        String,
    >)
        ensures
            final(self)@ == push_pop_step(old(self)@, command@, segment@, index as nat).0,
            (match r {
                Ok(_) => push_pop_step(old(self)@, command@, segment@, index as nat).1 is None,
                Err(e) => push_pop_step(old(self)@, command@, segment@, index as nat).1 == Some(
                    e@,
                ),
            }),
    {
        let ghost st = self@;
        let idx = usize_to_string(index);
        let stem = self.set_file_name();
        let s = segment.as_str();
        let address: Option<String>;
        if str_eq(s, "argument") {
            let mut a = String::from_str("@");
            a.append(idx.as_str());
            a.append("\nD=A\n@ARG\nD=D+M\n@R13\nM=D\n");
            address = Some(a);
        } else if str_eq(s, "local") {
            let mut a = String::from_str("@");
            a.append(idx.as_str());
            a.append("\nD=A\n@LCL\nD=D+M\n@R13\nM=D\n");
            address = Some(a);
        } else if str_eq(s, "static") {
            let mut a = String::from_str("@");
            a.append(stem.as_str());
            a.append(".");
            a.append(idx.as_str());
            a.append("\nD=A\n@R13\nM=D\n");
            address = Some(a);
        } else if str_eq(s, "constant") {
            let mut a = String::from_str("@");
            a.append(idx.as_str());
            a.append("\nD=A\n@R14\nM=D\nD=A\n@R13\nM=D\n");
            address = Some(a);
        } else if str_eq(s, "this") {
            let mut a = String::from_str("@");
            a.append(idx.as_str());
            a.append("\nD=A\n@THIS\nD=D+M\n@R13\nM=D\n");
            address = Some(a);
        } else if str_eq(s, "that") {
            let mut a = String::from_str("@");
            a.append(idx.as_str());
            a.append("\nD=A\n@THAT\nD=D+M\n@R13\nM=D\n");
            address = Some(a);
        } else if str_eq(s, "pointer") {
            let mut a = String::from_str("@");
            a.append(idx.as_str());
            a.append("\nD=A\n@3\nD=D+A\n@R13\nM=D\n");
            address = Some(a);
        } else if str_eq(s, "temp") {
            let mut a = String::from_str("@");
            a.append(idx.as_str());
            a.append("\nD=A\n@5\nD=D+A\n@R13\nM=D\n");
            address = Some(a);
        } else {
            address = None;
        }
        proof {
            match &address {
                Some(a) => {
                    assert(segment_address(segment@, index as nat, file_stem(st.vm_path))
                        =~= Some(a@));
                },
                None => {
                    assert(segment_address(segment@, index as nat, file_stem(st.vm_path))
                        is None);
                },
            }
        }
        let code: Option<String> = match address {
            Some(a) => {
                if str_eq(command.as_str(), "push") {
                    let mut x = a;
                    x.append("@R13\nA=M\nD=M\n@SP\nA=M\nM=D\n@SP\nM=M+1\n");
                    Some(x)
                } else if str_eq(command.as_str(), "pop") {
                    let mut x = a;
                    x.append("@SP\nAM=M-1\nD=M\n@R13\nA=M\nM=D\n");
                    Some(x)
                } else {
                    None
                }
            },
            None => None,
        };
        self.out.append("// ");
        self.out.append(command.as_str());
        self.out.append(" ");
        self.out.append(segment.as_str());
        self.out.append(" ");
        self.out.append(idx.as_str());
        self.out.append("\n");
        match code {
            Some(x) => {
                proof {
                    assert(push_pop_code(command@, segment@, index as nat, file_stem(st.vm_path))
                        =~= Some(x@));
                }
                self.out.append(x.as_str());
                proof {
                    assert(self@ =~= push_pop_step(st, command@, segment@, index as nat).0);
                }
                Ok(())
            },
            None => {
                let mut e = String::from_str("Undefined command `");
                e.append(command.as_str());
                e.append(" ");
                e.append(segment.as_str());
                e.append(" ");
                e.append(idx.as_str());
                e.append("`.");
                proof {
                    assert(push_pop_code(command@, segment@, index as nat, file_stem(st.vm_path))
                        is None);
                    assert(self@ =~= push_pop_step(st, command@, segment@, index as nat).0);
                    assert(e@ =~= undefined_push_pop_err(command@, segment@, index as nat));
                }
                Err(e)
            },
        }
    }

    /// Declares a label, already qualified by its function's name.
    pub fn write_label(&mut self, label: String)
        ensures
            final(self)@ == appended(old(self)@, label_text(label@)),
    {
        self.out.append("// label (");
        self.out.append(label.as_str());
        self.out.append(")\n(");
        self.out.append(label.as_str());
        self.out.append(")\n");
        proof {
            assert(self@ =~= appended(old(self)@, label_text(label@)));
        }
    }

    /// Emits an unconditional jump to a qualified label.
    pub fn write_goto(&mut self, label: String)
        ensures
            final(self)@ == appended(old(self)@, goto_text(label@)),
    {
        self.out.append("// goto ");
        self.out.append(label.as_str());
        self.out.append("\n@");
        self.out.append(label.as_str());
        self.out.append("\n0;JMP\n");
        proof {
            assert(self@ =~= appended(old(self)@, goto_text(label@)));
        }
    }

    /// Emits a branch to a qualified label, taken when the popped value is
    /// nonzero.
    pub fn write_if(&mut self, label: String)
        ensures
            final(self)@ == appended(old(self)@, if_text(label@)),
    {
        self.out.append("// if-goto ");
        self.out.append(label.as_str());
        self.out.append("\n@SP\nAM=M-1\nD=M\n@");
        self.out.append(label.as_str());
        self.out.append("\nD;JNE\n");
        proof {
            assert(self@ =~= appended(old(self)@, if_text(label@)));
        }
    }

    /// Emits one `call`: a return-address label unique per function and
    /// occurrence, the five saved words, the repositioning of ARG and LCL,
    /// and the jump.
    #[verifier::rlimit(60)]
    pub fn write_call(&mut self, function_name: String, num_args: usize)
        requires
            room_for(old(self)@, 1),
        ensures
            final(self)@ == call_step(old(self)@, function_name@, num_args as nat),
    {
        let ghost st = self@;
        let n_call: usize = if self.n_call_func.contains(function_name.as_str()) {
            self.n_call_func.get(function_name.as_str()) + 1
        } else {
            1
        };
        self.n_call_func.insert(function_name.clone(), n_call);
        let mut ret = String::from_str("RETURN.");
        ret.append(function_name.as_str());
        ret.append(".");
        let n_str = usize_to_string(n_call);
        ret.append(n_str.as_str());
        let args_str = usize_to_string(num_args);
        self.out.append("// call ");
        self.out.append(function_name.as_str());
        self.out.append(" ");
        self.out.append(args_str.as_str());
        self.out.append("\n");
        self.out.append("@");
        self.out.append(ret.as_str());
        self.out.append("\nD=A\n@SP\nA=M\nM=D\n@SP\nM=M+1\n");
        self.out.append("@LCL\nD=M\n@SP\nA=M\nM=D\n@SP\nM=M+1\n");
        self.out.append("@ARG\nD=M\n@SP\nA=M\nM=D\n@SP\nM=M+1\n");
        self.out.append("@THIS\nD=M\n@SP\nA=M\nM=D\n@SP\nM=M+1\n");
        self.out.append("@THAT\nD=M\n@SP\nA=M\nM=D\n@SP\nM=M+1\n");
        self.out.append("@SP\nD=M\n@");
        self.out.append(args_str.as_str());
        self.out.append("\nD=D-A\n@5\nD=D-A\n@ARG\nM=D\n");
        self.out.append("@SP\nD=M\n@LCL\nM=D\n");
        self.out.append("@");
        self.out.append(function_name.as_str());
        self.out.append("\n0;JMP\n");
        self.out.append("(");
        self.out.append(ret.as_str());
        self.out.append(")\n");
        proof {
            assert(ret@ =~= return_label(function_name@, n_call as nat));
            assert(self@ =~= call_step(st, function_name@, num_args as nat));
        }
    }

    /// Emits `return`: the frame walk that restores the caller and jumps to
    /// the saved return address.
    pub fn write_return(&mut self)
        ensures
            final(self)@ == appended(old(self)@, return_text()),
    {
        self.out.append("// return\n");
        self.out.append("@LCL\nD=M\n@R13\nM=D\n");
        self.out.append("@5\nA=D-A\nD=M\n@R14\nM=D\n");
        self.out.append("@SP\nAM=M-1\nD=M\n@ARG\nA=M\nM=D\n");
        self.out.append("@ARG\nD=M+1\n@SP\nM=D\n");
        self.out.append("@R13\nA=M-1\nD=M\n@THAT\nM=D\n");
        self.out.append("@R13\nD=M\n@2\nA=D-A\nD=M\n@THIS\nM=D\n");
        self.out.append("@R13\nD=M\n@3\nA=D-A\nD=M\n@ARG\nM=D\n");
        self.out.append("@R13\nD=M\n@4\nA=D-A\nD=M\n@LCL\nM=D\n");
        self.out.append("@R14\nA=M\n0;JMP\n");
        proof {
            assert(self@ =~= appended(old(self)@, return_text()));
        }
    }

    /// Emits one `function`: its label, then one pushed zero per local.
    pub fn write_function(&mut self, function_name: String, num_locals: usize)
        ensures
            final(self)@ == appended(
                old(self)@,
                function_text(function_name@, num_locals as nat),
            ),
    {
        let ghost st = self@;
        let k_str = usize_to_string(num_locals);
        self.out.append("// function ");
        self.out.append(function_name.as_str());
        self.out.append(" ");
        self.out.append(k_str.as_str());
        self.out.append("\n");
        self.out.append("(");
        self.out.append(function_name.as_str());
        self.out.append(")\n");
        let ghost base = self.out@;
        let mut j: usize = 0;
        while j < num_locals
            invariant
                j <= num_locals,
                self.out@ =~= base + push_zeros(j as nat),
                self.vm_path@ == st.vm_path,
                self.n_eq as nat == st.n_eq,
                self.n_gt as nat == st.n_gt,
                self.n_lt as nat == st.n_lt,
                self.n_call_func@ == st.calls,
            decreases num_locals - j,
        {
            self.out.append("@0\nD=A\n@SP\nA=M\nM=D\n@SP\nM=M+1\n");
            j = j + 1;
            proof {
                assert(self.out@ =~= base + push_zeros(j as nat));
            }
        }
        proof {
            assert(self@ =~= appended(st, function_text(function_name@, num_locals as nat)));
        }
    }

    /// Translates one whole VM source: reads its cleaned lines in order and
    /// dispatches each command; the three serials and the call counts
    /// persist from earlier files, and labels are scoped by the function
    /// being generated.
    pub fn write(&mut self, vm_path: &str, source: &str) -> (r: Result<(), String>)
        requires
            room_for(old(self)@, clean_lines_spec(source@).len()),
        ensures
            ({
                let lines = clean_lines_spec(source@);
                let st0 = GenState {
                    vm_path: vm_path@,
                    n_eq: old(self)@.n_eq,
                    n_gt: old(self)@.n_gt,
                    n_lt: old(self)@.n_lt,
                    calls: old(self)@.calls,
                    out: old(self)@.out,
                };
                let end = vm_run(lines, st0, Seq::<char>::empty());
                final(self)@ == end.0 && (match r {
                    Ok(_) => end.2 is None,
                    Err(e) => end.2 == Some(e@),
                })
            }),
    {
        self.vm_path = String::from_str(vm_path);
        let mut parser = Parser::new(source);
        let ghost lines = parser@.lines;
        let ghost st0 = self@;
        let mut current_function = String::new();
        proof {
            assert(st0 =~= GenState {
                vm_path: vm_path@,
                n_eq: old(self)@.n_eq,
                n_gt: old(self)@.n_gt,
                n_lt: old(self)@.n_lt,
                calls: old(self)@.calls,
                out: old(self)@.out,
            });
            assert(lines.skip(0) =~= lines);
            lemma_cleaned_lines_tokens(raw_lines(source@));
        }
        while parser.has_more_commands()
            invariant
                parser@.lines == lines,
                lines == clean_lines_spec(source@),
                lines.len() <= usize::MAX,
                parser@.current <= lines.len(),
                forall|i: int|
                    0 <= i < lines.len() ==> (#[trigger] lines[i]).len() > 0 && tokens_of(
                        lines[i],
                    ).len() >= 1,
                room_for(self@, (lines.len() - parser@.current) as nat),
                st0 == (GenState {
                    vm_path: vm_path@,
                    n_eq: old(self)@.n_eq,
                    n_gt: old(self)@.n_gt,
                    n_lt: old(self)@.n_lt,
                    calls: old(self)@.calls,
                    out: old(self)@.out,
                }),
                vm_run(lines, st0, Seq::<char>::empty()) == vm_run(
                    lines.skip(parser@.current as int),
                    self@,
                    current_function@,
                ),
            decreases lines.len() - parser@.current,
        {
            parser.advance();
            let ghost cur = parser@.current - 1;
            let ghost st = self@;
            let ghost cf = current_function@;
            let ghost rem = (lines.len() - parser@.current) as nat;
            proof {
                assert(lines.skip(cur).drop_first() =~= lines.skip(cur + 1));
                assert(lines.skip(cur)[0] == lines[cur]);
                lemma_room_mono(st, 1, rem + 1);
            }
            match parser.command_type() {
                Command::Arithmetic => {
                    let cmd = parser.command();
                    match self.write_arithmetic(cmd) {
                        Ok(_) => {},
                        Err(e) => {
                            proof {
                                lemma_step_err(lines, st0, cur, st, cf, self@, e@);
                            }
                            return Err(e);
                        },
                    }
                },
                Command::Push => {
                    let seg = match parser.arg1() {
                        Ok(s) => s,
                        Err(e) => {
                            proof {
                                lemma_step_err(lines, st0, cur, st, cf, self@, e@);
                            }
                            return Err(e);
                        },
                    };
                    let idx_s = match parser.arg2() {
                        Ok(s) => s,
                        Err(e) => {
                            proof {
                                lemma_step_err(lines, st0, cur, st, cf, self@, e@);
                            }
                            return Err(e);
                        },
                    };
                    let idx = match parse_usize(idx_s.as_str()) {
                        Some(v) => v,
                        None => {
                            let e = bad_number_string(&idx_s);
                            proof {
                                lemma_step_err(lines, st0, cur, st, cf, self@, e@);
                            }
                            return Err(e);
                        },
                    };
                    match self.write_push_pop(String::from_str("push"), seg, idx) {
                        Ok(_) => {},
                        Err(e) => {
                            proof {
                                lemma_step_err(lines, st0, cur, st, cf, self@, e@);
                            }
                            return Err(e);
                        },
                    }
                },
                Command::Pop => {
                    let seg = match parser.arg1() {
                        Ok(s) => s,
                        Err(e) => {
                            proof {
                                lemma_step_err(lines, st0, cur, st, cf, self@, e@);
                            }
                            return Err(e);
                        },
                    };
                    let idx_s = match parser.arg2() {
                        Ok(s) => s,
                        Err(e) => {
                            proof {
                                lemma_step_err(lines, st0, cur, st, cf, self@, e@);
                            }
                            return Err(e);
                        },
                    };
                    let idx = match parse_usize(idx_s.as_str()) {
                        Some(v) => v,
                        None => {
                            let e = bad_number_string(&idx_s);
                            proof {
                                lemma_step_err(lines, st0, cur, st, cf, self@, e@);
                            }
                            return Err(e);
                        },
                    };
                    match self.write_push_pop(String::from_str("pop"), seg, idx) {
                        Ok(_) => {},
                        Err(e) => {
                            proof {
                                lemma_step_err(lines, st0, cur, st, cf, self@, e@);
                            }
                            return Err(e);
                        },
                    }
                },
                Command::Label => {
                    let l = match parser.arg1() {
                        Ok(s) => s,
                        Err(e) => {
                            proof {
                                lemma_step_err(lines, st0, cur, st, cf, self@, e@);
                            }
                            return Err(e);
                        },
                    };
                    let mut q = current_function.clone();
                    q.append("$");
                    q.append(l.as_str());
                    self.write_label(q);
                },
                Command::Goto => {
                    let l = match parser.arg1() {
                        Ok(s) => s,
                        Err(e) => {
                            proof {
                                lemma_step_err(lines, st0, cur, st, cf, self@, e@);
                            }
                            return Err(e);
                        },
                    };
                    let mut q = current_function.clone();
                    q.append("$");
                    q.append(l.as_str());
                    self.write_goto(q);
                },
                Command::If => {
                    let l = match parser.arg1() {
                        Ok(s) => s,
                        Err(e) => {
                            proof {
                                lemma_step_err(lines, st0, cur, st, cf, self@, e@);
                            }
                            return Err(e);
                        },
                    };
                    let mut q = current_function.clone();
                    q.append("$");
                    q.append(l.as_str());
                    self.write_if(q);
                },
                Command::Function => {
                    let name = match parser.arg1() {
                        Ok(s) => s,
                        Err(e) => {
                            proof {
                                lemma_step_err(lines, st0, cur, st, cf, self@, e@);
                            }
                            return Err(e);
                        },
                    };
                    let k_s = match parser.arg2() {
                        Ok(s) => s,
                        Err(e) => {
                            proof {
                                lemma_step_err(lines, st0, cur, st, cf, self@, e@);
                            }
                            return Err(e);
                        },
                    };
                    let k = match parse_usize(k_s.as_str()) {
                        Some(v) => v,
                        None => {
                            let e = bad_number_string(&k_s);
                            proof {
                                lemma_step_err(lines, st0, cur, st, cf, self@, e@);
                            }
                            return Err(e);
                        },
                    };
                    self.write_function(name.clone(), k);
                    current_function = name;
                },
                Command::Call => {
                    let name = match parser.arg1() {
                        Ok(s) => s,
                        Err(e) => {
                            proof {
                                lemma_step_err(lines, st0, cur, st, cf, self@, e@);
                            }
                            return Err(e);
                        },
                    };
                    let a_s = match parser.arg2() {
                        Ok(s) => s,
                        Err(e) => {
                            proof {
                                lemma_step_err(lines, st0, cur, st, cf, self@, e@);
                            }
                            return Err(e);
                        },
                    };
                    let a = match parse_usize(a_s.as_str()) {
                        Some(v) => v,
                        None => {
                            let e = bad_number_string(&a_s);
                            proof {
                                lemma_step_err(lines, st0, cur, st, cf, self@, e@);
                            }
                            return Err(e);
                        },
                    };
                    self.write_call(name, a);
                },
                Command::Return => {
                    self.write_return();
                },
            }
            proof {
                let step = vm_step(st, cf, lines[cur]);
                assert(step.0 == self@ && step.1 == current_function@ && step.2 is None);
                lemma_room_after(st, self@, rem);
            }
        }
        proof {
            assert(lines.skip(lines.len() as int) =~= Seq::<Seq<char>>::empty());
        }
        Ok(())
    }
}

fn bad_number_string(tok: &String) -> (e: String)
    ensures
        e@ == bad_number_err(tok@),
{
    let mut e = String::from_str("argument `");
    e.append(tok.as_str());
    e.append("` is not a number.");
    e
}

} // verus!

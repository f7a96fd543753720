//! Plain-text groundwork shared by both translation stages: character
//! classes, whitespace trimming, comment stripping, line and token
//! splitting, and decimal/binary numerals.

use vstd::prelude::*;
use vstd::string::*;

verus! {

// ---------------------------------------------------------------------------
// Character classes
// ---------------------------------------------------------------------------

/// Whitespace as the source grammar understands it: blanks, tabs, line ends.
pub open spec fn is_space_char(c: char) -> bool {
    c == ' ' || c == '\t' || c == '\r' || c == '\n'
}

pub fn is_space(c: char) -> (r: bool)
    ensures
        r == is_space_char(c),
{
    c == ' ' || c == '\t' || c == '\r' || c == '\n'
}

pub open spec fn is_digit_char(c: char) -> bool {
    48 <= c as u32 && c as u32 <= 57
}

pub fn is_digit(c: char) -> (r: bool)
    ensures
        r == is_digit_char(c),
{
    let u = c as u32;
    48 <= u && u <= 57
}

/// Numeric value of a decimal digit character.
pub open spec fn digit_val(c: char) -> nat {
    if is_digit_char(c) {
        (c as u32 - 48) as nat
    } else {
        0
    }
}

// ---------------------------------------------------------------------------
// String equality
// ---------------------------------------------------------------------------

pub fn str_eq(a: &str, b: &str) -> (r: bool)
    ensures
        r == (a@ == b@),
{
    let alen = a.unicode_len();
    let blen = b.unicode_len();
    if alen != blen {
        return false;
    }
    let mut i: usize = 0;
    while i < alen
        invariant
            alen == a@.len(),
            blen == b@.len(),
            alen == blen,
            i <= alen,
            forall|j: int| 0 <= j < i ==> a@[j] == b@[j],
        decreases alen - i,
    {
        if a.get_char(i) != b.get_char(i) {
            return false;
        }
        i = i + 1;
    }
    proof {
        assert(a@ =~= b@);
    }
    true
}

pub fn string_eq(a: &String, b: &str) -> (r: bool)
    ensures
        r == (a@ == b@),
{
    str_eq(a.as_str(), b)
}

// ---------------------------------------------------------------------------
// Trimming
// ---------------------------------------------------------------------------

pub open spec fn trim_start_spec(s: Seq<char>) -> Seq<char>
    decreases s.len(),
{
    if s.len() > 0 && is_space_char(s[0]) {
        trim_start_spec(s.drop_first())
    } else {
        s
    }
}

pub open spec fn trim_end_spec(s: Seq<char>) -> Seq<char>
    decreases s.len(),
{
    if s.len() > 0 && is_space_char(s.last()) {
        trim_end_spec(s.drop_last())
    } else {
        s
    }
}

/// A line with its surrounding whitespace removed.
pub open spec fn trim_spec(s: Seq<char>) -> Seq<char> {
    trim_end_spec(trim_start_spec(s))
}

fn trim_start(s: &str) -> (r: &str)
    ensures
        r@ == trim_start_spec(s@),
    decreases s@.len(),
{
    let n = s.unicode_len();
    if n > 0 && is_space(s.get_char(0)) {
        let rest = s.substring_char(1, n);
        proof {
            assert(rest@ =~= s@.drop_first());
        }
        trim_start(rest)
    } else {
        s
    }
}

fn trim_end(s: &str) -> (r: &str)
    ensures
        r@ == trim_end_spec(s@),
    decreases s@.len(),
{
    let n = s.unicode_len();
    if n > 0 && is_space(s.get_char(n - 1)) {
        let rest = s.substring_char(0, n - 1);
        proof {
            assert(rest@ =~= s@.drop_last());
        }
        trim_end(rest)
    } else {
        s
    }
}

pub fn trim(s: &str) -> (r: &str)
    ensures
        r@ == trim_spec(s@),
{
    trim_end(trim_start(s))
}

// ---------------------------------------------------------------------------
// Comments
// ---------------------------------------------------------------------------

/// Index at which a `//` comment begins, or the line's length if none does.
pub open spec fn comment_start(s: Seq<char>) -> int
    decreases s.len(),
{
    if s.len() < 2 {
        s.len() as int
    } else if s[0] == '/' && s[1] == '/' {
        0
    } else {
        1 + comment_start(s.drop_first())
    }
}

pub proof fn lemma_comment_start_bounds(s: Seq<char>)
    ensures
        0 <= comment_start(s) <= s.len(),
    decreases s.len(),
{
    if s.len() < 2 {
    } else if s[0] == '/' && s[1] == '/' {
    } else {
        lemma_comment_start_bounds(s.drop_first());
    }
}

fn find_comment(s: &str) -> (i: usize)
    ensures
        i as int == comment_start(s@),
    decreases s@.len(),
{
    let n = s.unicode_len();
    if n < 2 {
        n
    } else if s.get_char(0) == '/' && s.get_char(1) == '/' {
        0
    } else {
        let rest = s.substring_char(1, n);
        proof {
            assert(rest@ =~= s@.drop_first());
            lemma_comment_start_bounds(rest@);
        }
        1 + find_comment(rest)
    }
}

/// A source line reduced to its meaning: trimmed, with any comment removed.
pub open spec fn clean_line_spec(s: Seq<char>) -> Seq<char> {
    let t = trim_spec(s);
    trim_spec(t.take(comment_start(t)))
}

pub fn clean_line(s: &str) -> (r: String)
    ensures
        r@ == clean_line_spec(s@),
{
    let t = trim(s);
    let c = find_comment(t);
    proof {
        lemma_comment_start_bounds(t@);
    }
    let before = t.substring_char(0, c);
    proof {
        assert(before@ =~= t@.take(comment_start(t@)));
    }
    let r = trim(before);
    String::from_str(r)
}

// ---------------------------------------------------------------------------
// Splitting a source into lines
// ---------------------------------------------------------------------------

/// First index at or after `i` holding the character `c`, or the length.
pub open spec fn find_char_from(s: Seq<char>, c: char, i: int) -> int
    decreases s.len() - i,
{
    if i >= s.len() {
        s.len() as int
    } else if s[i] == c {
        i
    } else {
        find_char_from(s, c, i + 1)
    }
}

pub proof fn lemma_find_char(s: Seq<char>, c: char, i: int)
    requires
        0 <= i <= s.len(),
    ensures
        i <= find_char_from(s, c, i) <= s.len(),
    decreases s.len() - i,
{
    if i >= s.len() {
    } else if s[i] == c {
    } else {
        lemma_find_char(s, c, i + 1);
    }
}

pub fn scan_char(s: &str, c: char, i: usize) -> (r: usize)
    requires
        i <= s@.len(),
    ensures
        r as int == find_char_from(s@, c, i as int),
        i <= r <= s@.len(),
    decreases s@.len() - i,
{
    let n = s.unicode_len();
    if i >= n {
        n
    } else if s.get_char(i) == c {
        i
    } else {
        scan_char(s, c, i + 1)
    }
}

pub open spec fn split_lines_from(s: Seq<char>, i: int) -> Seq<Seq<char>>
    decreases s.len() - i,
    when 0 <= i <= s.len()
    via split_lines_from_dec
{
    let b = find_char_from(s, '\n', i);
    if b >= s.len() {
        seq![s.subrange(i, s.len() as int)]
    } else {
        seq![s.subrange(i, b)] + split_lines_from(s, b + 1)
    }
}

#[via_fn]
proof fn split_lines_from_dec(s: Seq<char>, i: int) {
    lemma_find_char(s, '\n', i);
}

/// The text cut at every line break.
pub open spec fn raw_lines(s: Seq<char>) -> Seq<Seq<char>> {
    split_lines_from(s, 0)
}

fn split_lines(s: &str) -> (v: Vec<String>)
    ensures
        v@.map_values(|l: String| l@) == raw_lines(s@),
{
    let n = s.unicode_len();
    let mut v: Vec<String> = Vec::new();
    let mut i: usize = 0;
    let mut done = false;
    while !done
        invariant
            n == s@.len(),
            i <= n,
            !done ==> v@.map_values(|l: String| l@) + split_lines_from(s@, i as int)
                =~= raw_lines(s@),
            done ==> v@.map_values(|l: String| l@) =~= raw_lines(s@),
        decreases n - i + (if done { 0int } else { 1int }),
    {
        let b = scan_char(s, '\n', i);
        let piece = s.substring_char(i, b);
        let ghost old_v = v@;
        v.push(String::from_str(piece));
        proof {
            assert(v@.map_values(|l: String| l@)
                =~= old_v.map_values(|l: String| l@).push(piece@));
            assert(piece@ =~= s@.subrange(i as int, b as int));
        }
        if b == n {
            done = true;
        } else {
            i = b + 1;
        }
    }
    proof {
        assert(v@.map_values(|l: String| l@) =~= raw_lines(s@));
    }
    v
}

/// The meaningful lines of a source text, in order: each line cleaned,
/// lines that clean away to nothing dropped.
pub open spec fn cleaned_of(raw: Seq<Seq<char>>) -> Seq<Seq<char>>
    decreases raw.len(),
{
    if raw.len() == 0 {
        Seq::empty()
    } else {
        let rest = cleaned_of(raw.drop_last());
        let c = clean_line_spec(raw.last());
        if c.len() > 0 {
            rest.push(c)
        } else {
            rest
        }
    }
}

pub open spec fn clean_lines_spec(s: Seq<char>) -> Seq<Seq<char>> {
    cleaned_of(raw_lines(s))
}

pub fn clean_source(source: &str) -> (lines: Vec<String>)
    ensures
        lines@.map_values(|l: String| l@) == clean_lines_spec(source@),
{
    let raw = split_lines(source);
    let ghost rawv = raw@.map_values(|l: String| l@);
    let mut out: Vec<String> = Vec::new();
    let mut k: usize = 0;
    while k < raw.len()
        invariant
            rawv == raw@.map_values(|l: String| l@),
            k <= raw.len(),
            out@.map_values(|l: String| l@) =~= cleaned_of(rawv.take(k as int)),
        decreases raw.len() - k,
    {
        let c = clean_line(raw[k].as_str());
        let ghost old_out = out@;
        if c.unicode_len() > 0 {
            out.push(c);
        }
        proof {
            assert(rawv.take(k + 1).drop_last() =~= rawv.take(k as int));
            assert(rawv.take(k + 1).last() == rawv[k as int]);
            assert(rawv[k as int] == raw@[k as int]@);
            if c@.len() > 0 {
                assert(out@.map_values(|l: String| l@)
                    =~= old_out.map_values(|l: String| l@).push(c@));
            }
        }
        k = k + 1;
    }
    proof {
        assert(rawv.take(raw@.len() as int) =~= rawv);
    }
    out
}

// ---------------------------------------------------------------------------
// Tokens
// ---------------------------------------------------------------------------

/// First index at or after `i` holding a non-space character, or the length.
pub open spec fn skip_spaces(s: Seq<char>, i: int) -> int
    decreases s.len() - i,
{
    if i >= s.len() {
        s.len() as int
    } else if !is_space_char(s[i]) {
        i
    } else {
        skip_spaces(s, i + 1)
    }
}

/// First index at or after `i` holding a space, or the length.
pub open spec fn token_end(s: Seq<char>, i: int) -> int
    decreases s.len() - i,
{
    if i >= s.len() {
        s.len() as int
    } else if is_space_char(s[i]) {
        i
    } else {
        token_end(s, i + 1)
    }
}

pub proof fn lemma_skip_spaces(s: Seq<char>, i: int)
    requires
        0 <= i <= s.len(),
    ensures
        i <= skip_spaces(s, i) <= s.len(),
        skip_spaces(s, i) < s.len() ==> !is_space_char(s[skip_spaces(s, i)]),
    decreases s.len() - i,
{
    if i >= s.len() {
    } else if !is_space_char(s[i]) {
    } else {
        lemma_skip_spaces(s, i + 1);
    }
}

pub proof fn lemma_token_end(s: Seq<char>, i: int)
    requires
        0 <= i <= s.len(),
    ensures
        i <= token_end(s, i) <= s.len(),
    decreases s.len() - i,
{
    if i >= s.len() {
    } else if is_space_char(s[i]) {
    } else {
        lemma_token_end(s, i + 1);
    }
}

pub open spec fn tokens_from(s: Seq<char>, i: int) -> Seq<Seq<char>>
    decreases s.len() - i,
    when 0 <= i <= s.len()
    via tokens_from_dec
{
    let j = skip_spaces(s, i);
    if j >= s.len() {
        Seq::empty()
    } else {
        let e = token_end(s, j);
        seq![s.subrange(j, e)] + tokens_from(s, e)
    }
}

#[via_fn]
proof fn tokens_from_dec(s: Seq<char>, i: int) {
    lemma_skip_spaces(s, i);
    let j = skip_spaces(s, i);
    if j < s.len() {
        assert(token_end(s, j) == token_end(s, j + 1));
        lemma_token_end(s, j + 1);
    }
}

/// The whitespace-separated tokens of a line, in order.
pub open spec fn tokens_of(s: Seq<char>) -> Seq<Seq<char>> {
    tokens_from(s, 0)
}

fn scan_non_space(s: &str, i: usize) -> (r: usize)
    requires
        i <= s@.len(),
    ensures
        r as int == skip_spaces(s@, i as int),
        i <= r <= s@.len(),
    decreases s@.len() - i,
{
    let n = s.unicode_len();
    if i >= n {
        n
    } else if !is_space(s.get_char(i)) {
        i
    } else {
        scan_non_space(s, i + 1)
    }
}

fn scan_token_end(s: &str, i: usize) -> (r: usize)
    requires
        i <= s@.len(),
    ensures
        r as int == token_end(s@, i as int),
        i <= r <= s@.len(),
    decreases s@.len() - i,
{
    let n = s.unicode_len();
    if i >= n {
        n
    } else if is_space(s.get_char(i)) {
        i
    } else {
        scan_token_end(s, i + 1)
    }
}

pub fn split_tokens(s: &str) -> (v: Vec<String>)
    ensures
        v@.map_values(|t: String| t@) == tokens_of(s@),
{
    let n = s.unicode_len();
    let mut v: Vec<String> = Vec::new();
    let mut pos: usize = 0;
    let mut done = false;
    while !done
        invariant
            n == s@.len(),
            pos <= n,
            !done ==> v@.map_values(|t: String| t@) + tokens_from(s@, pos as int)
                =~= tokens_of(s@),
            done ==> v@.map_values(|t: String| t@) =~= tokens_of(s@),
        decreases n - pos + (if done { 0int } else { 1int }),
    {
        let j = scan_non_space(s, pos);
        if j >= n {
            done = true;
        } else {
            let e = scan_token_end(s, j);
            proof {
                lemma_skip_spaces(s@, pos as int);
                assert(token_end(s@, j as int) == token_end(s@, j as int + 1));
                lemma_token_end(s@, j as int + 1);
            }
            let piece = s.substring_char(j, e);
            let ghost old_v = v@;
            v.push(String::from_str(piece));
            proof {
                assert(v@.map_values(|t: String| t@)
                    =~= old_v.map_values(|t: String| t@).push(piece@));
            }
            pos = e;
        }
    }
    proof {
        assert(v@.map_values(|t: String| t@) =~= tokens_of(s@));
    }
    v
}

// ---------------------------------------------------------------------------
// Decimal numerals
// ---------------------------------------------------------------------------

pub open spec fn digit_char(d: nat) -> char {
    if d == 0 { '0' }
    else if d == 1 { '1' }
    else if d == 2 { '2' }
    else if d == 3 { '3' }
    else if d == 4 { '4' }
    else if d == 5 { '5' }
    else if d == 6 { '6' }
    else if d == 7 { '7' }
    else if d == 8 { '8' }
    else { '9' }
}

/// The decimal rendering of a number, without leading zeros.
pub open spec fn dec_digits(n: nat) -> Seq<char>
    decreases n,
{
    if n < 10 {
        seq![digit_char(n)]
    } else {
        dec_digits(n / 10).push(digit_char(n % 10))
    }
}

fn digit_str(d: usize) -> (r: &'static str)
    requires
        d < 10,
    ensures
        r@ =~= seq![digit_char(d as nat)],
{
    proof {
        reveal_strlit("0");
        reveal_strlit("1");
        reveal_strlit("2");
        reveal_strlit("3");
        reveal_strlit("4");
        reveal_strlit("5");
        reveal_strlit("6");
        reveal_strlit("7");
        reveal_strlit("8");
        reveal_strlit("9");
    }
    if d == 0 { "0" }
    else if d == 1 { "1" }
    else if d == 2 { "2" }
    else if d == 3 { "3" }
    else if d == 4 { "4" }
    else if d == 5 { "5" }
    else if d == 6 { "6" }
    else if d == 7 { "7" }
    else if d == 8 { "8" }
    else { "9" }
}

pub fn usize_to_string(n: usize) -> (s: String)
    ensures
        s@ == dec_digits(n as nat),
    decreases n,
{
    if n < 10 {
        String::from_str(digit_str(n))
    } else {
        let mut s = usize_to_string(n / 10);
        s.append(digit_str(n % 10));
        proof {
            assert(s@ =~= dec_digits((n / 10) as nat).push(digit_char((n % 10) as nat)));
        }
        s
    }
}

/// A decimal rendering is nonempty and made of digits alone.
pub proof fn lemma_dec_digits_digits(n: nat)
    ensures
        dec_digits(n).len() >= 1,
        forall|i: int|
            0 <= i < dec_digits(n).len() ==> is_digit_char(#[trigger] dec_digits(n)[i]),
    decreases n,
{
    if n < 10 {
    } else {
        lemma_dec_digits_digits(n / 10);
        assert forall|i: int|
            0 <= i < dec_digits(n).len() implies is_digit_char(#[trigger] dec_digits(n)[i]) by {
            if i < dec_digits(n).len() - 1 {
                assert(dec_digits(n)[i] == dec_digits(n / 10)[i]);
            }
        }
    }
}

/// Two numbers never share a decimal rendering.
pub proof fn lemma_dec_digits_injective(a: nat, b: nat)
    requires
        dec_digits(a) == dec_digits(b),
    ensures
        a == b,
    decreases a,
{
    if a < 10 && b < 10 {
        assert(dec_digits(a)[0] == digit_char(a));
        assert(dec_digits(b)[0] == digit_char(b));
    } else if a < 10 && b >= 10 {
        lemma_dec_digits_digits(b / 10);
        assert(dec_digits(a).len() == 1);
        assert(dec_digits(b).len() == dec_digits(b / 10).len() + 1);
        assert(false);
    } else if a >= 10 && b < 10 {
        lemma_dec_digits_digits(a / 10);
        assert(dec_digits(b).len() == 1);
        assert(dec_digits(a).len() == dec_digits(a / 10).len() + 1);
        assert(false);
    } else {
        assert(dec_digits(a).last() == digit_char(a % 10));
        assert(dec_digits(b).last() == digit_char(b % 10));
        assert(a % 10 == b % 10);
        assert(dec_digits(a).drop_last() =~= dec_digits(a / 10));
        assert(dec_digits(b).drop_last() =~= dec_digits(b / 10));
        lemma_dec_digits_injective(a / 10, b / 10);
    }
}

/// The number a run of decimal digits denotes.
pub open spec fn dec_value(s: Seq<char>) -> nat
    decreases s.len(),
{
    if s.len() == 0 {
        0
    } else {
        dec_value(s.drop_last()) * 10 + digit_val(s.last())
    }
}

pub open spec fn all_digits(s: Seq<char>) -> bool {
    forall|i: int| 0 <= i < s.len() ==> is_digit_char(s[i])
}

proof fn lemma_dec_value_grows(s: Seq<char>, i: int, bound: nat)
    requires
        0 <= i <= s.len(),
        dec_value(s.take(i)) > bound,
    ensures
        dec_value(s) > bound,
    decreases s.len() - i,
{
    if i == s.len() {
        assert(s.take(i) =~= s);
    } else {
        assert(s.take(i + 1).drop_last() =~= s.take(i));
        assert(dec_value(s.take(i + 1)) == dec_value(s.take(i)) * 10 + digit_val(s.take(i + 1).last()));
        lemma_dec_value_grows(s, i + 1, bound);
    }
}

/// Reads an unsigned 16-bit number written in decimal. Yields nothing if a
/// character is not a digit or the value does not fit in 16 bits.
pub fn parse_u16(s: &str) -> (r: Option<usize>)
    ensures
        match r {
            Some(v) => all_digits(s@) && v as nat == dec_value(s@) && v < 65536,
            None => !all_digits(s@) || dec_value(s@) >= 65536,
        },
{
    let n = s.unicode_len();
    let mut acc: usize = 0;
    let mut i: usize = 0;
    while i < n
        invariant
            n == s@.len(),
            i <= n,
            acc < 65536,
            acc as nat == dec_value(s@.take(i as int)),
            forall|j: int| 0 <= j < i ==> is_digit_char(s@[j]),
        decreases n - i,
    {
        let c = s.get_char(i);
        if !is_digit(c) {
            return None;
        }
        let d = (c as u32 - 48) as usize;
        proof {
            assert(s@.take(i + 1).drop_last() =~= s@.take(i as int));
            assert(s@.take(i + 1).last() == s@[i as int]);
        }
        if acc > 6553 || (acc == 6553 && d > 5) {
            proof {
                lemma_dec_value_grows(s@, i + 1, 65535);
            }
            return None;
        }
        acc = acc * 10 + d;
        i = i + 1;
    }
    proof {
        assert(s@.take(n as int) =~= s@);
    }
    Some(acc)
}

/// Reads an unsigned number written in decimal, as large as the machine
/// word allows. Yields nothing for an empty string, a non-digit, or a value
/// beyond the machine word.
pub fn parse_usize(s: &str) -> (r: Option<usize>)
    ensures
        match r {
            Some(v) => s@.len() > 0 && all_digits(s@) && v as nat == dec_value(s@) && dec_value(s@)
                <= usize::MAX,
            None => s@.len() == 0 || !all_digits(s@) || dec_value(s@) > usize::MAX,
        },
{
    let n = s.unicode_len();
    if n == 0 {
        return None;
    }
    let mut acc: usize = 0;
    let mut i: usize = 0;
    while i < n
        invariant
            n == s@.len(),
            i <= n,
            acc as nat == dec_value(s@.take(i as int)),
            forall|j: int| 0 <= j < i ==> is_digit_char(s@[j]),
        decreases n - i,
    {
        let c = s.get_char(i);
        if !is_digit(c) {
            return None;
        }
        let d = (c as u32 - 48) as usize;
        proof {
            assert(s@.take(i + 1).drop_last() =~= s@.take(i as int));
            assert(s@.take(i + 1).last() == s@[i as int]);
        }
        let lim = (usize::MAX - d) / 10;
        if acc > lim {
            proof {
                assert(acc * 10 + d > usize::MAX) by (nonlinear_arith)
                    requires
                        acc > (usize::MAX - d) / 10,
                        d <= 9,
                {
                }
                lemma_dec_value_grows(s@, i + 1, usize::MAX as nat);
            }
            return None;
        }
        proof {
            assert(acc * 10 + d <= usize::MAX) by (nonlinear_arith)
                requires
                    acc <= (usize::MAX - d) / 10,
                    d <= 9,
            {
            }
        }
        acc = acc * 10 + d;
        i = i + 1;
    }
    proof {
        assert(s@.take(n as int) =~= s@);
    }
    Some(acc)
}

// ---------------------------------------------------------------------------
// Last occurrence of a character
// ---------------------------------------------------------------------------

/// The last index holding `c`, or `-1` if none does.
pub open spec fn last_index_of(s: Seq<char>, c: char) -> int
    decreases s.len(),
{
    if s.len() == 0 {
        -1
    } else if s.last() == c {
        s.len() - 1
    } else {
        last_index_of(s.drop_last(), c)
    }
}

pub proof fn lemma_last_index_bounds(s: Seq<char>, c: char)
    ensures
        -1 <= last_index_of(s, c) < s.len(),
    decreases s.len(),
{
    if s.len() == 0 {
    } else if s.last() == c {
    } else {
        lemma_last_index_bounds(s.drop_last(), c);
    }
}

proof fn lemma_last_index_found(s: Seq<char>, c: char, i: int)
    requires
        0 <= i < s.len(),
        s[i] == c,
        forall|j: int| i < j < s.len() ==> s[j] != c,
    ensures
        last_index_of(s, c) == i,
    decreases s.len(),
{
    if s.last() == c {
        assert(i == s.len() - 1);
    } else {
        assert(i < s.len() - 1);
        lemma_last_index_found(s.drop_last(), c, i);
    }
}

proof fn lemma_last_index_none(s: Seq<char>, c: char)
    requires
        forall|j: int| 0 <= j < s.len() ==> s[j] != c,
    ensures
        last_index_of(s, c) == -1,
    decreases s.len(),
{
    if s.len() > 0 {
        lemma_last_index_none(s.drop_last(), c);
    }
}

pub fn rscan_char(s: &str, c: char) -> (r: Option<usize>)
    ensures
        match r {
            Some(i) => i as int == last_index_of(s@, c),
            None => last_index_of(s@, c) == -1,
        },
{
    let n = s.unicode_len();
    let mut i: usize = n;
    while i > 0
        invariant
            n == s@.len(),
            i <= n,
            forall|j: int| i <= j < n ==> s@[j] != c,
        decreases i,
    {
        i = i - 1;
        if s.get_char(i) == c {
            proof {
                lemma_last_index_found(s@, c, i as int);
            }
            return Some(i);
        }
    }
    proof {
        lemma_last_index_none(s@, c);
    }
    None
}

/// The base name of a path: what follows the last `/`, up to the last `.`;
/// a name whose only dot leads, or that has none, stays whole.
pub open spec fn file_stem(path: Seq<char>) -> Seq<char> {
    let base = path.subrange(last_index_of(path, '/') + 1, path.len() as int);
    let d = last_index_of(base, '.');
    if d > 0 {
        base.take(d)
    } else {
        base
    }
}

pub fn file_stem_exec(path: &str) -> (r: String)
    ensures
        r@ == file_stem(path@),
{
    let n = path.unicode_len();
    proof {
        lemma_last_index_bounds(path@, '/');
    }
    let start: usize = match rscan_char(path, '/') {
        Some(i) => i + 1,
        None => 0,
    };
    let base = path.substring_char(start, n);
    proof {
        assert(base@ =~= path@.subrange(last_index_of(path@, '/') + 1, path@.len() as int));
        lemma_last_index_bounds(base@, '.');
    }
    match rscan_char(base, '.') {
        Some(d) => {
            if d > 0 {
                let r = base.substring_char(0, d);
                proof {
                    assert(r@ =~= base@.take(last_index_of(base@, '.')));
                }
                String::from_str(r)
            } else {
                String::from_str(base)
            }
        },
        None => String::from_str(base),
    }
}

// ---------------------------------------------------------------------------
// Tokens survive cleaning
// ---------------------------------------------------------------------------

proof fn lemma_trim_start_nonspace(s: Seq<char>)
    ensures
        trim_start_spec(s).len() > 0 ==> !is_space_char(trim_start_spec(s)[0]),
    decreases s.len(),
{
    if s.len() > 0 && is_space_char(s[0]) {
        lemma_trim_start_nonspace(s.drop_first());
    }
}

proof fn lemma_trim_end_keeps_first(s: Seq<char>)
    ensures
        trim_end_spec(s).len() > 0 ==> s.len() > 0 && trim_end_spec(s)[0] == s[0],
    decreases s.len(),
{
    if s.len() > 0 && is_space_char(s.last()) {
        lemma_trim_end_keeps_first(s.drop_last());
    }
}

/// A nonempty trimmed line begins with a non-space character, so it holds
/// at least one token.
pub proof fn lemma_trimmed_has_token(s: Seq<char>)
    ensures
        trim_spec(s).len() > 0 ==> tokens_of(trim_spec(s)).len() >= 1,
{
    let t = trim_spec(s);
    if t.len() > 0 {
        lemma_trim_start_nonspace(s);
        lemma_trim_end_keeps_first(trim_start_spec(s));
        assert(!is_space_char(t[0]));
        assert(skip_spaces(t, 0) == 0);
        assert(tokens_of(t).len() >= 1);
    }
}

/// Every cleaned line is nonempty and holds at least one token.
pub proof fn lemma_cleaned_lines_tokens(raw: Seq<Seq<char>>)
    ensures
        forall|i: int|
            0 <= i < cleaned_of(raw).len() ==> (#[trigger] cleaned_of(raw)[i]).len() > 0
                && tokens_of(cleaned_of(raw)[i]).len() >= 1,
    decreases raw.len(),
{
    if raw.len() > 0 {
        lemma_cleaned_lines_tokens(raw.drop_last());
        let rest = cleaned_of(raw.drop_last());
        let c = clean_line_spec(raw.last());
        if c.len() > 0 {
            let t = trim_spec(raw.last());
            lemma_trimmed_has_token(t.take(comment_start(t)));
        }
        assert forall|i: int| 0 <= i < cleaned_of(raw).len() implies (#[trigger] cleaned_of(
            raw,
        )[i]).len() > 0 && tokens_of(cleaned_of(raw)[i]).len() >= 1 by {
            if c.len() > 0 {
                if i < rest.len() {
                    assert(cleaned_of(raw)[i] == rest[i]);
                } else {
                    assert(cleaned_of(raw)[i] == c);
                }
            } else {
                assert(cleaned_of(raw)[i] == rest[i]);
            }
        }
    }
}

// ---------------------------------------------------------------------------
// Binary numerals
// ---------------------------------------------------------------------------

/// The low `w` bits of a number, most significant first.
pub open spec fn bin_digits(n: nat, w: nat) -> Seq<char>
    decreases w,
{
    if w == 0 {
        Seq::empty()
    } else {
        bin_digits(n / 2, (w - 1) as nat).push(if n % 2 == 1 { '1' } else { '0' })
    }
}

fn to_bin(n: usize, w: usize) -> (s: String)
    ensures
        s@ == bin_digits(n as nat, w as nat),
    decreases w,
{
    if w == 0 {
        let s = String::new();
        proof {
            assert(s@ =~= bin_digits(n as nat, 0));
        }
        s
    } else {
        let mut s = to_bin(n / 2, w - 1);
        let bit = if n % 2 == 1 { "1" } else { "0" };
        s.append(bit);
        proof {
            reveal_strlit("0");
            reveal_strlit("1");
            assert(s@ =~= bin_digits((n / 2) as nat, (w - 1) as nat)
                .push(if n as nat % 2 == 1 { '1' } else { '0' }));
        }
        s
    }
}

/// A 16-bit word written as sixteen binary digits.
pub open spec fn bin16(n: nat) -> Seq<char> {
    bin_digits(n, 16)
}

pub fn to_bin16(n: usize) -> (s: String)
    ensures
        s@ == bin16(n as nat),
{
    to_bin(n, 16)
}

pub proof fn lemma_bin_digits_len(n: nat, w: nat)
    ensures
        bin_digits(n, w).len() == w,
    decreases w,
{
    if w > 0 {
        lemma_bin_digits_len(n / 2, (w - 1) as nat);
    }
}

pub proof fn lemma_bin_digits_chars(n: nat, w: nat)
    ensures
        forall|i: int|
            0 <= i < bin_digits(n, w).len() ==> #[trigger] bin_digits(n, w)[i] == '0'
                || bin_digits(n, w)[i] == '1',
    decreases w,
{
    if w > 0 {
        lemma_bin_digits_chars(n / 2, (w - 1) as nat);
        assert forall|i: int|
            0 <= i < bin_digits(n, w).len() implies #[trigger] bin_digits(n, w)[i] == '0'
            || bin_digits(n, w)[i] == '1' by {
            if i < bin_digits(n, w).len() - 1 {
                assert(bin_digits(n, w)[i] == bin_digits(n / 2, (w - 1) as nat)[i]);
            }
        }
    }
}

} // verus!

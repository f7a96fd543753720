//! The instruction encoder: fixed lookup tables from the three mnemonic
//! fields of a compute instruction to their binary encodings.

use vstd::prelude::*;
use vstd::string::*;
use crate::text::str_eq;

verus! {

/// The destination field's encoding: one bit per writable location, in the
/// order A, D, M.
pub open spec fn dest_code(m: Seq<char>) -> Option<Seq<char>> {
    if m == "null"@ {
        Some("000"@)
    } else if m == "M"@ {
        Some("001"@)
    } else if m == "D"@ {
        Some("010"@)
    } else if m == "MD"@ {
        Some("011"@)
    } else if m == "A"@ {
        Some("100"@)
    } else if m == "AM"@ {
        Some("101"@)
    } else if m == "AD"@ {
        Some("110"@)
    } else if m == "AMD"@ {
        Some("111"@)
    } else {
        None
    }
}

/// The computation field's encoding: the `a` bit, then the six control bits.
pub open spec fn comp_code(m: Seq<char>) -> Option<Seq<char>> {
    if m == "0"@ {
        Some("0101010"@)
    } else if m == "1"@ {
        Some("0111111"@)
    } else if m == "-1"@ {
        Some("0111010"@)
    } else if m == "D"@ {
        Some("0001100"@)
    } else if m == "A"@ {
        Some("0110000"@)
    } else if m == "!D"@ {
        Some("0001101"@)
    } else if m == "!A"@ {
        Some("0110001"@)
    } else if m == "-D"@ {
        Some("0001111"@)
    } else if m == "-A"@ {
        Some("0110011"@)
    } else if m == "D+1"@ {
        Some("0011111"@)
    } else if m == "A+1"@ {
        Some("0110111"@)
    } else if m == "D-1"@ {
        Some("0001110"@)
    } else if m == "A-1"@ {
        Some("0110010"@)
    } else if m == "D+A"@ {
        Some("0000010"@)
    } else if m == "D-A"@ {
        Some("0010011"@)
    } else if m == "A-D"@ {
        Some("0000111"@)
    } else if m == "D&A"@ {
        Some("0000000"@)
    } else if m == "D|A"@ {
        Some("0010101"@)
    } else if m == "M"@ {
        Some("1110000"@)
    } else if m == "!M"@ {
        Some("1110001"@)
    } else if m == "-M"@ {
        Some("1110011"@)
    } else if m == "M+1"@ {
        Some("1110111"@)
    } else if m == "M-1"@ {
        Some("1110010"@)
    } else if m == "D+M"@ {
        Some("1000010"@)
    } else if m == "D-M"@ {
        Some("1010011"@)
    } else if m == "M-D"@ {
        Some("1000111"@)
    } else if m == "D&M"@ {
        Some("1000000"@)
    } else if m == "D|M"@ {
        Some("1010101"@)
    } else {
        None
    }
}

/// The jump field's encoding.
pub open spec fn jump_code(m: Seq<char>) -> Option<Seq<char>> {
    if m == "null"@ {
        Some("000"@)
    } else if m == "JGT"@ {
        Some("001"@)
    } else if m == "JEQ"@ {
        Some("010"@)
    } else if m == "JGE"@ {
        Some("011"@)
    } else if m == "JLT"@ {
        Some("100"@)
    } else if m == "JNE"@ {
        Some("101"@)
    } else if m == "JLE"@ {
        Some("110"@)
    } else if m == "JMP"@ {
        Some("111"@)
    } else {
        None
    }
}

pub open spec fn dest_err(m: Seq<char>) -> Seq<char> {
    "mnemonic "@ + m + " is not allowed in `dest`."@
}

pub open spec fn comp_err(m: Seq<char>) -> Seq<char> {
    "mnemonic "@ + m + " is not allowed in `comp`."@
}

pub open spec fn jump_err(m: Seq<char>) -> Seq<char> {
    "mnemonic "@ + m + " is not allowed in `jump`."@
}

/// One mnemonic, held for encoding; an absent field is the literal `null`.
pub struct Code {
    code: String,
}

impl View for Code {
    type V = Seq<char>;

    closed spec fn view(&self) -> Seq<char> {
        self.code@
    }
}

impl Code {
    pub fn new(code: Option<String>) -> (r: Self)
        ensures
            r@ == (match code {
                Some(c) => c@,
                None => "null"@,
            }),
    {
        match code {
            Some(c) => Self { code: c },
            None => Self { code: String::from_str("null") },
        }
    }

    pub fn dest(&self) -> (r: Result<String, String>)
        ensures
            match r {
                Ok(s) => dest_code(self@) == Some(s@),
                Err(e) => dest_code(self@) is None && e@ == dest_err(self@),
            },
    {
        let c = self.code.as_str();
        if str_eq(c, "null") {
            Ok(String::from_str("000"))
        } else if str_eq(c, "M") {
            Ok(String::from_str("001"))
        } else if str_eq(c, "D") {
            Ok(String::from_str("010"))
        } else if str_eq(c, "MD") {
            Ok(String::from_str("011"))
        } else if str_eq(c, "A") {
            Ok(String::from_str("100"))
        } else if str_eq(c, "AM") {
            Ok(String::from_str("101"))
        } else if str_eq(c, "AD") {
            Ok(String::from_str("110"))
        } else if str_eq(c, "AMD") {
            Ok(String::from_str("111"))
        } else {
            let mut e = String::from_str("mnemonic ");
            e.append(c);
            e.append(" is not allowed in `dest`.");
            Err(e)
        }
    }

    pub fn comp(&self) -> (r: Result<String, String>)
        ensures
            match r {
                Ok(s) => comp_code(self@) == Some(s@),
                Err(e) => comp_code(self@) is None && e@ == comp_err(self@),
            },
    {
        let c = self.code.as_str();
        if str_eq(c, "0") {
            Ok(String::from_str("0101010"))
        } else if str_eq(c, "1") {
            Ok(String::from_str("0111111"))
        } else if str_eq(c, "-1") {
            Ok(String::from_str("0111010"))
        } else if str_eq(c, "D") {
            Ok(String::from_str("0001100"))
        } else if str_eq(c, "A") {
            Ok(String::from_str("0110000"))
        } else if str_eq(c, "!D") {
            Ok(String::from_str("0001101"))
        } else if str_eq(c, "!A") {
            Ok(String::from_str("0110001"))
        } else if str_eq(c, "-D") {
            Ok(String::from_str("0001111"))
        } else if str_eq(c, "-A") {
            Ok(String::from_str("0110011"))
        } else if str_eq(c, "D+1") {
            Ok(String::from_str("0011111"))
        } else if str_eq(c, "A+1") {
            Ok(String::from_str("0110111"))
        } else if str_eq(c, "D-1") {
            Ok(String::from_str("0001110"))
        } else if str_eq(c, "A-1") {
            Ok(String::from_str("0110010"))
        } else if str_eq(c, "D+A") {
            Ok(String::from_str("0000010"))
        } else if str_eq(c, "D-A") {
            Ok(String::from_str("0010011"))
        } else if str_eq(c, "A-D") {
            Ok(String::from_str("0000111"))
        } else if str_eq(c, "D&A") {
            Ok(String::from_str("0000000"))
        } else if str_eq(c, "D|A") {
            Ok(String::from_str("0010101"))
        } else if str_eq(c, "M") {
            Ok(String::from_str("1110000"))
        } else if str_eq(c, "!M") {
            Ok(String::from_str("1110001"))
        } else if str_eq(c, "-M") {
            Ok(String::from_str("1110011"))
        } else if str_eq(c, "M+1") {
            Ok(String::from_str("1110111"))
        } else if str_eq(c, "M-1") {
            Ok(String::from_str("1110010"))
        } else if str_eq(c, "D+M") {
            Ok(String::from_str("1000010"))
        } else if str_eq(c, "D-M") {
            Ok(String::from_str("1010011"))
        } else if str_eq(c, "M-D") {
            Ok(String::from_str("1000111"))
        } else if str_eq(c, "D&M") {
            Ok(String::from_str("1000000"))
        } else if str_eq(c, "D|M") {
            Ok(String::from_str("1010101"))
        } else {
            let mut e = String::from_str("mnemonic ");
            e.append(c);
            e.append(" is not allowed in `comp`.");
            Err(e)
        }
    }

    pub fn jump(&self) -> (r: Result<String, String>)
        ensures
            match r {
                Ok(s) => jump_code(self@) == Some(s@),
                Err(e) => jump_code(self@) is None && e@ == jump_err(self@),
            },
    {
        let c = self.code.as_str();
        if str_eq(c, "null") {
            Ok(String::from_str("000"))
        } else if str_eq(c, "JGT") {
            Ok(String::from_str("001"))
        } else if str_eq(c, "JEQ") {
            Ok(String::from_str("010"))
        } else if str_eq(c, "JGE") {
            Ok(String::from_str("011"))
        } else if str_eq(c, "JLT") {
            Ok(String::from_str("100"))
        } else if str_eq(c, "JNE") {
            Ok(String::from_str("101"))
        } else if str_eq(c, "JLE") {
            Ok(String::from_str("110"))
        } else if str_eq(c, "JMP") {
            Ok(String::from_str("111"))
        } else {
            let mut e = String::from_str("mnemonic ");
            e.append(c);
            e.append(" is not allowed in `jump`.");
            Err(e)
        }
    }
}

/// Every destination or jump encoding is three binary digits and every
/// computation encoding is seven.
pub proof fn lemma_code_words(m: Seq<char>)
    ensures
        dest_code(m) matches Some(c) ==> c.len() == 3 && (forall|i: int|
            0 <= i < c.len() ==> #[trigger] c[i] == '0' || c[i] == '1'),
        comp_code(m) matches Some(c) ==> c.len() == 7 && (forall|i: int|
            0 <= i < c.len() ==> #[trigger] c[i] == '0' || c[i] == '1'),
        jump_code(m) matches Some(c) ==> c.len() == 3 && (forall|i: int|
            0 <= i < c.len() ==> #[trigger] c[i] == '0' || c[i] == '1'),
{
    lemma_three_bit_codes();
    lemma_seven_bit_codes();
}

/// The twenty-eight seven-character encodings, pinned down character by
/// character.
proof fn lemma_seven_bit_codes()
    ensures
        "0101010"@ =~= seq!['0', '1', '0', '1', '0', '1', '0'],
        "0111111"@ =~= seq!['0', '1', '1', '1', '1', '1', '1'],
        "0111010"@ =~= seq!['0', '1', '1', '1', '0', '1', '0'],
        "0001100"@ =~= seq!['0', '0', '0', '1', '1', '0', '0'],
        "0110000"@ =~= seq!['0', '1', '1', '0', '0', '0', '0'],
        "0001101"@ =~= seq!['0', '0', '0', '1', '1', '0', '1'],
        "0110001"@ =~= seq!['0', '1', '1', '0', '0', '0', '1'],
        "0001111"@ =~= seq!['0', '0', '0', '1', '1', '1', '1'],
        "0110011"@ =~= seq!['0', '1', '1', '0', '0', '1', '1'],
        "0011111"@ =~= seq!['0', '0', '1', '1', '1', '1', '1'],
        "0110111"@ =~= seq!['0', '1', '1', '0', '1', '1', '1'],
        "0001110"@ =~= seq!['0', '0', '0', '1', '1', '1', '0'],
        "0110010"@ =~= seq!['0', '1', '1', '0', '0', '1', '0'],
        "0000010"@ =~= seq!['0', '0', '0', '0', '0', '1', '0'],
        "0010011"@ =~= seq!['0', '0', '1', '0', '0', '1', '1'],
        "0000111"@ =~= seq!['0', '0', '0', '0', '1', '1', '1'],
        "0000000"@ =~= seq!['0', '0', '0', '0', '0', '0', '0'],
        "0010101"@ =~= seq!['0', '0', '1', '0', '1', '0', '1'],
        "1110000"@ =~= seq!['1', '1', '1', '0', '0', '0', '0'],
        "1110001"@ =~= seq!['1', '1', '1', '0', '0', '0', '1'],
        "1110011"@ =~= seq!['1', '1', '1', '0', '0', '1', '1'],
        "1110111"@ =~= seq!['1', '1', '1', '0', '1', '1', '1'],
        "1110010"@ =~= seq!['1', '1', '1', '0', '0', '1', '0'],
        "1000010"@ =~= seq!['1', '0', '0', '0', '0', '1', '0'],
        "1010011"@ =~= seq!['1', '0', '1', '0', '0', '1', '1'],
        "1000111"@ =~= seq!['1', '0', '0', '0', '1', '1', '1'],
        "1000000"@ =~= seq!['1', '0', '0', '0', '0', '0', '0'],
        "1010101"@ =~= seq!['1', '0', '1', '0', '1', '0', '1'],
{
    reveal_strlit("0101010");
    reveal_strlit("0111111");
    reveal_strlit("0111010");
    reveal_strlit("0001100");
    reveal_strlit("0110000");
    reveal_strlit("0001101");
    reveal_strlit("0110001");
    reveal_strlit("0001111");
    reveal_strlit("0110011");
    reveal_strlit("0011111");
    reveal_strlit("0110111");
    reveal_strlit("0001110");
    reveal_strlit("0110010");
    reveal_strlit("0000010");
    reveal_strlit("0010011");
    reveal_strlit("0000111");
    reveal_strlit("0000000");
    reveal_strlit("0010101");
    reveal_strlit("1110000");
    reveal_strlit("1110001");
    reveal_strlit("1110011");
    reveal_strlit("1110111");
    reveal_strlit("1110010");
    reveal_strlit("1000010");
    reveal_strlit("1010011");
    reveal_strlit("1000111");
    reveal_strlit("1000000");
    reveal_strlit("1010101");
}

/// No two destination mnemonics share an encoding, so looking an encoding up
/// backwards through the table recovers the mnemonic it came from.
pub proof fn lemma_dest_injective(m1: Seq<char>, m2: Seq<char>)
    requires
        dest_code(m1) is Some,
        dest_code(m1) == dest_code(m2),
    ensures
        m1 == m2,
{
    lemma_three_bit_codes();
}

/// The eight three-character encodings, pinned down character by character.
proof fn lemma_three_bit_codes()
    ensures
        "000"@ =~= seq!['0', '0', '0'],
        "001"@ =~= seq!['0', '0', '1'],
        "010"@ =~= seq!['0', '1', '0'],
        "011"@ =~= seq!['0', '1', '1'],
        "100"@ =~= seq!['1', '0', '0'],
        "101"@ =~= seq!['1', '0', '1'],
        "110"@ =~= seq!['1', '1', '0'],
        "111"@ =~= seq!['1', '1', '1'],
{
    reveal_strlit("000");
    reveal_strlit("001");
    reveal_strlit("010");
    reveal_strlit("011");
    reveal_strlit("100");
    reveal_strlit("101");
    reveal_strlit("110");
    reveal_strlit("111");
}

/// The bit of each writable location is set exactly when its letter occurs in
/// the mnemonic, and only `null` encodes to all-zero bits.
pub proof fn lemma_dest_bits(m: Seq<char>)
    requires
        dest_code(m) is Some,
    ensures
        dest_code(m) matches Some(c) ==> c.len() == 3 && ((c[0] == '1') <==> m.contains('A')) && ((
        c[1] == '1') <==> m.contains('D')) && ((c[2] == '1') <==> m.contains('M')) && ((c
            =~= "000"@) <==> m == "null"@),
{
    lemma_three_bit_codes();
    reveal_strlit("null");
    reveal_strlit("M");
    reveal_strlit("D");
    reveal_strlit("MD");
    reveal_strlit("A");
    reveal_strlit("AM");
    reveal_strlit("AD");
    reveal_strlit("AMD");
    assert("null"@ =~= seq!['n', 'u', 'l', 'l']);
    assert("M"@ =~= seq!['M']);
    assert("D"@ =~= seq!['D']);
    assert("MD"@ =~= seq!['M', 'D']);
    assert("A"@ =~= seq!['A']);
    assert("AM"@ =~= seq!['A', 'M']);
    assert("AD"@ =~= seq!['A', 'D']);
    assert("AMD"@ =~= seq!['A', 'M', 'D']);
    assert("M"@[0] == 'M');
    assert("D"@[0] == 'D');
    assert("MD"@[0] == 'M' && "MD"@[1] == 'D');
    assert("A"@[0] == 'A');
    assert("AM"@[0] == 'A' && "AM"@[1] == 'M');
    assert("AD"@[0] == 'A' && "AD"@[1] == 'D');
    assert("AMD"@[0] == 'A' && "AMD"@[1] == 'M' && "AMD"@[2] == 'D');
}

/// No two computation mnemonics share an encoding.
#[verifier::rlimit(60)]
pub proof fn lemma_comp_injective(m1: Seq<char>, m2: Seq<char>)
    requires
        comp_code(m1) is Some,
        comp_code(m1) == comp_code(m2),
    ensures
        m1 == m2,
{
    lemma_seven_bit_codes();
}

/// No two jump mnemonics share an encoding.
pub proof fn lemma_jump_injective(m1: Seq<char>, m2: Seq<char>)
    requires
        jump_code(m1) is Some,
        jump_code(m1) == jump_code(m2),
    ensures
        m1 == m2,
{
    lemma_three_bit_codes();
}

} // verus!

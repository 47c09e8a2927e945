use crate::inst::{mnemonic_of, operand_of, Inst};
use crate::program::Program;
use crate::word::Word;
use vstd::prelude::*;
use vstd::string::StringExecFns;

verus! {

pub open spec fn digit_char(d: nat) -> char {
    if d == 0 {
        '0'
    } else if d == 1 {
        '1'
    } else if d == 2 {
        '2'
    } else if d == 3 {
        '3'
    } else if d == 4 {
        '4'
    } else if d == 5 {
        '5'
    } else if d == 6 {
        '6'
    } else if d == 7 {
        '7'
    } else if d == 8 {
        '8'
    } else if d == 9 {
        '9'
    } else if d == 10 {
        'a'
    } else if d == 11 {
        'b'
    } else if d == 12 {
        'c'
    } else if d == 13 {
        'd'
    } else if d == 14 {
        'e'
    } else {
        'f'
    }
}

/// The digits of `n` in base `b`, most significant first, without leading
/// zeros.
pub open spec fn digits_in_base(n: nat, b: nat) -> Seq<char>
    recommends
        2 <= b <= 16,
    decreases n
    via digits_in_base_decreases
{
    if n < b || b < 2 {
        seq![digit_char(n)]
    } else {
        digits_in_base(n / b, b).push(digit_char(n % b))
    }
}

#[via_fn]
proof fn digits_in_base_decreases(n: nat, b: nat) {
    if !(n < b || b < 2) {
        assert(n / b < n) by (nonlinear_arith)
            requires
                n >= b,
                b >= 2,
        ;
    }
}

pub open spec fn decimal(n: nat) -> Seq<char> {
    digits_in_base(n, 10)
}

pub open spec fn signed_decimal(n: int) -> Seq<char> {
    if n < 0 {
        seq!['-'] + decimal((-n) as nat)
    } else {
        decimal(n as nat)
    }
}

/// How an operand is written in assembly; a float's text comes from the
/// caller.
pub open spec fn operand_text(w: Word, float_text: Seq<char>) -> Seq<char> {
    match w {
        Word::Int(n) => signed_decimal(n as int),
        Word::UInt(n) => decimal(n as nat),
        Word::Float(_) => float_text,
        Word::Ptr(a) => seq!['0', 'x'] + digits_in_base(a as nat, 16),
    }
}

/// The assembly line of an instruction.
pub open spec fn hasm_line(inst: Inst, float_text: Seq<char>) -> Seq<char> {
    match operand_of(inst) {
        None => mnemonic_of(inst),
        Some(w) => mnemonic_of(inst) + seq![' '] + operand_text(w, float_text),
    }
}

fn digit_str(d: u64) -> (r: &'static str)
    requires
        d < 16,
    ensures
        r@ == seq![digit_char(d as nat)],
{
    proof {
        reveal_strlit("0");
        reveal_strlit("1");
        reveal_strlit("2");
        reveal_strlit("3");
        reveal_strlit("4");
        reveal_strlit("5");
        reveal_strlit("6");
        reveal_strlit("7");
        reveal_strlit("8");
        reveal_strlit("9");
        reveal_strlit("a");
        reveal_strlit("b");
        reveal_strlit("c");
        reveal_strlit("d");
        reveal_strlit("e");
        reveal_strlit("f");
    }
    if d == 0 {
        "0"
    } else if d == 1 {
        "1"
    } else if d == 2 {
        "2"
    } else if d == 3 {
        "3"
    } else if d == 4 {
        "4"
    } else if d == 5 {
        "5"
    } else if d == 6 {
        "6"
    } else if d == 7 {
        "7"
    } else if d == 8 {
        "8"
    } else if d == 9 {
        "9"
    } else if d == 10 {
        "a"
    } else if d == 11 {
        "b"
    } else if d == 12 {
        "c"
    } else if d == 13 {
        "d"
    } else if d == 14 {
        "e"
    } else {
        "f"
    }
}

/// Appends the digits of `n` in base `base`.
fn append_digits(s: &mut String, n: u64, base: u64)
    requires
        2 <= base <= 16,
    ensures
        final(s)@ == old(s)@ + digits_in_base(n as nat, base as nat),
    decreases n,
{
    if n >= base {
        assert(n / base < n) by (nonlinear_arith)
            requires
                n >= base,
                base >= 2,
        ;
        append_digits(s, n / base, base);
    } else {
        assert(n % base == n) by (nonlinear_arith)
            requires
                n < base,
        ;
    }
    let ghost mid = s@;
    s.append(digit_str(n % base));
    assert(s@ == mid + seq![digit_char((n % base) as nat)]);
    assert(s@ =~= old(s)@ + digits_in_base(n as nat, base as nat));
}

/// Appends how `w` is written in assembly; not for floats.
fn append_operand(s: &mut String, w: Word)
    requires
        !(w is Float),
    ensures
        final(s)@ == old(s)@ + operand_text(w, Seq::empty()),
{
    proof {
        reveal_strlit("-");
        reveal_strlit("0x");
    }
    match w {
        Word::Int(n) => {
            if n < 0 {
                s.append("-");
                let m: u64 = if n == i64::MIN {
                    0x8000_0000_0000_0000u64
                } else {
                    (-n) as u64
                };
                append_digits(s, m, 10);
                assert(s@ =~= old(s)@ + operand_text(w, Seq::empty()));
            } else {
                append_digits(s, n as u64, 10);
            }
        },
        Word::UInt(n) => append_digits(s, n, 10),
        Word::Ptr(a) => {
            s.append("0x");
            append_digits(s, a, 16);
            assert(s@ =~= old(s)@ + operand_text(w, Seq::empty()));
        },
        Word::Float(_) => {},
    }
}

impl Word {
    /// How the word is written in assembly; `None` for a float, whose
    /// decimal form is the caller's to produce.
    pub fn to_text(&self) -> (r: Option<String>)
        ensures
            r is None <==> *self is Float,
            r matches Some(t) ==> t@ == operand_text(*self, Seq::empty()),
    {
        if let Word::Float(_) = *self {
            return None;
        }
        let mut s = String::new();
        append_operand(&mut s, *self);
        Some(s)
    }
}

/// A mnemonic followed by a space and an operand's text.
pub fn hasm_with_operand(hasm: String, operand: &str) -> (r: String)
    ensures
        r@ == hasm@ + seq![' '] + operand@,
{
    proof {
        reveal_strlit(" ");
    }
    let mut s = hasm;
    s.append(" ");
    s.append(operand);
    s
}

impl Program {
    /// One assembly line per instruction. `float_texts[i]` is the text of the
    /// operand of instruction `i` where that is a float; the other entries
    /// are not read.
    pub fn to_hasm(&self, float_texts: &Vec<String>) -> (r: Vec<String>)
        requires
            float_texts@.len() == self.insts@.len(),
        ensures
            r@.len() == self.insts@.len(),
            forall|i: int|
                0 <= i < r@.len() ==> (#[trigger] r@[i])@ == hasm_line(
                    self.insts@[i],
                    float_texts@[i]@,
                ),
    {
        let mut lines: Vec<String> = Vec::new();
        let mut i: usize = 0;
        while i < self.insts.len()
            invariant
                float_texts@.len() == self.insts@.len(),
                i <= self.insts@.len(),
                lines@.len() == i,
                forall|j: int|
                    0 <= j < i ==> (#[trigger] lines@[j])@ == hasm_line(
                        self.insts@[j],
                        float_texts@[j]@,
                    ),
            decreases self.insts@.len() - i,
        {
            let inst = self.insts[i];
            let mut line = String::from_str(inst.mnemonic());
            match inst.operand() {
                None => {},
                Some(Word::Float(_)) => {
                    line = hasm_with_operand(line, float_texts[i].as_str());
                },
                Some(w) => {
                    proof {
                        reveal_strlit(" ");
                    }
                    line.append(" ");
                    append_operand(&mut line, w);
                    assert(line@ =~= hasm_line(inst, float_texts@[i as int]@));
                },
            }
            lines.push(line);
            i = i + 1;
        }
        lines
    }
}

} // verus!

use crate::errors::VMError;
use crate::text::matches_str;
use crate::word::{lemma_word_bytes_round_trip, tag_of, word_from_le_bytes, word_le_bytes, Word};
use vstd::prelude::*;

verus! {

/// One machine instruction; the operand-bearing ones carry a `Word`.
#[derive(Debug, Clone, Copy, PartialEq, Eq, Structural)]
pub enum Inst {
    InstPush(Word),
    InstAddi,
    InstSubi,
    InstMuli,
    InstDivi,
    InstAddf,
    InstSubf,
    InstMulf,
    InstDivf,
    InstHalt,
    InstJmp(Word),
    InstEq(Word),
    InstDup(Word),
    InstNop,
}

/// Size in bytes of one encoded instruction.
pub const RECORD_SIZE: usize = 16;

/// A push of a pointer has no opcode: a pointer cannot be stored in a
/// program image.
pub open spec fn encodable(inst: Inst) -> bool {
    !(inst matches Inst::InstPush(Word::Ptr(_)))
}

pub open spec fn opcode_of(inst: Inst) -> u8 {
    match inst {
        Inst::InstPush(w) => match w {
            Word::Int(_) => 0xF1u8,
            Word::UInt(_) => 0xF2u8,
            _ => 0xF3u8,
        },
        Inst::InstAddi => 0x02u8,
        Inst::InstSubi => 0x03u8,
        Inst::InstMuli => 0x04u8,
        Inst::InstDivi => 0x05u8,
        Inst::InstAddf => 0x06u8,
        Inst::InstSubf => 0x07u8,
        Inst::InstMulf => 0x08u8,
        Inst::InstDivf => 0x09u8,
        Inst::InstHalt => 0x0Au8,
        Inst::InstJmp(_) => 0x0Bu8,
        Inst::InstEq(_) => 0x0Cu8,
        Inst::InstDup(_) => 0x0Du8,
        Inst::InstNop => 0x0Eu8,
    }
}

/// The instruction an opcode stands for, with a zero operand of the tag
/// that the opcode implies.
pub open spec fn inst_of_opcode(op: u8) -> Option<Inst> {
    if op == 0xF1 {
        Some(Inst::InstPush(Word::Int(0)))
    } else if op == 0xF2 {
        Some(Inst::InstPush(Word::UInt(0)))
    } else if op == 0xF3 {
        Some(Inst::InstPush(Word::Float(0)))
    } else if op == 0x02 {
        Some(Inst::InstAddi)
    } else if op == 0x03 {
        Some(Inst::InstSubi)
    } else if op == 0x04 {
        Some(Inst::InstMuli)
    } else if op == 0x05 {
        Some(Inst::InstDivi)
    } else if op == 0x06 {
        Some(Inst::InstAddf)
    } else if op == 0x07 {
        Some(Inst::InstSubf)
    } else if op == 0x08 {
        Some(Inst::InstMulf)
    } else if op == 0x09 {
        Some(Inst::InstDivf)
    } else if op == 0x0A {
        Some(Inst::InstHalt)
    } else if op == 0x0B {
        Some(Inst::InstJmp(Word::UInt(0)))
    } else if op == 0x0C {
        Some(Inst::InstEq(Word::UInt(0)))
    } else if op == 0x0D {
        Some(Inst::InstDup(Word::UInt(0)))
    } else if op == 0x0E {
        Some(Inst::InstNop)
    } else {
        None
    }
}

pub open spec fn operand_of(inst: Inst) -> Option<Word> {
    match inst {
        Inst::InstPush(w) => Some(w),
        Inst::InstJmp(w) => Some(w),
        Inst::InstEq(w) => Some(w),
        Inst::InstDup(w) => Some(w),
        _ => None,
    }
}

/// The same kind of instruction with its operand replaced.
pub open spec fn with_operand(inst: Inst, w: Word) -> Inst {
    match inst {
        Inst::InstPush(_) => Inst::InstPush(w),
        Inst::InstJmp(_) => Inst::InstJmp(w),
        Inst::InstEq(_) => Inst::InstEq(w),
        Inst::InstDup(_) => Inst::InstDup(w),
        _ => inst,
    }
}

/// The 16-byte record of an instruction: the opcode zero-extended to eight
/// little-endian bytes, then the operand's payload or eight zero bytes.
pub open spec fn inst_record(inst: Inst) -> Seq<u8> {
    seq![opcode_of(inst), 0u8, 0u8, 0u8, 0u8, 0u8, 0u8, 0u8] + match operand_of(inst) {
        Some(w) => word_le_bytes(w),
        None => seq![0u8, 0u8, 0u8, 0u8, 0u8, 0u8, 0u8, 0u8],
    }
}

/// Decoding of one record: the opcode comes from byte 0 alone, the operand
/// from bytes 8 to 15 under the tag that the opcode implies.
pub open spec fn decode_record(bytes: Seq<u8>) -> Result<Inst, VMError> {
    match inst_of_opcode(bytes[0]) {
        None => Err(VMError::DeserializeOpcodeFail),
        Some(i) => match operand_of(i) {
            None => Ok(i),
            Some(w) => Ok(with_operand(i, word_from_le_bytes(tag_of(w), bytes.subrange(8, 16)))),
        },
    }
}

/// An operand that decoding gives back as it was: a push of an integer or
/// a float, and the unsigned operands of jumps, comparisons and copies.
pub open spec fn canonical_inst(inst: Inst) -> bool {
    match inst {
        Inst::InstPush(w) => !(w matches Word::Ptr(_)),
        Inst::InstJmp(w) => w matches Word::UInt(_),
        Inst::InstEq(w) => w matches Word::UInt(_),
        Inst::InstDup(w) => w matches Word::UInt(_),
        _ => true,
    }
}

/// Decoding the record of an instruction gives the instruction back.
pub proof fn lemma_record_round_trip(inst: Inst)
    requires
        canonical_inst(inst),
    ensures
        inst_record(inst).len() == RECORD_SIZE,
        decode_record(inst_record(inst)) == Ok::<Inst, VMError>(inst),
{
    let r = inst_record(inst);
    match operand_of(inst) {
        Some(w) => {
            lemma_word_bytes_round_trip(w);
            assert(r.subrange(8, 16) =~= word_le_bytes(w));
        },
        None => {},
    }
}

/// The assembly mnemonic of each kind of instruction.
pub open spec fn mnemonic_of(inst: Inst) -> Seq<char> {
    match inst {
        Inst::InstPush(_) => "push"@,
        Inst::InstAddi => "addi"@,
        Inst::InstSubi => "subi"@,
        Inst::InstMuli => "muli"@,
        Inst::InstDivi => "divi"@,
        Inst::InstAddf => "addf"@,
        Inst::InstSubf => "subf"@,
        Inst::InstMulf => "mulf"@,
        Inst::InstDivf => "divf"@,
        Inst::InstHalt => "halt"@,
        Inst::InstJmp(_) => "jmp"@,
        Inst::InstEq(_) => "eq"@,
        Inst::InstDup(_) => "dup"@,
        Inst::InstNop => "nop"@,
    }
}

/// The kind of instruction a mnemonic names, with a zero operand where the
/// kind takes one.
pub open spec fn inst_of_mnemonic(s: Seq<char>) -> Option<Inst> {
    if s == "push"@ {
        Some(Inst::InstPush(Word::UInt(0)))
    } else if s == "addi"@ {
        Some(Inst::InstAddi)
    } else if s == "subi"@ {
        Some(Inst::InstSubi)
    } else if s == "muli"@ {
        Some(Inst::InstMuli)
    } else if s == "divi"@ {
        Some(Inst::InstDivi)
    } else if s == "addf"@ {
        Some(Inst::InstAddf)
    } else if s == "subf"@ {
        Some(Inst::InstSubf)
    } else if s == "mulf"@ {
        Some(Inst::InstMulf)
    } else if s == "divf"@ {
        Some(Inst::InstDivf)
    } else if s == "halt"@ {
        Some(Inst::InstHalt)
    } else if s == "jmp"@ {
        Some(Inst::InstJmp(Word::UInt(0)))
    } else if s == "eq"@ {
        Some(Inst::InstEq(Word::UInt(0)))
    } else if s == "dup"@ {
        Some(Inst::InstDup(Word::UInt(0)))
    } else if s == "nop"@ {
        Some(Inst::InstNop)
    } else {
        None
    }
}

impl Inst {
    pub fn mnemonic(&self) -> (r: &'static str)
        ensures
            r@ == mnemonic_of(*self),
    {
        match *self {
            Inst::InstPush(_) => "push",
            Inst::InstAddi => "addi",
            Inst::InstSubi => "subi",
            Inst::InstMuli => "muli",
            Inst::InstDivi => "divi",
            Inst::InstAddf => "addf",
            Inst::InstSubf => "subf",
            Inst::InstMulf => "mulf",
            Inst::InstDivf => "divf",
            Inst::InstHalt => "halt",
            Inst::InstJmp(_) => "jmp",
            Inst::InstEq(_) => "eq",
            Inst::InstDup(_) => "dup",
            Inst::InstNop => "nop",
        }
    }

    /// The kind of instruction that the mnemonic `text[start..end]` names.
    pub fn from_mnemonic(text: &Vec<char>, start: usize, end: usize) -> (r: Option<Inst>)
        requires
            start <= end <= text@.len(),
        ensures
            r == inst_of_mnemonic(text@.subrange(start as int, end as int)),
    {
        if matches_str(text, start, end, "push") {
            Some(Inst::InstPush(Word::UInt(0)))
        } else if matches_str(text, start, end, "addi") {
            Some(Inst::InstAddi)
        } else if matches_str(text, start, end, "subi") {
            Some(Inst::InstSubi)
        } else if matches_str(text, start, end, "muli") {
            Some(Inst::InstMuli)
        } else if matches_str(text, start, end, "divi") {
            Some(Inst::InstDivi)
        } else if matches_str(text, start, end, "addf") {
            Some(Inst::InstAddf)
        } else if matches_str(text, start, end, "subf") {
            Some(Inst::InstSubf)
        } else if matches_str(text, start, end, "mulf") {
            Some(Inst::InstMulf)
        } else if matches_str(text, start, end, "divf") {
            Some(Inst::InstDivf)
        } else if matches_str(text, start, end, "halt") {
            Some(Inst::InstHalt)
        } else if matches_str(text, start, end, "jmp") {
            Some(Inst::InstJmp(Word::UInt(0)))
        } else if matches_str(text, start, end, "eq") {
            Some(Inst::InstEq(Word::UInt(0)))
        } else if matches_str(text, start, end, "dup") {
            Some(Inst::InstDup(Word::UInt(0)))
        } else if matches_str(text, start, end, "nop") {
            Some(Inst::InstNop)
        } else {
            None
        }
    }

    pub fn ser_opcode(&self) -> (r: u8)
        requires
            encodable(*self),
        ensures
            r == opcode_of(*self),
    {
        match *self {
            Inst::InstPush(w) => match w {
                Word::Int(_) => 0xF1,
                Word::UInt(_) => 0xF2,
                _ => 0xF3,
            },
            Inst::InstAddi => 0x02,
            Inst::InstSubi => 0x03,
            Inst::InstMuli => 0x04,
            Inst::InstDivi => 0x05,
            Inst::InstAddf => 0x06,
            Inst::InstSubf => 0x07,
            Inst::InstMulf => 0x08,
            Inst::InstDivf => 0x09,
            Inst::InstHalt => 0x0A,
            Inst::InstJmp(_) => 0x0B,
            Inst::InstEq(_) => 0x0C,
            Inst::InstDup(_) => 0x0D,
            Inst::InstNop => 0x0E,
        }
    }

    pub fn deser_opcode(opcode: u8) -> (r: Option<Inst>)
        ensures
            r == inst_of_opcode(opcode),
    {
        match opcode {
            0xF1 => Some(Inst::InstPush(Word::Int(0))),
            0xF2 => Some(Inst::InstPush(Word::UInt(0))),
            0xF3 => Some(Inst::InstPush(Word::Float(0))),
            0x02 => Some(Inst::InstAddi),
            0x03 => Some(Inst::InstSubi),
            0x04 => Some(Inst::InstMuli),
            0x05 => Some(Inst::InstDivi),
            0x06 => Some(Inst::InstAddf),
            0x07 => Some(Inst::InstSubf),
            0x08 => Some(Inst::InstMulf),
            0x09 => Some(Inst::InstDivf),
            0x0A => Some(Inst::InstHalt),
            0x0B => Some(Inst::InstJmp(Word::UInt(0))),
            0x0C => Some(Inst::InstEq(Word::UInt(0))),
            0x0D => Some(Inst::InstDup(Word::UInt(0))),
            0x0E => Some(Inst::InstNop),
            _ => None,
        }
    }

    /// The operand, for the kinds that carry one.
    pub fn operand(&self) -> (r: Option<Word>)
        ensures
            r == operand_of(*self),
    {
        match *self {
            Inst::InstPush(w) => Some(w),
            Inst::InstJmp(w) => Some(w),
            Inst::InstEq(w) => Some(w),
            Inst::InstDup(w) => Some(w),
            _ => None,
        }
    }

    /// Appends this instruction's 16-byte record to `out`.
    pub fn serialize(&self, out: &mut Vec<u8>)
        requires
            encodable(*self),
        ensures
            final(out)@ == old(out)@ + inst_record(*self),
    {
        let op = self.ser_opcode();
        let start = out.len();
        out.push(op);
        let mut i: usize = 1;
        while i < 8
            invariant
                1 <= i <= 8,
                start == old(out)@.len(),
                out@ == old(out)@ + seq![op] + Seq::new((i - 1) as nat, |k: int| 0u8),
            decreases 8 - i,
        {
            out.push(0u8);
            i = i + 1;
            assert(out@ =~= old(out)@ + seq![op] + Seq::new((i - 1) as nat, |k: int| 0u8));
        }
        let operand_bytes = match self.operand() {
            Some(w) => w.to_le_bytes(),
            None => vec![0u8, 0u8, 0u8, 0u8, 0u8, 0u8, 0u8, 0u8],
        };
        let mut j: usize = 0;
        while j < 8
            invariant
                0 <= j <= 8,
                operand_bytes@.len() == 8,
                out@ == old(out)@ + seq![op] + Seq::new(7, |k: int| 0u8) + operand_bytes@.subrange(
                    0,
                    j as int,
                ),
            decreases 8 - j,
        {
            out.push(operand_bytes[j]);
            j = j + 1;
            assert(out@ =~= old(out)@ + seq![op] + Seq::new(7, |k: int| 0u8)
                + operand_bytes@.subrange(0, j as int));
        }
        assert(operand_bytes@.subrange(0, 8) =~= operand_bytes@);
        assert(out@ =~= old(out)@ + inst_record(*self));
    }

    /// The 16-byte record of this instruction.
    pub fn to_bytes(&self) -> (r: Vec<u8>)
        requires
            encodable(*self),
        ensures
            r@ == inst_record(*self),
    {
        let mut out: Vec<u8> = Vec::new();
        self.serialize(&mut out);
        assert(out@ =~= inst_record(*self));
        out
    }

    /// Decodes one record.
    pub fn from_bytes(bytes: &[u8]) -> (r: Result<Inst, VMError>)
        requires
            bytes@.len() == RECORD_SIZE,
        ensures
            r == decode_record(bytes@),
    {
        let inst = match Inst::deser_opcode(bytes[0]) {
            Some(i) => i,
            None => return Err(VMError::DeserializeOpcodeFail),
        };
        let mut operand_bytes: Vec<u8> = Vec::new();
        let mut k: usize = 8;
        while k < 16
            invariant
                8 <= k <= 16,
                bytes@.len() == 16,
                operand_bytes@ == bytes@.subrange(8, k as int),
            decreases 16 - k,
        {
            operand_bytes.push(bytes[k]);
            k = k + 1;
            assert(operand_bytes@ =~= bytes@.subrange(8, k as int));
        }
        let decoded = match inst {
            Inst::InstPush(w) => Inst::InstPush(Word::from_le_bytes(w.tag(), operand_bytes.as_slice())),
            Inst::InstJmp(w) => Inst::InstJmp(Word::from_le_bytes(w.tag(), operand_bytes.as_slice())),
            Inst::InstEq(w) => Inst::InstEq(Word::from_le_bytes(w.tag(), operand_bytes.as_slice())),
            Inst::InstDup(w) => Inst::InstDup(Word::from_le_bytes(w.tag(), operand_bytes.as_slice())),
            other => other,
        };
        Ok(decoded)
    }
}

} // verus!

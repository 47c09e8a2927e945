use crate::errors::VMError;
use crate::inst::{
    canonical_inst, decode_record, encodable, inst_record, lemma_record_round_trip, Inst,
    RECORD_SIZE,
};
use vstd::prelude::*;

verus! {

/// An ordered sequence of instructions: the unit of execution, encoding
/// and decoding.
#[derive(Debug, Clone, PartialEq, Default)]
pub struct Program {
    pub insts: Vec<Inst>,
}

pub open spec fn encodable_program(insts: Seq<Inst>) -> bool {
    forall|i: int| 0 <= i < insts.len() ==> encodable(#[trigger] insts[i])
}

pub open spec fn canonical_program(insts: Seq<Inst>) -> bool {
    forall|i: int| 0 <= i < insts.len() ==> canonical_inst(#[trigger] insts[i])
}

/// The binary image of a program: the records of its instructions, in order.
pub open spec fn encode_program(insts: Seq<Inst>) -> Seq<u8>
    decreases insts.len(),
{
    if insts.len() == 0 {
        Seq::empty()
    } else {
        encode_program(insts.drop_last()) + inst_record(insts.last())
    }
}

/// Decoding of the first `n` records of `bytes`; the first record that
/// fails decides the error.
pub open spec fn decode_records(bytes: Seq<u8>, n: nat) -> Result<Seq<Inst>, VMError>
    decreases n,
{
    if n == 0 {
        Ok(Seq::empty())
    } else {
        match decode_records(bytes, (n - 1) as nat) {
            Err(e) => Err(e),
            Ok(prefix) => match decode_record(
                bytes.subrange((n - 1) * RECORD_SIZE, n * RECORD_SIZE),
            ) {
                Err(e) => Err(e),
                Ok(inst) => Ok(prefix.push(inst)),
            },
        }
    }
}

pub open spec fn decode_program(bytes: Seq<u8>) -> Result<Seq<Inst>, VMError> {
    decode_records(bytes, bytes.len() / RECORD_SIZE as nat)
}

proof fn lemma_encode_len(insts: Seq<Inst>)
    ensures
        encode_program(insts).len() == insts.len() * RECORD_SIZE,
    decreases insts.len(),
{
    if insts.len() > 0 {
        lemma_encode_len(insts.drop_last());
        lemma_record_round_trip_len(insts.last());
    }
}

proof fn lemma_record_round_trip_len(inst: Inst)
    ensures
        inst_record(inst).len() == RECORD_SIZE,
{
    vstd::bytes::lemma_auto_spec_u64_to_from_le_bytes();
}

/// Decoding the first `n` records looks at the first `n` records only.
proof fn lemma_decode_prefix(a: Seq<u8>, b: Seq<u8>, n: nat)
    requires
        n * RECORD_SIZE <= a.len(),
    ensures
        decode_records(a + b, n) == decode_records(a, n),
    decreases n,
{
    if n > 0 {
        lemma_decode_prefix(a, b, (n - 1) as nat);
        assert((a + b).subrange((n - 1) * RECORD_SIZE, n * RECORD_SIZE) =~= a.subrange(
            (n - 1) * RECORD_SIZE,
            n * RECORD_SIZE,
        ));
    }
}

/// Decoding the binary image of a program gives the program back, for every
/// program whose operands carry the tags that their opcodes imply.
pub proof fn lemma_binary_round_trip(insts: Seq<Inst>)
    requires
        canonical_program(insts),
    ensures
        decode_program(encode_program(insts)) == Ok::<Seq<Inst>, VMError>(insts),
    decreases insts.len(),
{
    lemma_encode_len(insts);
    if insts.len() > 0 {
        let init = insts.drop_last();
        let last = insts.last();
        assert(canonical_program(init)) by {
            assert forall|i: int| 0 <= i < init.len() implies canonical_inst(#[trigger] init[i]) by {
                assert(init[i] == insts[i]);
            }
        }
        assert(canonical_inst(insts[insts.len() - 1]));
        lemma_binary_round_trip(init);
        lemma_encode_len(init);
        lemma_record_round_trip(last);
        let n = insts.len();
        let e = encode_program(insts);
        assert(e.len() / RECORD_SIZE as nat == n) by (nonlinear_arith)
            requires e.len() == n * RECORD_SIZE;
        let m = (n - 1) as nat;
        assert((m * 16) / 16 == m) by (nonlinear_arith);
        lemma_decode_prefix(encode_program(init), inst_record(last), (n - 1) as nat);
        assert(e.subrange((n - 1) * RECORD_SIZE, n * RECORD_SIZE) =~= inst_record(last));
        assert(init.push(last) =~= insts);
        assert(decode_records(encode_program(init), m) == Ok::<Seq<Inst>, VMError>(init));
        assert(decode_records(e, m) == Ok::<Seq<Inst>, VMError>(init));
        assert(decode_record(e.subrange(m * RECORD_SIZE, n * RECORD_SIZE)) == Ok::<Inst, VMError>(last));
        assert(decode_records(e, n) == Ok::<Seq<Inst>, VMError>(insts));
    } else {
        assert(insts =~= Seq::<Inst>::empty());
    }
}

impl Program {
    /// The binary image: each instruction's record, in order.
    pub fn to_bytes(&self) -> (r: Vec<u8>)
        requires
            encodable_program(self.insts@),
        ensures
            r@ == encode_program(self.insts@),
    {
        let mut bytes: Vec<u8> = Vec::new();
        let mut i: usize = 0;
        while i < self.insts.len()
            invariant
                i <= self.insts@.len(),
                encodable_program(self.insts@),
                bytes@ == encode_program(self.insts@.subrange(0, i as int)),
            decreases self.insts@.len() - i,
        {
            assert(encodable(self.insts@[i as int]));
            self.insts[i].serialize(&mut bytes);
            assert(self.insts@.subrange(0, i + 1 as int).drop_last() =~= self.insts@.subrange(0, i as int));
            i = i + 1;
        }
        assert(self.insts@.subrange(0, i as int) =~= self.insts@);
        bytes
    }

    /// Decodes a binary image whose length is a whole number of records.
    pub fn from_bytes(bytes: &Vec<u8>) -> (r: Result<Program, VMError>)
        requires
            bytes@.len() % RECORD_SIZE as nat == 0,
        ensures
            r matches Ok(p) ==> decode_program(bytes@) == Ok::<Seq<Inst>, VMError>(p.insts@),
            r matches Err(e) ==> decode_program(bytes@) == Err::<Seq<Inst>, VMError>(e),
    {
        let total: usize = bytes.len();
        let n: usize = total / RECORD_SIZE;
        let mut insts: Vec<Inst> = Vec::new();
        let mut i: usize = 0;
        while i < n
            invariant
                n == bytes@.len() / RECORD_SIZE as nat,
                total == bytes@.len(),
                i <= n,
                decode_records(bytes@, i as nat) == Ok::<Seq<Inst>, VMError>(insts@),
            decreases n - i,
        {
            assert((i + 1) * RECORD_SIZE <= bytes@.len()) by (nonlinear_arith)
                requires i < n, n == bytes@.len() / 16;
            let start: usize = i * RECORD_SIZE;
            let mut record: Vec<u8> = Vec::new();
            let mut k: usize = 0;
            while k < RECORD_SIZE
                invariant
                    start == i * RECORD_SIZE,
                    start + RECORD_SIZE <= bytes@.len(),
                    k <= RECORD_SIZE,
                    record@ == bytes@.subrange(start as int, start + k),
                decreases RECORD_SIZE - k,
            {
                record.push(bytes[start + k]);
                k = k + 1;
                assert(record@ =~= bytes@.subrange(start as int, start + k));
            }
            match Inst::from_bytes(record.as_slice()) {
                Ok(inst) => {
                    insts.push(inst);
                },
                Err(e) => {
                    proof {
                        assert(decode_records(bytes@, (i + 1) as nat) == Err::<Seq<Inst>, VMError>(
                            e,
                        ));
                        lemma_decode_err_sticks(bytes@, (i + 1) as nat, n as nat);
                    }
                    return Err(e);
                },
            }
            i = i + 1;
        }
        Ok(Program { insts })
    }
}

/// Once a record fails, decoding more records fails with the same error.
proof fn lemma_decode_err_sticks(bytes: Seq<u8>, m: nat, n: nat)
    requires
        m <= n,
        decode_records(bytes, m) is Err,
    ensures
        decode_records(bytes, n) == decode_records(bytes, m),
    decreases n - m,
{
    if m < n {
        lemma_decode_err_sticks(bytes, m, (n - 1) as nat);
    }
}

} // verus!

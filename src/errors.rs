use crate::inst::Inst;
use vstd::prelude::*;

verus! {

/// Every way an assembly, a decoding or a run can fail.
#[derive(Debug, Clone, PartialEq, Eq)]
#[allow(inconsistent_fields)]
pub enum VMError {
    StackOverflow { inst: Inst },
    StackUnderflow { inst: Inst },
    OperandNonExists { inst: Inst },
    DivisionByZero,
    SegmentFault,
    InvalidOperand,
    DeserializeOpcodeFail,
    ParseLeBytesFail,
    InvalidAsmInst { inst: String },
    IoFail { err: String },
    ResolveLabelFail,
}

} // verus!

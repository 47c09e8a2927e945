use crate::errors::VMError;
use crate::inst::{inst_of_mnemonic, operand_of, Inst};
use crate::program::Program;
use crate::text::{
    collect_chars, contains_char, is_digit, lex_line, line_tokens, parse_i64_at, parse_i64_spec,
    parse_u64_at, parse_u64_spec, ranges_text, ranges_within, split_fold, text_lines,
};
use crate::word::Word;
use vstd::prelude::*;

verus! {

/// Why an assembly fails, in terms of the text.
pub ghost enum AsmFault {
    UnknownMnemonic(Seq<char>),
    MissingOperand(Inst),
    BadOperand,
    UnresolvedLabel,
}

/// The error value that reports a fault.
pub open spec fn reports(e: VMError, f: AsmFault) -> bool {
    match f {
        AsmFault::UnknownMnemonic(s) => e matches VMError::InvalidAsmInst { inst } && inst@ == s,
        AsmFault::MissingOperand(i) => e == VMError::OperandNonExists { inst: i },
        AsmFault::BadOperand => e == VMError::InvalidOperand,
        AsmFault::UnresolvedLabel => e == VMError::ResolveLabelFail,
    }
}

/// What the first pass has gathered: the instructions so far, the label
/// definitions in order (a later one of the same name wins), the jumps to
/// labels left for the second pass, and the float literals, each with the
/// index of its instruction.
pub ghost struct AsmState {
    pub insts: Seq<Inst>,
    pub labels: Seq<(Seq<char>, nat)>,
    pub deferred: Seq<(nat, Seq<char>)>,
    pub floats: Seq<(nat, Seq<char>)>,
    pub fault: Option<AsmFault>,
}

pub open spec fn emit(st: AsmState, inst: Inst) -> AsmState {
    AsmState { insts: st.insts.push(inst), ..st }
}

pub open spec fn failed(st: AsmState, f: AsmFault) -> AsmState {
    AsmState { fault: Some(f), ..st }
}

/// Translates one instruction written as `toks` (mnemonic first).
pub open spec fn asm_inst(st: AsmState, toks: Seq<Seq<char>>) -> AsmState {
    match inst_of_mnemonic(toks[0]) {
        None => failed(st, AsmFault::UnknownMnemonic(toks[0])),
        Some(k) => if operand_of(k) is None {
            emit(st, k)
        } else if toks.len() < 2 {
            failed(st, AsmFault::MissingOperand(k))
        } else {
            let o = toks[1];
            let here = st.insts.len();
            match k {
                Inst::InstPush(_) => if o.contains('.') {
                    emit(
                        AsmState { floats: st.floats.push((here, o)), ..st },
                        Inst::InstPush(Word::Float(0)),
                    )
                } else {
                    match parse_i64_spec(o) {
                        Some(n) => emit(st, Inst::InstPush(Word::Int(n))),
                        None => match parse_u64_spec(o) {
                            Some(n) => emit(st, Inst::InstPush(Word::UInt(n))),
                            None => failed(st, AsmFault::BadOperand),
                        },
                    }
                },
                Inst::InstJmp(_) => if is_digit(o[0]) {
                    match parse_u64_spec(o) {
                        Some(n) => emit(st, Inst::InstJmp(Word::UInt(n))),
                        None => failed(st, AsmFault::BadOperand),
                    }
                } else {
                    emit(
                        AsmState { deferred: st.deferred.push((here, o)), ..st },
                        Inst::InstJmp(Word::UInt(0)),
                    )
                },
                Inst::InstEq(_) => match parse_u64_spec(o) {
                    Some(n) => emit(st, Inst::InstEq(Word::UInt(n))),
                    None => failed(st, AsmFault::BadOperand),
                },
                _ => match parse_u64_spec(o) {
                    Some(n) => emit(st, Inst::InstDup(Word::UInt(n))),
                    None => failed(st, AsmFault::BadOperand),
                },
            }
        },
    }
}

pub open spec fn is_label(tok: Seq<char>) -> bool {
    tok.len() > 0 && tok.last() == ':'
}

/// Takes in one line's tokens: a label definition, an instruction, or both.
pub open spec fn asm_line(st: AsmState, toks: Seq<Seq<char>>) -> AsmState {
    if st.fault is Some || toks.len() == 0 {
        st
    } else if is_label(toks[0]) {
        let defined = AsmState {
            labels: st.labels.push((toks[0].drop_last(), st.insts.len())),
            ..st
        };
        if toks.len() > 1 {
            asm_inst(defined, toks.drop_first())
        } else {
            defined
        }
    } else {
        asm_inst(st, toks)
    }
}

pub open spec fn first_pass(lines: Seq<Seq<char>>) -> AsmState
    decreases lines.len(),
{
    if lines.len() == 0 {
        AsmState {
            insts: Seq::empty(),
            labels: Seq::empty(),
            deferred: Seq::empty(),
            floats: Seq::empty(),
            fault: None,
        }
    } else {
        asm_line(first_pass(lines.drop_last()), line_tokens(lines.last()))
    }
}

/// The index of the last definition of a label.
pub open spec fn label_index(labels: Seq<(Seq<char>, nat)>, name: Seq<char>) -> Option<nat>
    decreases labels.len(),
{
    if labels.len() == 0 {
        None
    } else if labels.last().0 == name {
        Some(labels.last().1)
    } else {
        label_index(labels.drop_last(), name)
    }
}

/// The second pass: each deferred jump gets the index of its label.
pub open spec fn resolve(
    insts: Seq<Inst>,
    deferred: Seq<(nat, Seq<char>)>,
    labels: Seq<(Seq<char>, nat)>,
) -> Result<Seq<Inst>, AsmFault>
    decreases deferred.len(),
{
    if deferred.len() == 0 {
        Ok(insts)
    } else {
        match resolve(insts, deferred.drop_last(), labels) {
            Err(f) => Err(f),
            Ok(p) => match label_index(labels, deferred.last().1) {
                None => Err(AsmFault::UnresolvedLabel),
                Some(t) => Ok(p.update(deferred.last().0 as int, Inst::InstJmp(Word::UInt(t as u64)))),
            },
        }
    }
}

/// Assembly of a whole text: the program and its float literals, or the
/// first fault.
pub open spec fn assemble_spec(text: Seq<char>) -> Result<
    (Seq<Inst>, Seq<(nat, Seq<char>)>),
    AsmFault,
> {
    let st = first_pass(text_lines(text));
    match st.fault {
        Some(f) => Err(f),
        None => match resolve(st.insts, st.deferred, st.labels) {
            Err(f) => Err(f),
            Ok(p) => Ok((p, st.floats)),
        },
    }
}

/// A table of entries; a later entry of the same key shadows an earlier one.
#[derive(Debug, Clone, Default)]
pub struct HMCache<K, V> {
    pub entries: Vec<(K, V)>,
}

/// Assembler state that lives for one assembly: the label table and the
/// jumps whose label was not known when they were read.
#[derive(Debug, Clone, Default)]
pub struct TranslationContext {
    pub label_table: HMCache<Vec<char>, usize>,
    pub deferred_operands: HMCache<usize, Vec<char>>,
}

/// An assembled program and, for each float literal in it, the index of its
/// `push` and the literal's text. Each such `push` holds a float of bits 0
/// until the caller, who reads the literal, puts its value there.
#[derive(Debug, Clone)]
pub struct Assembly {
    pub program: Program,
    pub float_literals: Vec<(usize, String)>,
}

pub open spec fn labels_view(e: Seq<(Vec<char>, usize)>) -> Seq<(Seq<char>, nat)> {
    Seq::new(e.len(), |i: int| (e[i].0@, e[i].1 as nat))
}

pub open spec fn deferred_view(e: Seq<(usize, Vec<char>)>) -> Seq<(nat, Seq<char>)> {
    Seq::new(e.len(), |i: int| (e[i].0 as nat, e[i].1@))
}

pub open spec fn floats_view(e: Seq<(usize, String)>) -> Seq<(nat, Seq<char>)> {
    Seq::new(e.len(), |i: int| (e[i].0 as nat, e[i].1@))
}

impl TranslationContext {
    pub open spec fn state(&self, insts: Seq<Inst>, floats: Seq<(usize, String)>) -> AsmState {
        AsmState {
            insts,
            labels: labels_view(self.label_table.entries@),
            deferred: deferred_view(self.deferred_operands.entries@),
            floats: floats_view(floats),
            fault: None,
        }
    }

    pub open spec fn wf(&self, n_insts: nat) -> bool {
        forall|i: int|
            0 <= i < self.deferred_operands.entries@.len()
                ==> (#[trigger] self.deferred_operands.entries@[i]).0 < n_insts
    }
}

/// A copy of `text[start..end]`.
fn copy_range(text: &Vec<char>, start: usize, end: usize) -> (r: Vec<char>)
    requires
        start <= end <= text@.len(),
    ensures
        r@ == text@.subrange(start as int, end as int),
{
    let mut out: Vec<char> = Vec::new();
    let mut k: usize = start;
    while k < end
        invariant
            start <= k <= end <= text@.len(),
            out@ == text@.subrange(start as int, k as int),
        decreases end - k,
    {
        out.push(text[k]);
        k = k + 1;
        assert(out@ =~= text@.subrange(start as int, k as int));
    }
    out
}

/// `src[start..end]` as an owned string.
fn string_of_range(src: &str, start: usize, end: usize) -> (r: String)
    requires
        start <= end <= src@.len(),
    ensures
        r@ == src@.subrange(start as int, end as int),
{
    src.substring_char(start, end).to_owned()
}

fn same_chars(a: &Vec<char>, b: &Vec<char>) -> (r: bool)
    ensures
        r == (a@ == b@),
{
    if a.len() != b.len() {
        return false;
    }
    let mut i: usize = 0;
    while i < a.len()
        invariant
            a@.len() == b@.len(),
            i <= a@.len(),
            forall|j: int| 0 <= j < i ==> a@[j] == b@[j],
        decreases a@.len() - i,
    {
        if a[i] != b[i] {
            return false;
        }
        i = i + 1;
    }
    assert(a@ =~= b@);
    true
}

impl HMCache<Vec<char>, usize> {
    /// The value of the last entry whose key is `name`.
    pub fn lookup(&self, name: &Vec<char>) -> (r: Option<usize>)
        ensures
            r matches Some(v) ==> label_index(labels_view(self.entries@), name@) == Some(v as nat),
            r is None ==> label_index(labels_view(self.entries@), name@) is None,
    {
        let mut i: usize = self.entries.len();
        assert(self.entries@.subrange(0, i as int) =~= self.entries@);
        while i > 0
            invariant
                i <= self.entries@.len(),
                label_index(labels_view(self.entries@), name@) == label_index(
                    labels_view(self.entries@.subrange(0, i as int)),
                    name@,
                ),
            decreases i,
        {
            let ghost pre = labels_view(self.entries@.subrange(0, i as int));
            assert(pre.last() == (self.entries@[i - 1].0@, self.entries@[i - 1].1 as nat));
            if same_chars(&self.entries[i - 1].0, name) {
                return Some(self.entries[i - 1].1);
            }
            assert(pre.drop_last() =~= labels_view(self.entries@.subrange(0, i - 1)));
            i = i - 1;
        }
        None
    }
}

/// Translates the instruction written as the tokens `toks[first..]`.
fn assemble_inst(
    text: &Vec<char>,
    src: &str,
    toks: &Vec<(usize, usize)>,
    first: usize,
    tc: &mut TranslationContext,
    insts: &mut Vec<Inst>,
    floats: &mut Vec<(usize, String)>,
) -> (r: Result<(), VMError>)
    requires
        text@ == src@,
        first < toks@.len(),
        ranges_within(toks@, 0, text@.len() as int),
        old(tc).wf(old(insts)@.len()),
    ensures
        ({
            let st1 = asm_inst(
                old(tc).state(old(insts)@, old(floats)@),
                ranges_text(text@, toks@).subrange(first as int, toks@.len() as int),
            );
            &&& r is Ok ==> st1.fault is None && final(tc).state(final(insts)@, final(floats)@)
                == st1 && final(tc).wf(final(insts)@.len())
            &&& r matches Err(e) ==> st1.fault matches Some(f) && reports(e, f)
        }),
{
    let ghost st0 = tc.state(insts@, floats@);
    let ghost ts = ranges_text(text@, toks@).subrange(first as int, toks@.len() as int);
    let (s0, e0) = toks[first];
    assert(ts[0] == text@.subrange(s0 as int, e0 as int));
    let kind = match Inst::from_mnemonic(text, s0, e0) {
        None => {
            return Err(VMError::InvalidAsmInst { inst: string_of_range(src, s0, e0) });
        },
        Some(k) => k,
    };
    if kind.operand().is_none() {
        insts.push(kind);
        return Ok(());
    }
    if toks.len() - first < 2 {
        return Err(VMError::OperandNonExists { inst: kind });
    }
    let (s1, e1) = toks[first + 1];
    assert(ts[1] == text@.subrange(s1 as int, e1 as int));
    let ghost o = text@.subrange(s1 as int, e1 as int);
    let here = insts.len();
    match kind {
        Inst::InstPush(_) => {
            if contains_char(text, s1, e1, '.') {
                let lit = string_of_range(src, s1, e1);
                floats.push((here, lit));
                insts.push(Inst::InstPush(Word::Float(0)));
                assert(floats_view(floats@) =~= floats_view(old(floats)@).push((here as nat, o)));
            } else {
                match parse_i64_at(text, s1, e1) {
                    Some(n) => insts.push(Inst::InstPush(Word::Int(n))),
                    None => match parse_u64_at(text, s1, e1) {
                        Some(n) => insts.push(Inst::InstPush(Word::UInt(n))),
                        None => {
                            return Err(VMError::InvalidOperand);
                        },
                    },
                }
            }
        },
        Inst::InstJmp(_) => {
            let c = text[s1];
            assert(o[0] == c);
            if '0' <= c && c <= '9' {
                match parse_u64_at(text, s1, e1) {
                    Some(n) => insts.push(Inst::InstJmp(Word::UInt(n))),
                    None => {
                        return Err(VMError::InvalidOperand);
                    },
                }
            } else {
                let name = copy_range(text, s1, e1);
                tc.deferred_operands.entries.push((here, name));
                insts.push(Inst::InstJmp(Word::UInt(0)));
                assert(deferred_view(tc.deferred_operands.entries@) =~= deferred_view(
                    old(tc).deferred_operands.entries@,
                ).push((here as nat, o)));
            }
        },
        Inst::InstEq(_) => {
            match parse_u64_at(text, s1, e1) {
                Some(n) => insts.push(Inst::InstEq(Word::UInt(n))),
                None => {
                    return Err(VMError::InvalidOperand);
                },
            }
        },
        _ => {
            match parse_u64_at(text, s1, e1) {
                Some(n) => insts.push(Inst::InstDup(Word::UInt(n))),
                None => {
                    return Err(VMError::InvalidOperand);
                },
            }
        },
    }
    Ok(())
}

/// Takes in the line `text[start..end]`.
fn assemble_line(
    text: &Vec<char>,
    src: &str,
    start: usize,
    end: usize,
    tc: &mut TranslationContext,
    insts: &mut Vec<Inst>,
    floats: &mut Vec<(usize, String)>,
) -> (r: Result<(), VMError>)
    requires
        text@ == src@,
        start <= end <= text@.len(),
        old(tc).wf(old(insts)@.len()),
    ensures
        ({
            let st1 = asm_line(
                old(tc).state(old(insts)@, old(floats)@),
                line_tokens(text@.subrange(start as int, end as int)),
            );
            &&& r is Ok ==> st1.fault is None && final(tc).state(final(insts)@, final(floats)@)
                == st1 && final(tc).wf(final(insts)@.len())
            &&& r matches Err(e) ==> st1.fault matches Some(f) && reports(e, f)
        }),
{
    let toks = lex_line(text, start, end);
    let ghost ts = ranges_text(text@, toks@);
    assert(ranges_within(toks@, 0, text@.len() as int));
    if toks.len() == 0 {
        return Ok(());
    }
    let (s0, e0) = toks[0];
    assert(ts[0] == text@.subrange(s0 as int, e0 as int));
    if text[e0 - 1] == ':' {
        let name = copy_range(text, s0, e0 - 1);
        assert(name@ =~= ts[0].drop_last());
        tc.label_table.entries.push((name, insts.len()));
        assert(labels_view(tc.label_table.entries@) =~= labels_view(old(tc).label_table.entries@).push(
            (ts[0].drop_last(), insts@.len()),
        ));
        if toks.len() > 1 {
            assert(ts.drop_first() =~= ts.subrange(1, ts.len() as int));
            assemble_inst(text, src, &toks, 1, tc, insts, floats)
        } else {
            Ok(())
        }
    } else {
        assert(ts.subrange(0, ts.len() as int) =~= ts);
        assemble_inst(text, src, &toks, 0, tc, insts, floats)
    }
}

/// Once a deferred jump fails to resolve, the whole second pass fails.
proof fn lemma_resolve_err_sticks(
    insts: Seq<Inst>,
    deferred: Seq<(nat, Seq<char>)>,
    labels: Seq<(Seq<char>, nat)>,
    m: int,
)
    requires
        0 <= m <= deferred.len(),
        resolve(insts, deferred.subrange(0, m), labels) is Err,
    ensures
        resolve(insts, deferred, labels) == resolve(insts, deferred.subrange(0, m), labels),
    decreases deferred.len() - m,
{
    if m < deferred.len() {
        assert(deferred.drop_last().subrange(0, m) =~= deferred.subrange(0, m));
        lemma_resolve_err_sticks(insts, deferred.drop_last(), labels, m);
    } else {
        assert(deferred.subrange(0, m) =~= deferred);
    }
}

impl Program {
    /// Assembles a text: one instruction or label per line, `#` starts a
    /// comment, a label is `name:` and may share its line with an
    /// instruction. Jumps to labels are resolved in a second pass.
    pub fn from_hasm(source: &String) -> (r: Result<Assembly, VMError>)
        ensures
            match assemble_spec(source@) {
                Ok((p, fl)) => r matches Ok(a) && a.program.insts@ == p && floats_view(
                    a.float_literals@,
                ) == fl,
                Err(f) => r matches Err(e) && reports(e, f),
            },
    {
        let src = source.as_str();
        let text = collect_chars(src);
        let mut tc = TranslationContext {
            label_table: HMCache { entries: Vec::new() },
            deferred_operands: HMCache { entries: Vec::new() },
        };
        let mut insts: Vec<Inst> = Vec::new();
        let mut floats: Vec<(usize, String)> = Vec::new();
        let mut err: Option<VMError> = None;
        let ghost mut lines: Seq<Seq<char>> = Seq::empty();
        let mut line_start: usize = 0;
        let mut k: usize = 0;
        assert(labels_view(tc.label_table.entries@) =~= Seq::<(Seq<char>, nat)>::empty());
        assert(deferred_view(tc.deferred_operands.entries@) =~= Seq::<(nat, Seq<char>)>::empty());
        assert(floats_view(floats@) =~= Seq::<(nat, Seq<char>)>::empty());
        assert(text@.subrange(0, 0) =~= Seq::<char>::empty());
        while k < text.len()
            invariant
                text@ == src@,
                line_start <= k <= text@.len(),
                split_fold(text@.subrange(0, k as int)) == (lines, text@.subrange(line_start as int, k as int)),
                err is None ==> tc.state(insts@, floats@) == first_pass(lines) && tc.wf(insts@.len()),
                err matches Some(e) ==> first_pass(lines).fault matches Some(f) && reports(e, f),
            decreases text@.len() - k,
        {
            assert(text@.subrange(0, k + 1).drop_last() =~= text@.subrange(0, k as int));
            if text[k] == '\n' {
                if err.is_none() {
                    match assemble_line(&text, src, line_start, k, &mut tc, &mut insts, &mut floats) {
                        Ok(()) => {},
                        Err(e) => {
                            err = Some(e);
                        },
                    }
                }
                proof {
                    let l = text@.subrange(line_start as int, k as int);
                    assert(lines.push(l).drop_last() =~= lines);
                    lines = lines.push(l);
                }
                line_start = k + 1;
                k = k + 1;
                assert(text@.subrange(line_start as int, k as int) =~= Seq::<char>::empty());
            } else {
                assert(text@.subrange(line_start as int, k + 1) =~= text@.subrange(
                    line_start as int,
                    k as int,
                ).push(text@[k as int]));
                k = k + 1;
            }
        }
        assert(text@.subrange(0, k as int) =~= text@);
        if err.is_none() {
            match assemble_line(&text, src, line_start, k, &mut tc, &mut insts, &mut floats) {
                Ok(()) => {},
                Err(e) => {
                    err = Some(e);
                },
            }
        }
        proof {
            let l = text@.subrange(line_start as int, k as int);
            assert(lines.push(l).drop_last() =~= lines);
            lines = lines.push(l);
        }
        assert(lines == text_lines(source@));
        match err {
            Some(e) => {
                return Err(e);
            },
            None => {},
        }
        let ghost insts0 = insts@;
        let ghost st = first_pass(lines);
        let n = tc.deferred_operands.entries.len();
        let mut j: usize = 0;
        assert(st.deferred.subrange(0, 0) =~= Seq::<(nat, Seq<char>)>::empty());
        while j < n
            invariant
                n == tc.deferred_operands.entries@.len(),
                j <= n,
                st == tc.state(insts0, floats@),
                st == first_pass(text_lines(source@)),
                tc.wf(insts0.len()),
                insts@.len() == insts0.len(),
                resolve(insts0, st.deferred.subrange(0, j as int), st.labels) == Ok::<
                    Seq<Inst>,
                    AsmFault,
                >(insts@),
            decreases n - j,
        {
            let idx = tc.deferred_operands.entries[j].0;
            assert(st.deferred.subrange(0, j + 1).drop_last() =~= st.deferred.subrange(0, j as int));
            assert(st.deferred.subrange(0, j + 1).last() == st.deferred[j as int]);
            match tc.label_table.lookup(&tc.deferred_operands.entries[j].1) {
                None => {
                    proof {
                        assert(st.deferred[j as int].1 == tc.deferred_operands.entries@[j as int].1@);
                        assert(resolve(insts0, st.deferred.subrange(0, j + 1), st.labels) is Err);
                        lemma_resolve_err_sticks(insts0, st.deferred, st.labels, j + 1);
                    }
                    return Err(VMError::ResolveLabelFail);
                },
                Some(t) => {
                    insts[idx] = Inst::InstJmp(Word::UInt(t as u64));
                },
            }
            j = j + 1;
        }
        assert(st.deferred.subrange(0, n as int) =~= st.deferred);
        Ok(Assembly { program: Program { insts }, float_literals: floats })
    }
}

} // verus!

use crate::assembler::{
    asm_line, assemble_spec, emit, first_pass, is_label, label_index, resolve, AsmFault, AsmState,
};
use crate::disassembler::{decimal, digit_char, hasm_line, signed_decimal};
use crate::inst::{inst_of_mnemonic, mnemonic_of, operand_of, Inst};
use crate::text::{
    all_digits, digit_value, digits_number, is_digit, is_space, lex_fold, lex_step, line_tokens,
    parse_i64_spec, parse_u64_spec, split_fold, text_lines, unsigned_part, LexState,
};
use crate::word::Word;
use vstd::prelude::*;

verus! {

/// Lines joined with `\n` between them.
pub open spec fn join_lines(ls: Seq<Seq<char>>) -> Seq<char>
    decreases ls.len(),
{
    if ls.len() == 0 {
        Seq::empty()
    } else if ls.len() == 1 {
        ls[0]
    } else {
        join_lines(ls.drop_last()) + seq!['\n'] + ls.last()
    }
}

/// The assembly text of a program without float operands.
pub open spec fn hasm_text(insts: Seq<Inst>) -> Seq<char> {
    join_lines(Seq::new(insts.len(), |i: int| hasm_line(insts[i], Seq::empty())))
}

/// An instruction as assembling label-free text without float literals
/// gives it: a `push` of an `Int`, or of a `UInt` too large for an `Int`,
/// and unsigned operands elsewhere.
pub open spec fn textual_inst(inst: Inst) -> bool {
    match inst {
        Inst::InstPush(Word::Int(_)) => true,
        Inst::InstPush(Word::UInt(n)) => n > i64::MAX,
        Inst::InstPush(_) => false,
        Inst::InstJmp(w) => w is UInt,
        Inst::InstEq(w) => w is UInt,
        Inst::InstDup(w) => w is UInt,
        _ => true,
    }
}

pub open spec fn lex_from(st: LexState, b: Seq<char>) -> LexState
    decreases b.len(),
{
    if b.len() == 0 {
        st
    } else {
        lex_step(lex_from(st, b.drop_last()), b.last())
    }
}

/// A word: no whitespace and no `#`.
pub open spec fn plain(w: Seq<char>) -> bool {
    forall|j: int| 0 <= j < w.len() ==> !is_space(#[trigger] w[j]) && w[j] != '#'
}

proof fn lemma_lex_concat(a: Seq<char>, b: Seq<char>)
    ensures
        lex_fold(a + b) == lex_from(lex_fold(a), b),
    decreases b.len(),
{
    if b.len() == 0 {
        assert(a + b =~= a);
    } else {
        lemma_lex_concat(a, b.drop_last());
        assert((a + b).drop_last() =~= a + b.drop_last());
        assert((a + b).last() == b.last());
    }
}

proof fn lemma_lex_plain(st: LexState, w: Seq<char>)
    requires
        !st.comment,
        plain(w),
    ensures
        lex_from(st, w) == (LexState { cur: st.cur + w, ..st }),
    decreases w.len(),
{
    if w.len() == 0 {
        assert(st.cur + w =~= st.cur);
    } else {
        assert(plain(w.drop_last()));
        lemma_lex_plain(st, w.drop_last());
        assert(!is_space(w.last()) && w.last() != '#');
        assert(st.cur + w.drop_last() + seq![w.last()] =~= st.cur + w);
        assert((st.cur + w.drop_last()).push(w.last()) =~= st.cur + w);
    }
}

proof fn lemma_tokens_one(m: Seq<char>)
    requires
        m.len() > 0,
        plain(m),
    ensures
        line_tokens(m) == seq![m],
{
    let init = LexState { toks: Seq::empty(), cur: Seq::empty(), comment: false };
    lemma_lex_concat(Seq::empty(), m);
    assert(Seq::<char>::empty() + m =~= m);
    lemma_lex_plain(init, m);
    assert(seq![m] =~= Seq::<Seq<char>>::empty().push(m));
}

proof fn lemma_tokens_two(m: Seq<char>, o: Seq<char>)
    requires
        m.len() > 0,
        o.len() > 0,
        plain(m),
        plain(o),
    ensures
        line_tokens(m + seq![' '] + o) == seq![m, o],
{
    let init = LexState { toks: Seq::empty(), cur: Seq::empty(), comment: false };
    lemma_lex_concat(Seq::empty(), m);
    assert(Seq::<char>::empty() + m =~= m);
    lemma_lex_plain(init, m);
    let ms = m + seq![' '];
    assert(ms.drop_last() =~= m);
    assert(ms.last() == ' ');
    let after = lex_fold(ms);
    assert(after == LexState { toks: seq![m], cur: Seq::empty(), comment: false }) by {
        assert(Seq::<char>::empty() + m =~= m);
        assert(Seq::<Seq<char>>::empty().push(m) =~= seq![m]);
    }
    lemma_lex_concat(ms, o);
    lemma_lex_plain(after, o);
    assert(Seq::<char>::empty() + o =~= o);
    assert(seq![m].push(o) =~= seq![m, o]);
}

proof fn lemma_split_plain(a: Seq<char>, b: Seq<char>)
    requires
        !b.contains('\n'),
    ensures
        split_fold(a + b) == (split_fold(a).0, split_fold(a).1 + b),
    decreases b.len(),
{
    if b.len() == 0 {
        assert(a + b =~= a);
        assert(split_fold(a).1 + b =~= split_fold(a).1);
    } else {
        assert(!b.drop_last().contains('\n')) by {
            if b.drop_last().contains('\n') {
                let j = choose|j: int| 0 <= j < b.drop_last().len() && b.drop_last()[j] == '\n';
                assert(b[j] == '\n');
            }
        }
        lemma_split_plain(a, b.drop_last());
        assert((a + b).drop_last() =~= a + b.drop_last());
        assert((a + b).last() == b.last());
        assert(b.last() != '\n') by {
            assert(b[b.len() - 1] == b.last());
        }
        assert((split_fold(a).1 + b.drop_last()).push(b.last()) =~= split_fold(a).1 + b);
    }
}

proof fn lemma_lines_of_join(ls: Seq<Seq<char>>)
    requires
        ls.len() > 0,
        forall|i: int| 0 <= i < ls.len() ==> !(#[trigger] ls[i]).contains('\n'),
    ensures
        text_lines(join_lines(ls)) == ls,
    decreases ls.len(),
{
    if ls.len() == 1 {
        lemma_split_plain(Seq::empty(), ls[0]);
        assert(Seq::<char>::empty() + ls[0] =~= ls[0]);
        assert(Seq::<Seq<char>>::empty().push(ls[0]) =~= ls);
    } else {
        let init = ls.drop_last();
        assert(forall|i: int| 0 <= i < init.len() ==> !(#[trigger] init[i]).contains('\n')) by {
            assert forall|i: int| 0 <= i < init.len() implies !(#[trigger] init[i]).contains('\n') by {
                assert(init[i] == ls[i]);
            }
        }
        lemma_lines_of_join(init);
        let a = join_lines(init) + seq!['\n'];
        assert(a.drop_last() =~= join_lines(init));
        assert(!ls.last().contains('\n')) by {
            assert(ls[ls.len() - 1] == ls.last());
        }
        lemma_split_plain(a, ls.last());
        assert(Seq::<char>::empty() + ls.last() =~= ls.last());
        assert(init.push(ls.last()) =~= ls);
    }
}

proof fn lemma_digit_char(d: nat)
    requires
        d < 10,
    ensures
        digit_value(digit_char(d)) == d,
        is_digit(digit_char(d)),
{
    if d == 0 {
    } else if d == 1 {
    } else if d == 2 {
    } else if d == 3 {
    } else if d == 4 {
    } else if d == 5 {
    } else if d == 6 {
    } else if d == 7 {
    } else if d == 8 {
    } else {
        assert(d == 9);
    }
}

proof fn lemma_decimal(n: nat)
    ensures
        all_digits(decimal(n)),
        digits_number(decimal(n)) == n,
        decimal(n).len() > 0,
    decreases n,
{
    let d = decimal(n);
    if n < 10 {
        lemma_digit_char(n);
        assert(d == seq![digit_char(n)]);
        assert(d.drop_last() =~= Seq::<char>::empty());
        assert(d.last() == digit_char(n));
        assert(digits_number(d) == digits_number(d.drop_last()) * 10 + digit_value(d.last()));
    } else {
        let q = n / 10;
        let r = n % 10;
        assert(q < n) by (nonlinear_arith)
            requires
                n >= 10,
                q == n / 10,
        ;
        lemma_decimal(q);
        lemma_digit_char(r);
        assert(d == decimal(q).push(digit_char(r)));
        assert(d.drop_last() =~= decimal(q));
        assert(d.last() == digit_char(r));
        assert(digits_number(d) == digits_number(decimal(q)) * 10 + digit_value(digit_char(r)));
        assert(n == q * 10 + r) by (nonlinear_arith)
            requires
                q == n / 10,
                r == n % 10,
        ;
        assert forall|j: int| 0 <= j < d.len() implies is_digit(#[trigger] d[j]) by {
            if j < d.len() - 1 {
                assert(d[j] == decimal(q)[j]);
            }
        }
    }
}

proof fn lemma_decimal_plain(n: nat)
    ensures
        plain(decimal(n)),
        !decimal(n).contains('.'),
        !decimal(n).contains('\n'),
        !decimal(n).contains('-'),
{
    lemma_decimal(n);
    let d = decimal(n);
    assert forall|j: int| 0 <= j < d.len() implies !is_space(#[trigger] d[j]) && d[j] != '#' by {
        assert(is_digit(d[j]));
    }
    if d.contains('.') {
        let j = choose|j: int| 0 <= j < d.len() && d[j] == '.';
        assert(is_digit(d[j]));
    }
    if d.contains('\n') {
        let j = choose|j: int| 0 <= j < d.len() && d[j] == '\n';
        assert(is_digit(d[j]));
    }
}

proof fn lemma_signed_decimal(n: i64)
    ensures
        parse_i64_spec(signed_decimal(n as int)) == Some(n),
        signed_decimal(n as int).len() > 0,
        plain(signed_decimal(n as int)),
        !signed_decimal(n as int).contains('.'),
        !signed_decimal(n as int).contains('\n'),
{
    let s = signed_decimal(n as int);
    if n < 0 {
        let m = (-n) as nat;
        lemma_decimal(m);
        lemma_decimal_plain(m);
        let d = decimal(m);
        assert(s == seq!['-'] + d);
        assert(s.drop_first() =~= d);
        assert(s[0] == '-');
        assert forall|j: int| 0 <= j < s.len() implies !is_space(#[trigger] s[j]) && s[j] != '#' by {
            if j > 0 {
                assert(s[j] == d[j - 1]);
            }
        }
        if s.contains('.') {
            let j = choose|j: int| 0 <= j < s.len() && s[j] == '.';
            assert(s[j] == d[j - 1]);
        }
        if s.contains('\n') {
            let j = choose|j: int| 0 <= j < s.len() && s[j] == '\n';
            assert(s[j] == d[j - 1]);
        }
    } else {
        lemma_decimal(n as nat);
        lemma_decimal_plain(n as nat);
        let d = decimal(n as nat);
        assert(is_digit(d[0]));
        assert(unsigned_part(d) == d);
    }
}

proof fn lemma_parse_decimal(n: u64)
    ensures
        parse_u64_spec(decimal(n as nat)) == Some(n),
        n > i64::MAX ==> parse_i64_spec(decimal(n as nat)) is None,
        is_digit(decimal(n as nat)[0]),
{
    lemma_decimal(n as nat);
    let d = decimal(n as nat);
    assert(is_digit(d[0]));
    assert(unsigned_part(d) == d);
}

proof fn lemma_mnemonic_texts()
    ensures
        "push"@ == seq!['p', 'u', 's', 'h'],
        "addi"@ == seq!['a', 'd', 'd', 'i'],
        "subi"@ == seq!['s', 'u', 'b', 'i'],
        "muli"@ == seq!['m', 'u', 'l', 'i'],
        "divi"@ == seq!['d', 'i', 'v', 'i'],
        "addf"@ == seq!['a', 'd', 'd', 'f'],
        "subf"@ == seq!['s', 'u', 'b', 'f'],
        "mulf"@ == seq!['m', 'u', 'l', 'f'],
        "divf"@ == seq!['d', 'i', 'v', 'f'],
        "halt"@ == seq!['h', 'a', 'l', 't'],
        "jmp"@ == seq!['j', 'm', 'p'],
        "eq"@ == seq!['e', 'q'],
        "dup"@ == seq!['d', 'u', 'p'],
        "nop"@ == seq!['n', 'o', 'p'],
{
    reveal_strlit("push");
    reveal_strlit("addi");
    reveal_strlit("subi");
    reveal_strlit("muli");
    reveal_strlit("divi");
    reveal_strlit("addf");
    reveal_strlit("subf");
    reveal_strlit("mulf");
    reveal_strlit("divf");
    reveal_strlit("halt");
    reveal_strlit("jmp");
    reveal_strlit("eq");
    reveal_strlit("dup");
    reveal_strlit("nop");
    assert("push"@ =~= seq!['p', 'u', 's', 'h']);
    assert("addi"@ =~= seq!['a', 'd', 'd', 'i']);
    assert("subi"@ =~= seq!['s', 'u', 'b', 'i']);
    assert("muli"@ =~= seq!['m', 'u', 'l', 'i']);
    assert("divi"@ =~= seq!['d', 'i', 'v', 'i']);
    assert("addf"@ =~= seq!['a', 'd', 'd', 'f']);
    assert("subf"@ =~= seq!['s', 'u', 'b', 'f']);
    assert("mulf"@ =~= seq!['m', 'u', 'l', 'f']);
    assert("divf"@ =~= seq!['d', 'i', 'v', 'f']);
    assert("halt"@ =~= seq!['h', 'a', 'l', 't']);
    assert("jmp"@ =~= seq!['j', 'm', 'p']);
    assert("eq"@ =~= seq!['e', 'q']);
    assert("dup"@ =~= seq!['d', 'u', 'p']);
    assert("nop"@ =~= seq!['n', 'o', 'p']);
}

proof fn lemma_mnemonics(inst: Inst)
    ensures
        mnemonic_of(inst).len() > 0,
        plain(mnemonic_of(inst)),
        !is_label(mnemonic_of(inst)),
        !mnemonic_of(inst).contains('\n'),
        inst_of_mnemonic(mnemonic_of(inst)) == Some(
            match inst {
                Inst::InstPush(_) => Inst::InstPush(Word::UInt(0)),
                Inst::InstJmp(_) => Inst::InstJmp(Word::UInt(0)),
                Inst::InstEq(_) => Inst::InstEq(Word::UInt(0)),
                Inst::InstDup(_) => Inst::InstDup(Word::UInt(0)),
                _ => inst,
            },
        ),
{
    lemma_mnemonic_texts();
    let m = mnemonic_of(inst);
    assert forall|j: int| 0 <= j < m.len() implies !is_space(#[trigger] m[j]) && m[j] != '#' by {
        assert('a' <= m[j] && m[j] <= 'v');
    }
    if m.contains('\n') {
        let j = choose|j: int| 0 <= j < m.len() && m[j] == '\n';
        assert('a' <= m[j] && m[j] <= 'v');
    }
    assert(m.last() != ':');
}

/// One line of disassembly assembles to the instruction it came from.
proof fn lemma_line_assembles(st: AsmState, inst: Inst)
    requires
        st.fault is None,
        textual_inst(inst),
    ensures
        asm_line(st, line_tokens(hasm_line(inst, Seq::empty()))) == emit(st, inst),
        !hasm_line(inst, Seq::empty()).contains('\n'),
{
    lemma_mnemonics(inst);
    let m = mnemonic_of(inst);
    let line = hasm_line(inst, Seq::empty());
    match operand_of(inst) {
        None => {
            lemma_tokens_one(m);
            assert(seq![m][0] == m);
        },
        Some(w) => {
            let o = match w {
                Word::Int(n) => signed_decimal(n as int),
                Word::UInt(n) => decimal(n as nat),
                _ => Seq::empty(),
            };
            match w {
                Word::Int(n) => lemma_signed_decimal(n),
                Word::UInt(n) => {
                    lemma_parse_decimal(n);
                    lemma_decimal(n as nat);
                    lemma_decimal_plain(n as nat);
                },
                _ => {},
            }
            assert(line == m + seq![' '] + o);
            lemma_tokens_two(m, o);
            let toks = seq![m, o];
            assert(toks[0] == m);
            assert(toks[1] == o);
            if line.contains('\n') {
                let j = choose|j: int| 0 <= j < line.len() && line[j] == '\n';
                if j < m.len() {
                    assert(line[j] == m[j]);
                } else if j > m.len() {
                    assert(line[j] == o[j - m.len() - 1]);
                }
            }
        },
    }
}

/// Assembling the disassembly of a prefix of the program gives that prefix.
proof fn lemma_first_pass_prefix(insts: Seq<Inst>, k: int)
    requires
        0 <= k <= insts.len(),
        forall|i: int| 0 <= i < insts.len() ==> textual_inst(#[trigger] insts[i]),
    ensures
        first_pass(Seq::new(k as nat, |i: int| hasm_line(insts[i], Seq::empty()))) == (AsmState {
            insts: insts.subrange(0, k),
            labels: Seq::empty(),
            deferred: Seq::empty(),
            floats: Seq::empty(),
            fault: None,
        }),
    decreases k,
{
    let ls = Seq::new(k as nat, |i: int| hasm_line(insts[i], Seq::empty()));
    if k == 0 {
        assert(insts.subrange(0, 0) =~= Seq::<Inst>::empty());
    } else {
        lemma_first_pass_prefix(insts, k - 1);
        assert(ls.drop_last() =~= Seq::new((k - 1) as nat, |i: int| hasm_line(insts[i], Seq::empty())));
        assert(textual_inst(insts[k - 1]));
        let st = first_pass(ls.drop_last());
        lemma_line_assembles(st, insts[k - 1]);
        assert(insts.subrange(0, k - 1).push(insts[k - 1]) =~= insts.subrange(0, k));
    }
}

/// Assembling the disassembly of a program gives the program back, for every
/// program whose instructions are as assembling label-free text without
/// float literals makes them.
pub proof fn lemma_text_round_trip(insts: Seq<Inst>)
    requires
        forall|i: int| 0 <= i < insts.len() ==> textual_inst(#[trigger] insts[i]),
    ensures
        assemble_spec(hasm_text(insts)) == Ok::<(Seq<Inst>, Seq<(nat, Seq<char>)>), AsmFault>(
            (insts, Seq::empty()),
        ),
{
    let ls = Seq::new(insts.len(), |i: int| hasm_line(insts[i], Seq::empty()));
    lemma_first_pass_prefix(insts, insts.len() as int);
    assert(insts.subrange(0, insts.len() as int) =~= insts);
    if insts.len() == 0 {
        assert(hasm_text(insts) =~= Seq::<char>::empty());
        assert(split_fold(Seq::<char>::empty()) == (Seq::<Seq<char>>::empty(), Seq::<char>::empty()));
        let lines = text_lines(hasm_text(insts));
        assert(lines =~= seq![Seq::<char>::empty()]);
        assert(lines.drop_last() =~= Seq::<Seq<char>>::empty());
        assert(lines.last() =~= Seq::<char>::empty());
        assert(lex_fold(Seq::<char>::empty()).toks =~= Seq::<Seq<char>>::empty());
        assert(line_tokens(Seq::<char>::empty()) =~= Seq::<Seq<char>>::empty());
        assert(insts =~= Seq::<Inst>::empty());
        let empty_state = first_pass(Seq::<Seq<char>>::empty());
        assert(empty_state.fault is None && empty_state.insts =~= Seq::<Inst>::empty());
        assert(first_pass(lines.drop_last()) == empty_state);
        assert(first_pass(lines) == asm_line(empty_state, line_tokens(lines.last())));
        assert(first_pass(lines).insts =~= Seq::<Inst>::empty());
        assert(first_pass(lines).fault is None);
    } else {
        assert forall|i: int| 0 <= i < ls.len() implies !(#[trigger] ls[i]).contains('\n') by {
            lemma_line_assembles(
                AsmState {
                    insts: Seq::empty(),
                    labels: Seq::empty(),
                    deferred: Seq::empty(),
                    floats: Seq::empty(),
                    fault: None,
                },
                insts[i],
            );
        }
        lemma_lines_of_join(ls);
    }
}

/// Every instruction is textual, but for float pushes, which come only with
/// float literals.
pub open spec fn textual_but_floats(insts: Seq<Inst>, n_floats: nat) -> bool {
    forall|i: int|
        0 <= i < insts.len() ==> textual_inst(#[trigger] insts[i]) || (insts[i] == Inst::InstPush(
            Word::Float(0),
        ) && n_floats > 0)
}

pub open spec fn deferred_in_range(deferred: Seq<(nat, Seq<char>)>, n: nat) -> bool {
    forall|i: int| 0 <= i < deferred.len() ==> (#[trigger] deferred[i]).0 < n
}

/// A literal that `i64` parsing refuses and `u64` parsing takes is above
/// `i64::MAX`.
proof fn lemma_parse_unsigned_only(o: Seq<char>)
    requires
        parse_i64_spec(o) is None,
        parse_u64_spec(o) is Some,
    ensures
        parse_u64_spec(o)->0 > i64::MAX,
{
    if o.len() > 0 && o[0] == '-' {
        assert(unsigned_part(o) == o);
        assert(!is_digit(o[0]));
    }
}

proof fn lemma_first_pass_textual(lines: Seq<Seq<char>>)
    ensures
        textual_but_floats(first_pass(lines).insts, first_pass(lines).floats.len()),
        deferred_in_range(first_pass(lines).deferred, first_pass(lines).insts.len()),
    decreases lines.len(),
{
    if lines.len() > 0 {
        lemma_first_pass_textual(lines.drop_last());
        let st = first_pass(lines.drop_last());
        let toks = line_tokens(lines.last());
        let after = first_pass(lines);
        assert(after == asm_line(st, toks));
        if st.fault is None && toks.len() > 0 {
            let t = if is_label(toks[0]) { toks.drop_first() } else { toks };
            if t.len() > 0 && toks.len() >= 2 && t.len() >= 2 {
                let o = t[1];
                if parse_i64_spec(o) is None && parse_u64_spec(o) is Some {
                    lemma_parse_unsigned_only(o);
                }
            }
            assert forall|i: int| 0 <= i < after.deferred.len() implies (
            #[trigger] after.deferred[i]).0 < after.insts.len() by {
                if i < st.deferred.len() {
                    assert(after.deferred[i] == st.deferred[i]);
                }
            }
            assert forall|i: int| 0 <= i < after.insts.len() implies textual_inst(
                #[trigger] after.insts[i],
            ) || (after.insts[i] == Inst::InstPush(Word::Float(0)) && after.floats.len() > 0) by {
                if i < st.insts.len() {
                    assert(after.insts[i] == st.insts[i]);
                } else {
                    if t.len() >= 2 {
                        let o = t[1];
                        if parse_i64_spec(o) is None && parse_u64_spec(o) is Some {
                            lemma_parse_unsigned_only(o);
                        }
                    }
                }
            }
        }
    }
}

proof fn lemma_resolve_textual(
    insts: Seq<Inst>,
    deferred: Seq<(nat, Seq<char>)>,
    labels: Seq<(Seq<char>, nat)>,
    n_floats: nat,
)
    requires
        textual_but_floats(insts, n_floats),
        deferred_in_range(deferred, insts.len()),
        resolve(insts, deferred, labels) is Ok,
    ensures
        textual_but_floats(resolve(insts, deferred, labels)->Ok_0, n_floats),
        resolve(insts, deferred, labels)->Ok_0.len() == insts.len(),
    decreases deferred.len(),
{
    if deferred.len() > 0 {
        assert(deferred_in_range(deferred.drop_last(), insts.len())) by {
            assert forall|i: int| 0 <= i < deferred.drop_last().len() implies (
            #[trigger] deferred.drop_last()[i]).0 < insts.len() by {
                assert(deferred.drop_last()[i] == deferred[i]);
            }
        }
        lemma_resolve_textual(insts, deferred.drop_last(), labels, n_floats);
        let p = resolve(insts, deferred.drop_last(), labels)->Ok_0;
        let q = resolve(insts, deferred, labels)->Ok_0;
        let t = label_index(labels, deferred.last().1)->Some_0;
        assert(deferred.last() == deferred[deferred.len() - 1]);
        assert(q == p.update(deferred.last().0 as int, Inst::InstJmp(Word::UInt(t as u64))));
        assert forall|i: int| 0 <= i < q.len() implies textual_inst(#[trigger] q[i]) || (q[i]
            == Inst::InstPush(Word::Float(0)) && n_floats > 0) by {
            if i != deferred.last().0 {
                assert(q[i] == p[i]);
            }
        }
    }
}

/// Assembling the disassembly of an assembled program gives the same
/// program, wherever the text held no float literal.
pub proof fn lemma_assembled_text_round_trip(text: Seq<char>, p: Seq<Inst>)
    requires
        assemble_spec(text) == Ok::<(Seq<Inst>, Seq<(nat, Seq<char>)>), AsmFault>(
            (p, Seq::empty()),
        ),
    ensures
        assemble_spec(hasm_text(p)) == Ok::<(Seq<Inst>, Seq<(nat, Seq<char>)>), AsmFault>(
            (p, Seq::empty()),
        ),
{
    let st = first_pass(text_lines(text));
    lemma_first_pass_textual(text_lines(text));
    lemma_resolve_textual(st.insts, st.deferred, st.labels, 0);
    assert forall|i: int| 0 <= i < p.len() implies textual_inst(#[trigger] p[i]) by {}
    lemma_text_round_trip(p);
}

} // verus!

use vstd::prelude::*;

verus! {

pub open spec fn is_space(c: char) -> bool {
    c == ' ' || c == '\t' || c == '\n' || c == '\r' || c == '\x0B' || c == '\x0C'
}

pub open spec fn is_digit(c: char) -> bool {
    '0' <= c && c <= '9'
}

pub open spec fn digit_value(c: char) -> nat {
    (c as u32 - '0' as u32) as nat
}

/// Where the lexer stands after part of a line: the finished tokens, the
/// token being read, and whether a comment has begun.
pub ghost struct LexState {
    pub toks: Seq<Seq<char>>,
    pub cur: Seq<char>,
    pub comment: bool,
}

/// Reads one character. A token that holds `#` starts a comment: it is
/// dropped with everything after it.
pub open spec fn lex_step(st: LexState, c: char) -> LexState {
    if st.comment {
        st
    } else if c == '#' {
        LexState { cur: Seq::empty(), comment: true, ..st }
    } else if is_space(c) {
        if st.cur.len() > 0 {
            LexState { toks: st.toks.push(st.cur), cur: Seq::empty(), ..st }
        } else {
            st
        }
    } else {
        LexState { cur: st.cur.push(c), ..st }
    }
}

pub open spec fn lex_fold(line: Seq<char>) -> LexState
    decreases line.len(),
{
    if line.len() == 0 {
        LexState { toks: Seq::empty(), cur: Seq::empty(), comment: false }
    } else {
        lex_step(lex_fold(line.drop_last()), line.last())
    }
}

/// The whitespace-separated tokens of a line, up to the first token that
/// holds `#`.
pub open spec fn line_tokens(line: Seq<char>) -> Seq<Seq<char>> {
    let st = lex_fold(line);
    if !st.comment && st.cur.len() > 0 {
        st.toks.push(st.cur)
    } else {
        st.toks
    }
}

/// The finished lines of a text and the line being read.
pub open spec fn split_fold(text: Seq<char>) -> (Seq<Seq<char>>, Seq<char>)
    decreases text.len(),
{
    if text.len() == 0 {
        (Seq::empty(), Seq::empty())
    } else {
        let (lines, cur) = split_fold(text.drop_last());
        if text.last() == '\n' {
            (lines.push(cur), Seq::empty())
        } else {
            (lines, cur.push(text.last()))
        }
    }
}

/// The lines of a text, split at each `\n`.
pub open spec fn text_lines(text: Seq<char>) -> Seq<Seq<char>> {
    split_fold(text).0.push(split_fold(text).1)
}

pub open spec fn digits_number(s: Seq<char>) -> nat
    decreases s.len(),
{
    if s.len() == 0 {
        0
    } else {
        digits_number(s.drop_last()) * 10 + digit_value(s.last())
    }
}

pub open spec fn all_digits(s: Seq<char>) -> bool {
    s.len() > 0 && forall|i: int| 0 <= i < s.len() ==> is_digit(#[trigger] s[i])
}

/// The digits of a number written with an optional `+`.
pub open spec fn unsigned_part(s: Seq<char>) -> Seq<char> {
    if s.len() > 0 && s[0] == '+' {
        s.drop_first()
    } else {
        s
    }
}

/// A decimal unsigned integer, as `str::parse::<u64>` reads one.
pub open spec fn parse_u64_spec(s: Seq<char>) -> Option<u64> {
    let d = unsigned_part(s);
    if all_digits(d) && digits_number(d) <= u64::MAX {
        Some(digits_number(d) as u64)
    } else {
        None
    }
}

/// A decimal signed integer, as `str::parse::<i64>` reads one.
pub open spec fn parse_i64_spec(s: Seq<char>) -> Option<i64> {
    if s.len() > 0 && s[0] == '-' {
        let d = s.drop_first();
        if all_digits(d) && digits_number(d) <= 0x8000_0000_0000_0000 {
            Some((-(digits_number(d) as int)) as i64)
        } else {
            None
        }
    } else {
        let d = unsigned_part(s);
        if all_digits(d) && digits_number(d) <= i64::MAX {
            Some(digits_number(d) as i64)
        } else {
            None
        }
    }
}

/// The characters of a string.
pub fn collect_chars(s: &str) -> (r: Vec<char>)
    ensures
        r@ == s@,
{
    let mut out: Vec<char> = Vec::new();
    for c in it: s.chars()
        invariant
            out@ == it.seq().subrange(0, it.index() as int),
            it.seq() == s@,
    {
        out.push(c);
    }
    out
}

proof fn lemma_digits_grow(s: Seq<char>, k: int)
    requires
        0 <= k <= s.len(),
        forall|i: int| 0 <= i < s.len() ==> is_digit(#[trigger] s[i]),
    ensures
        digits_number(s.subrange(0, k)) <= digits_number(s),
    decreases s.len(),
{
    if k < s.len() {
        assert(s.drop_last() =~= s.subrange(0, s.len() - 1));
        lemma_digits_grow(s.drop_last(), k);
        assert(s.drop_last().subrange(0, k) =~= s.subrange(0, k));
    } else {
        assert(s.subrange(0, k) =~= s);
    }
}

/// The value of the digits `text[start..end]` if they are all digits, at
/// least one, and the value is at most `bound`.
fn parse_digits(text: &Vec<char>, start: usize, end: usize, bound: u64) -> (r: Option<u64>)
    requires
        start <= end <= text@.len(),
        bound >= 9,
    ensures
        ({
            let d = text@.subrange(start as int, end as int);
            r == (if all_digits(d) && digits_number(d) <= bound {
                Some(digits_number(d) as u64)
            } else {
                None::<u64>
            })
        }),
{
    let ghost d = text@.subrange(start as int, end as int);
    if start == end {
        return None;
    }
    let mut acc: u64 = 0;
    let mut k: usize = start;
    while k < end
        invariant
            start <= k <= end <= text@.len(),
            d == text@.subrange(start as int, end as int),
            bound >= 9,
            acc as nat == digits_number(d.subrange(0, k - start)),
            acc <= bound,
            forall|i: int| 0 <= i < k - start ==> is_digit(#[trigger] d[i]),
        decreases end - k,
    {
        let c = text[k];
        if !('0' <= c && c <= '9') {
            assert(d[k - start] == c);
            return None;
        }
        let dv: u64 = (c as u32 - '0' as u32) as u64;
        let ghost pre = d.subrange(0, k - start);
        let ghost next = d.subrange(0, k + 1 - start);
        assert(next.drop_last() =~= pre);
        assert(next.last() == c);
        if acc > (bound - dv) / 10 {
            proof {
                assert(digits_number(next) > bound) by (nonlinear_arith)
                    requires
                        digits_number(next) == acc * 10 + dv,
                        acc > (bound - dv) / 10,
                        dv <= 9,
                        bound >= 9,
                ;
                if forall|i: int| 0 <= i < d.len() ==> is_digit(#[trigger] d[i]) {
                    lemma_digits_grow(d, k + 1 - start);
                }
            }
            return None;
        }
        assert(acc * 10 + dv <= bound) by (nonlinear_arith)
            requires
                acc <= (bound - dv) / 10,
                dv <= 9,
                bound >= 9,
        ;
        acc = acc * 10 + dv;
        k = k + 1;
    }
    assert(d.subrange(0, end - start) =~= d);
    Some(acc)
}

/// `str::parse::<u64>` on `text[start..end]`.
pub fn parse_u64_at(text: &Vec<char>, start: usize, end: usize) -> (r: Option<u64>)
    requires
        start <= end <= text@.len(),
    ensures
        r == parse_u64_spec(text@.subrange(start as int, end as int)),
{
    let ghost s = text@.subrange(start as int, end as int);
    if start < end && text[start] == '+' {
        assert(s.drop_first() =~= text@.subrange(start + 1, end as int));
        parse_digits(text, start + 1, end, u64::MAX)
    } else {
        parse_digits(text, start, end, u64::MAX)
    }
}

/// `str::parse::<i64>` on `text[start..end]`.
pub fn parse_i64_at(text: &Vec<char>, start: usize, end: usize) -> (r: Option<i64>)
    requires
        start <= end <= text@.len(),
    ensures
        r == parse_i64_spec(text@.subrange(start as int, end as int)),
{
    let ghost s = text@.subrange(start as int, end as int);
    if start < end && text[start] == '-' {
        assert(s.drop_first() =~= text@.subrange(start + 1, end as int));
        match parse_digits(text, start + 1, end, 0x8000_0000_0000_0000u64) {
            None => None,
            Some(m) => {
                if m == 0x8000_0000_0000_0000u64 {
                    Some(i64::MIN)
                } else {
                    Some(-(m as i64))
                }
            },
        }
    } else {
        let first = if start < end && text[start] == '+' {
            assert(s.drop_first() =~= text@.subrange(start + 1, end as int));
            start + 1
        } else {
            start
        };
        match parse_digits(text, first, end, i64::MAX as u64) {
            None => None,
            Some(m) => Some(m as i64),
        }
    }
}

/// Whether `text[start..end]` equals the string `lit`.
pub fn matches_str(text: &Vec<char>, start: usize, end: usize, lit: &str) -> (r: bool)
    requires
        start <= end <= text@.len(),
    ensures
        r == (text@.subrange(start as int, end as int) == lit@),
{
    let n = lit.unicode_len();
    if end - start != n {
        return false;
    }
    let mut i: usize = 0;
    while i < n
        invariant
            n == lit@.len(),
            end - start == n,
            start <= end <= text@.len(),
            i <= n,
            forall|j: int| 0 <= j < i ==> text@[start + j] == lit@[j],
        decreases n - i,
    {
        if text[start + i] != lit.get_char(i) {
            assert(text@.subrange(start as int, end as int)[i as int] != lit@[i as int]);
            return false;
        }
        i = i + 1;
    }
    assert(text@.subrange(start as int, end as int) =~= lit@);
    true
}

/// Whether `text[start..end]` holds the character `c`.
pub fn contains_char(text: &Vec<char>, start: usize, end: usize, c: char) -> (r: bool)
    requires
        start <= end <= text@.len(),
    ensures
        r == text@.subrange(start as int, end as int).contains(c),
{
    let ghost s = text@.subrange(start as int, end as int);
    let mut k: usize = start;
    while k < end
        invariant
            start <= k <= end <= text@.len(),
            s == text@.subrange(start as int, end as int),
            forall|j: int| 0 <= j < k - start ==> s[j] != c,
        decreases end - k,
    {
        if text[k] == c {
            assert(s[k - start] == c);
            return true;
        }
        k = k + 1;
    }
    false
}

/// The pieces of `text` that a list of ranges marks out.
pub open spec fn ranges_text(text: Seq<char>, rs: Seq<(usize, usize)>) -> Seq<Seq<char>> {
    Seq::new(rs.len(), |i: int| text.subrange(rs[i].0 as int, rs[i].1 as int))
}

pub open spec fn ranges_within(rs: Seq<(usize, usize)>, start: int, end: int) -> bool {
    forall|i: int|
        0 <= i < rs.len() ==> start <= (#[trigger] rs[i]).0 && rs[i].0 < rs[i].1 && rs[i].1 <= end
}

/// The tokens of the line `text[start..end]`, as ranges of `text`.
pub fn lex_line(text: &Vec<char>, start: usize, end: usize) -> (r: Vec<(usize, usize)>)
    requires
        start <= end <= text@.len(),
    ensures
        ranges_text(text@, r@) == line_tokens(text@.subrange(start as int, end as int)),
        ranges_within(r@, start as int, end as int),
{
    let ghost line = text@.subrange(start as int, end as int);
    let mut toks: Vec<(usize, usize)> = Vec::new();
    let mut cur_start: usize = start;
    let mut comment = false;
    let mut k: usize = start;
    while k < end
        invariant
            start <= cur_start <= k <= end <= text@.len(),
            line == text@.subrange(start as int, end as int),
            ranges_within(toks@, start as int, k as int),
            ({
                let st = lex_fold(line.subrange(0, k - start));
                &&& ranges_text(text@, toks@) == st.toks
                &&& comment == st.comment
                &&& st.cur == (if comment {
                    Seq::<char>::empty()
                } else {
                    text@.subrange(cur_start as int, k as int)
                })
            }),
        decreases end - k,
    {
        let ghost before = lex_fold(line.subrange(0, k - start));
        let c = text[k];
        assert(line.subrange(0, k + 1 - start).drop_last() =~= line.subrange(0, k - start));
        assert(line.subrange(0, k + 1 - start).last() == c);
        if comment {
        } else if c == '#' {
            comment = true;
        } else if c == ' ' || c == '\t' || c == '\n' || c == '\r' || c == '\x0B' || c == '\x0C' {
            if cur_start < k {
                toks.push((cur_start, k));
                assert(ranges_text(text@, toks@) =~= before.toks.push(before.cur));
            } else {
                assert(before.cur =~= Seq::<char>::empty());
            }
            cur_start = k + 1;
        } else {
            assert(text@.subrange(cur_start as int, k + 1) =~= before.cur.push(c));
        }
        k = k + 1;
        if comment {
            cur_start = k;
        }
        assert(text@.subrange(k as int, k as int) =~= Seq::<char>::empty());
    }
    assert(line.subrange(0, end - start) =~= line);
    if !comment && cur_start < end {
        toks.push((cur_start, end));
        assert(ranges_text(text@, toks@) =~= lex_fold(line).toks.push(lex_fold(line).cur));
    }
    toks
}

} // verus!

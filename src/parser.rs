//! Reading programs and startup memory from text.
//!
//! A program has one operation per line, its words separated by blanks:
//! `ldi <reg> <const>`, `ldr <reg> <addr>`, `str <reg> <addr>`,
//! `add|sub|mul <dst> <src1> <src2>`. A line whose first word is `;`
//! commits the operations gathered since the previous one as an
//! instruction; blank lines and lines starting with `#` are ignored.
//! Startup memory has one cell per line: `<addr> <symbol>`, where the symbol
//! is the rest of the line after the first space.

use std::collections::HashMap;

use crate::expr::{is_digit, read_numeral, ExprWrapper, Poly};
use crate::instruction::Instruction;
use crate::types::{Addr, Const, Reg};
use vstd::prelude::*;

verus! {

/// Splits `s` at `'\n'`: the lines ended so far, and the line being read.
pub open spec fn split_lines(s: Seq<char>) -> (Seq<Seq<char>>, Seq<char>)
    decreases s.len(),
{
    if s.len() == 0 {
        (Seq::empty(), Seq::empty())
    } else {
        let (done, cur) = split_lines(s.drop_last());
        if s.last() == '\n' {
            (done.push(cur), Seq::empty())
        } else {
            (done, cur.push(s.last()))
        }
    }
}

/// The lines of `s`; the text after the last `'\n'` is a line too.
pub open spec fn lines(s: Seq<char>) -> Seq<Seq<char>> {
    split_lines(s).0.push(split_lines(s).1)
}

pub open spec fn is_blank(c: char) -> bool {
    c == ' ' || c == '\t' || c == '\r'
}

/// Splits `s` at blanks: the words ended so far, and the word being read.
pub open spec fn split_words(s: Seq<char>) -> (Seq<Seq<char>>, Seq<char>)
    decreases s.len(),
{
    if s.len() == 0 {
        (Seq::empty(), Seq::empty())
    } else {
        let (done, cur) = split_words(s.drop_last());
        if !is_blank(s.last()) {
            (done, cur.push(s.last()))
        } else if cur.len() > 0 {
            (done.push(cur), Seq::empty())
        } else {
            (done, Seq::empty())
        }
    }
}

/// The non-empty blank-separated words of `s`.
pub open spec fn words(s: Seq<char>) -> Seq<Seq<char>> {
    let (done, cur) = split_words(s);
    if cur.len() > 0 {
        done.push(cur)
    } else {
        done
    }
}

pub open spec fn char_views(v: Seq<Vec<char>>) -> Seq<Seq<char>> {
    v.map_values(|w: Vec<char>| w@)
}

/// The lines of `text`, as characters.
fn text_lines(text: &str) -> (r: Vec<Vec<char>>)
    ensures
        char_views(r@) == lines(text@),
{
    broadcast use vstd::string::group_string_axioms;

    let mut done: Vec<Vec<char>> = Vec::new();
    let mut cur: Vec<char> = Vec::new();
    for c in it: text.chars()
        invariant
            it.seq() == text@,
            (char_views(done@), cur@) == split_lines(text@.take(it.index() as int)),
    {
        let ghost seen = text@.take(it.index() as int);
        assert(text@.take(it.index() as int + 1).drop_last() =~= seen);
        if c == '\n' {
            let line = cur;
            let ghost before = done@;
            done.push(line);
            assert(char_views(done@) =~= char_views(before).push(line@));
            cur = Vec::new();
        } else {
            cur.push(c);
        }
    }
    assert(text@.take(text@.len() as int) =~= text@);
    let ghost before = done@;
    done.push(cur);
    assert(char_views(done@) =~= char_views(before).push(split_lines(text@).1));
    done
}

/// The words of `line`.
fn line_words(line: &Vec<char>) -> (r: Vec<Vec<char>>)
    ensures
        char_views(r@) == words(line@),
{
    let mut done: Vec<Vec<char>> = Vec::new();
    let mut cur: Vec<char> = Vec::new();
    let n = line.len();
    let mut i: usize = 0;
    while i < n
        invariant
            i <= n,
            n == line@.len(),
            (char_views(done@), cur@) == split_words(line@.take(i as int)),
        decreases n - i,
    {
        let c = line[i];
        assert(line@.take(i as int + 1).drop_last() =~= line@.take(i as int));
        if !(c == ' ' || c == '\t' || c == '\r') {
            cur.push(c);
        } else if cur.len() > 0 {
            let word = cur;
            let ghost before = done@;
            done.push(word);
            assert(char_views(done@) =~= char_views(before).push(word@));
            cur = Vec::new();
        } else {
            cur = Vec::new();
        }
        i = i + 1;
    }
    assert(line@.take(n as int) =~= line@);
    if cur.len() > 0 {
        let ghost before = done@;
        let ghost last = cur@;
        done.push(cur);
        assert(char_views(done@) =~= char_views(before).push(last));
    }
    done
}

/// The digits of a numeral: what follows an optional leading `+`.
pub open spec fn numeral_digits(w: Seq<char>) -> Seq<char> {
    if w.len() > 0 && w[0] == '+' {
        w.drop_first()
    } else {
        w
    }
}

/// A word read as a `u32`, as `u32::from_str` reads it: an optional `+`,
/// then one or more decimal digits, with a value of at most `u32::MAX`.
pub open spec fn numeral(w: Seq<char>) -> Option<u32> {
    let d = numeral_digits(w);
    if d.len() > 0 && (forall|i: int| 0 <= i < d.len() ==> is_digit(#[trigger] d[i])) && read_numeral(d) <= u32::MAX {
        Some(read_numeral(d) as u32)
    } else {
        None
    }
}

proof fn lemma_digits_grow(d: Seq<char>, k: int)
    requires
        0 <= k <= d.len(),
    ensures
        read_numeral(d.take(k)) <= read_numeral(d),
    decreases d.len(),
{
    if k == d.len() {
        assert(d.take(k) =~= d);
    } else {
        lemma_digits_grow(d.drop_last(), k);
        assert(d.drop_last().take(k) =~= d.take(k));
    }
}

/// Reads a word as a `u32`.
fn parse_u32(w: &Vec<char>) -> (r: Option<u32>)
    ensures
        r == numeral(w@),
{
    let n = w.len();
    let start: usize = if n > 0 && w[0] == '+' { 1 } else { 0 };
    let ghost d = numeral_digits(w@);
    assert(d =~= w@.subrange(start as int, n as int));
    if start == n {
        return None;
    }
    let mut acc: u64 = 0;
    let mut i: usize = start;
    while i < n
        invariant
            start <= i <= n,
            start < n,
            n == w@.len(),
            d == w@.subrange(start as int, n as int),
            d == numeral_digits(w@),
            acc == read_numeral(d.take(i - start)),
            acc <= u32::MAX,
            forall|j: int| 0 <= j < i - start ==> is_digit(#[trigger] d[j]),
        decreases n - i,
    {
        let c = w[i];
        if !('0' <= c && c <= '9') {
            assert(!is_digit(d[i - start]));
            return None;
        }
        assert(d.take(i - start + 1).drop_last() =~= d.take(i - start));
        acc = acc * 10 + ((c as u32 - '0' as u32) as u64);
        if acc > u32::MAX as u64 {
            proof {
                lemma_digits_grow(d, i - start + 1);
            }
            return None;
        }
        i = i + 1;
    }
    assert(d.take(n - start) =~= d);
    Some(acc as u32)
}

/// Why a text could not be read. Lines are counted from 1.
#[derive(Debug, Clone, Copy, PartialEq, Eq, Structural)]
pub enum ParseError {
    /// The first word of the line names no operation.
    InvalidOperation { line: usize },
    /// The operation has the wrong number of operands.
    InvalidOperands { line: usize },
    /// An operand or an address is not a 32-bit unsigned number.
    InvalidNumber { line: usize },
    /// Operations follow the last `;`.
    MissingSemicolon,
    /// A memory line has no space between address and value.
    MissingValue { line: usize },
}

pub open spec fn empty_instruction() -> Instruction {
    Instruction { ldi: None, ldr: None, str: None, add: None, sub: None, mul: None }
}

/// The instruction being gathered, or a bubble if none is.
pub open spec fn gathered(cur: Option<Instruction>) -> Instruction {
    match cur {
        Some(i) => i,
        None => empty_instruction(),
    }
}

pub open spec fn two_numbers(w: Seq<Seq<char>>) -> Option<(u32, u32)> {
    match (numeral(w[1]), numeral(w[2])) {
        (Some(a), Some(b)) => Some((a, b)),
        _ => None,
    }
}

pub open spec fn three_regs(w: Seq<Seq<char>>) -> Option<(Reg, Reg, Reg)> {
    match (numeral(w[1]), numeral(w[2]), numeral(w[3])) {
        (Some(a), Some(b), Some(c)) => Some((Reg(a), Reg(b), Reg(c))),
        _ => None,
    }
}

/// Reading state: the instructions committed, and the one being gathered.
pub open spec fn program_line(
    st: (Seq<Instruction>, Option<Instruction>),
    line: Seq<char>,
    num: usize,
) -> Result<(Seq<Instruction>, Option<Instruction>), ParseError> {
    let w = words(line);
    let inst = gathered(st.1);
    if w.len() == 0 || (w[0].len() > 0 && w[0][0] == '#') {
        Ok(st)
    } else if w[0] == seq![';'] {
        Ok((st.0.push(inst), None))
    } else if w[0] == seq!['l', 'd', 'i'] || w[0] == seq!['l', 'd', 'r'] || w[0] == seq!['s', 't', 'r'] {
        if w.len() != 3 {
            Err(ParseError::InvalidOperands { line: num })
        } else {
            match two_numbers(w) {
                None => Err(ParseError::InvalidNumber { line: num }),
                Some((a, b)) => Ok((
                    st.0,
                    Some(
                        if w[0] == seq!['l', 'd', 'i'] {
                            Instruction { ldi: Some((Reg(a), Const(b))), ..inst }
                        } else if w[0] == seq!['l', 'd', 'r'] {
                            Instruction { ldr: Some((Reg(a), Addr(b))), ..inst }
                        } else {
                            Instruction { str: Some((Reg(a), Addr(b))), ..inst }
                        },
                    ),
                )),
            }
        }
    } else if w[0] == seq!['a', 'd', 'd'] || w[0] == seq!['s', 'u', 'b'] || w[0] == seq!['m', 'u', 'l'] {
        if w.len() != 4 {
            Err(ParseError::InvalidOperands { line: num })
        } else {
            match three_regs(w) {
                None => Err(ParseError::InvalidNumber { line: num }),
                Some(regs) => Ok((
                    st.0,
                    Some(
                        if w[0] == seq!['a', 'd', 'd'] {
                            Instruction { add: Some(regs), ..inst }
                        } else if w[0] == seq!['s', 'u', 'b'] {
                            Instruction { sub: Some(regs), ..inst }
                        } else {
                            Instruction { mul: Some(regs), ..inst }
                        },
                    ),
                )),
            }
        }
    } else {
        Err(ParseError::InvalidOperation { line: num })
    }
}

/// Reading the lines `ls` in order; the last one is line number `ls.len()`.
pub open spec fn program_lines(ls: Seq<Seq<char>>) -> Result<(Seq<Instruction>, Option<Instruction>), ParseError>
    decreases ls.len(),
{
    if ls.len() == 0 {
        Ok((Seq::empty(), None))
    } else {
        match program_lines(ls.drop_last()) {
            Err(e) => Err(e),
            Ok(st) => program_line(st, ls.last(), ls.len() as usize),
        }
    }
}

/// The program that `text` holds.
pub open spec fn program_of(text: Seq<char>) -> Result<Seq<Instruction>, ParseError> {
    match program_lines(lines(text)) {
        Err(e) => Err(e),
        Ok((p, cur)) => if cur is Some {
            Err(ParseError::MissingSemicolon)
        } else {
            Ok(p)
        },
    }
}

fn is_word1(w: &Vec<char>, a: char) -> (r: bool)
    ensures
        r == (w@ == seq![a]),
{
    let r = w.len() == 1 && w[0] == a;
    if r {
        assert(w@ =~= seq![a]);
    }
    r
}

fn is_word3(w: &Vec<char>, a: char, b: char, c: char) -> (r: bool)
    ensures
        r == (w@ == seq![a, b, c]),
{
    let r = w.len() == 3 && w[0] == a && w[1] == b && w[2] == c;
    if r {
        assert(w@ =~= seq![a, b, c]);
    }
    r
}

/// Reads line number `num` of a program.
fn read_program_line(
    prog: &mut Vec<Instruction>,
    cur: &mut Option<Instruction>,
    line: &Vec<char>,
    num: usize,
) -> (r: Result<(), ParseError>)
    ensures
        match program_line((old(prog)@, *old(cur)), line@, num) {
            Ok(st) => r is Ok && (final(prog)@, *final(cur)) == st,
            Err(e) => r == Err::<(), ParseError>(e),
        },
{
    let w = line_words(line);
    let ghost ws = words(line@);
    assert(forall|k: int| 0 <= k < w@.len() ==> #[trigger] w@[k]@ == ws[k]);
    let inst = match *cur {
        Some(i) => i,
        None => Instruction::new(),
    };
    if w.len() == 0 || (w[0].len() > 0 && w[0][0] == '#') {
        return Ok(());
    }
    assert(w@[0]@ == ws[0]);
    if is_word1(&w[0], ';') {
        prog.push(inst);
        *cur = None;
        return Ok(());
    }
    let is_ldi = is_word3(&w[0], 'l', 'd', 'i');
    let is_ldr = is_word3(&w[0], 'l', 'd', 'r');
    let is_str = is_word3(&w[0], 's', 't', 'r');
    if is_ldi || is_ldr || is_str {
        if w.len() != 3 {
            return Err(ParseError::InvalidOperands { line: num });
        }
        assert(w@[1]@ == ws[1]);
        assert(w@[2]@ == ws[2]);
        let a = parse_u32(&w[1]);
        let b = parse_u32(&w[2]);
        match (a, b) {
            (Some(a), Some(b)) => {
                *cur = Some(
                    if is_ldi {
                        inst.with_ldi(Reg(a), Const(b))
                    } else if is_ldr {
                        inst.with_ldr(Reg(a), Addr(b))
                    } else {
                        inst.with_str(Reg(a), Addr(b))
                    },
                );
                return Ok(());
            },
            _ => return Err(ParseError::InvalidNumber { line: num }),
        }
    }
    let is_add = is_word3(&w[0], 'a', 'd', 'd');
    let is_sub = is_word3(&w[0], 's', 'u', 'b');
    let is_mul = is_word3(&w[0], 'm', 'u', 'l');
    if is_add || is_sub || is_mul {
        if w.len() != 4 {
            return Err(ParseError::InvalidOperands { line: num });
        }
        assert(w@[1]@ == ws[1]);
        assert(w@[2]@ == ws[2]);
        assert(w@[3]@ == ws[3]);
        let a = parse_u32(&w[1]);
        let b = parse_u32(&w[2]);
        let c = parse_u32(&w[3]);
        match (a, b, c) {
            (Some(a), Some(b), Some(c)) => {
                *cur = Some(
                    if is_add {
                        inst.with_add(Reg(a), Reg(b), Reg(c))
                    } else if is_sub {
                        inst.with_sub(Reg(a), Reg(b), Reg(c))
                    } else {
                        inst.with_mul(Reg(a), Reg(b), Reg(c))
                    },
                );
                return Ok(());
            },
            _ => return Err(ParseError::InvalidNumber { line: num }),
        }
    }
    Err(ParseError::InvalidOperation { line: num })
}

/// Reads a program: one instruction for every `;` line, gathering the
/// operations on the lines before it.
pub fn parse_program(text: &str) -> (r: Result<Vec<Instruction>, ParseError>)
    ensures
        match program_of(text@) {
            Ok(p) => r matches Ok(v) && v@ == p,
            Err(e) => r == Err::<Vec<Instruction>, ParseError>(e),
        },
{
    let ls = text_lines(text);
    let ghost lv = char_views(ls@);
    let mut prog: Vec<Instruction> = Vec::new();
    let mut cur: Option<Instruction> = None;
    let n = ls.len();
    let mut i: usize = 0;
    while i < n
        invariant
            i <= n,
            n == ls@.len(),
            lv == char_views(ls@),
            lv == lines(text@),
            program_lines(lv.take(i as int)) == Ok::<(Seq<Instruction>, Option<Instruction>), ParseError>((prog@, cur)),
        decreases n - i,
    {
        assert(lv.take(i as int + 1).drop_last() =~= lv.take(i as int));
        assert(lv.take(i as int + 1).last() == ls@[i as int]@);
        match read_program_line(&mut prog, &mut cur, &ls[i], i + 1) {
            Ok(()) => {},
            Err(e) => {
                proof {
                    lemma_program_stops(lv, i as int + 1);
                }
                return Err(e);
            },
        }
        i = i + 1;
    }
    assert(lv.take(n as int) =~= lv);
    if cur.is_some() {
        return Err(ParseError::MissingSemicolon);
    }
    Ok(prog)
}

/// Once a line fails, reading fails with that line's error.
proof fn lemma_program_stops(ls: Seq<Seq<char>>, i: int)
    requires
        0 <= i <= ls.len(),
        program_lines(ls.take(i)) is Err,
    ensures
        program_lines(ls) == program_lines(ls.take(i)),
    decreases ls.len() - i,
{
    if i < ls.len() {
        assert(ls.take(i + 1).drop_last() =~= ls.take(i));
        lemma_program_stops(ls, i + 1);
    } else {
        assert(ls.take(i) =~= ls);
    }
}

/// Index of the first space in `s`; -1 if there is none.
pub open spec fn first_space(s: Seq<char>) -> int
    decreases s.len(),
{
    if s.len() == 0 {
        -1
    } else if first_space(s.drop_last()) >= 0 {
        first_space(s.drop_last())
    } else if s.last() == ' ' {
        s.len() - 1
    } else {
        -1
    }
}

/// A line without the `'\r'` of a CRLF line end.
pub open spec fn trim_cr(s: Seq<char>) -> Seq<char> {
    if s.len() > 0 && s.last() == '\r' {
        s.drop_last()
    } else {
        s
    }
}

/// Line number `num` of a memory text: `<addr> <symbol>`; empty lines hold
/// nothing.
pub open spec fn memory_line(mem: Map<u32, Poly>, line: Seq<char>, num: usize) -> Result<Map<u32, Poly>, ParseError> {
    let l = trim_cr(line);
    let k = first_space(l);
    if l.len() == 0 {
        Ok(mem)
    } else if k < 0 {
        Err(ParseError::MissingValue { line: num })
    } else {
        match numeral(l.take(k)) {
            None => Err(ParseError::InvalidNumber { line: num }),
            Some(a) => Ok(mem.insert(a, Poly::Var(l.skip(k + 1)))),
        }
    }
}

pub open spec fn memory_lines(ls: Seq<Seq<char>>) -> Result<Map<u32, Poly>, ParseError>
    decreases ls.len(),
{
    if ls.len() == 0 {
        Ok(Map::empty())
    } else {
        match memory_lines(ls.drop_last()) {
            Err(e) => Err(e),
            Ok(mem) => memory_line(mem, ls.last(), ls.len() as usize),
        }
    }
}

/// The memory that `text` describes; a later line for an address replaces
/// an earlier one.
pub open spec fn memory_of(text: Seq<char>) -> Result<Map<u32, Poly>, ParseError> {
    memory_lines(lines(text))
}

/// Relies on `String::push`: appends one character.
#[verifier::external_body]
fn push_char(s: &mut String, c: char)
    ensures
        final(s)@ == old(s)@.push(c),
{
    s.push(c);
}

/// The characters `v[from..to]` as a string.
fn chars_to_string(v: &Vec<char>, from: usize, to: usize) -> (r: String)
    requires
        from <= to <= v@.len(),
    ensures
        r@ == v@.subrange(from as int, to as int),
{
    let mut s = String::new();
    let mut i: usize = from;
    while i < to
        invariant
            from <= i <= to,
            to <= v@.len(),
            s@ == v@.subrange(from as int, i as int),
        decreases to - i,
    {
        push_char(&mut s, v[i]);
        assert(v@.subrange(from as int, i as int + 1) =~= v@.subrange(from as int, i as int).push(v@[i as int]));
        i = i + 1;
    }
    s
}

pub open spec fn memory_view(m: Map<u32, ExprWrapper>) -> Map<u32, Poly> {
    m.map_values(|e: ExprWrapper| e@)
}

/// Reads line number `num` of a memory text into `mem`.
fn read_memory_line(mem: &mut HashMap<u32, ExprWrapper>, line: &Vec<char>, num: usize) -> (r: Result<(), ParseError>)
    ensures
        match memory_line(memory_view(old(mem)@), line@, num) {
            Ok(m) => r is Ok && memory_view(final(mem)@) == m,
            Err(e) => r == Err::<(), ParseError>(e),
        },
{
    broadcast use vstd::std_specs::hash::group_hash_axioms;

    let mut n = line.len();
    if n > 0 && line[n - 1] == '\r' {
        n = n - 1;
    }
    let ghost l = trim_cr(line@);
    assert(l =~= line@.take(n as int));
    if n == 0 {
        return Ok(());
    }
    let mut k: usize = 0;
    while k < n && line[k] != ' '
        invariant
            k <= n,
            n <= line@.len(),
            l == line@.take(n as int),
            first_space(l.take(k as int)) == -1,
        decreases n - k,
    {
        assert(l.take(k as int + 1).drop_last() =~= l.take(k as int));
        k = k + 1;
    }
    if k == n {
        assert(l.take(n as int) =~= l);
        return Err(ParseError::MissingValue { line: num });
    }
    proof {
        lemma_first_space(l, k as int);
    }
    let mut addr_chars: Vec<char> = Vec::new();
    let mut j: usize = 0;
    while j < k
        invariant
            j <= k,
            k < n,
            n <= line@.len(),
            addr_chars@ == line@.take(j as int),
        decreases k - j,
    {
        addr_chars.push(line[j]);
        assert(line@.take(j as int + 1) =~= line@.take(j as int).push(line@[j as int]));
        j = j + 1;
    }
    assert(addr_chars@ =~= l.take(k as int));
    match parse_u32(&addr_chars) {
        None => Err(ParseError::InvalidNumber { line: num }),
        Some(a) => {
            let symbol = chars_to_string(line, k + 1, n);
            assert(symbol@ =~= l.skip(k as int + 1));
            let ghost before = mem@;
            let value = ExprWrapper::from_symbolic_variable(symbol);
            mem.insert(a, value);
            assert(memory_view(mem@) =~= memory_view(before).insert(a, Poly::Var(l.skip(k as int + 1))));
            Ok(())
        },
    }
}

/// The first space of `l` is at `k` when none comes before it.
proof fn lemma_first_space(l: Seq<char>, k: int)
    requires
        0 <= k < l.len(),
        l[k] == ' ',
        first_space(l.take(k)) == -1,
    ensures
        first_space(l) == k,
    decreases l.len(),
{
    if l.len() == k + 1 {
        assert(l.drop_last() =~= l.take(k));
    } else {
        assert(l.drop_last().take(k) =~= l.take(k));
        lemma_first_space(l.drop_last(), k);
    }
}

/// Reads startup memory: one `<addr> <symbol>` cell per line.
pub fn parse_startup_memory(text: &str) -> (r: Result<HashMap<u32, ExprWrapper>, ParseError>)
    ensures
        match memory_of(text@) {
            Ok(m) => r matches Ok(h) && memory_view(h@) == m,
            Err(e) => r is Err && r->Err_0 == e,
        },
{
    broadcast use vstd::std_specs::hash::group_hash_axioms;

    let ls = text_lines(text);
    let ghost lv = char_views(ls@);
    let mut mem: HashMap<u32, ExprWrapper> = HashMap::new();
    assert(memory_view(mem@) =~= Map::empty());
    let n = ls.len();
    let mut i: usize = 0;
    while i < n
        invariant
            i <= n,
            n == ls@.len(),
            lv == char_views(ls@),
            lv == lines(text@),
            memory_lines(lv.take(i as int)) == Ok::<Map<u32, Poly>, ParseError>(memory_view(mem@)),
        decreases n - i,
    {
        assert(lv.take(i as int + 1).drop_last() =~= lv.take(i as int));
        assert(lv.take(i as int + 1).last() == ls@[i as int]@);
        match read_memory_line(&mut mem, &ls[i], i + 1) {
            Ok(()) => {},
            Err(e) => {
                proof {
                    lemma_memory_stops(lv, i as int + 1);
                }
                return Err(e);
            },
        }
        i = i + 1;
    }
    assert(lv.take(n as int) =~= lv);
    Ok(mem)
}

/// Once a line fails, reading fails with that line's error.
proof fn lemma_memory_stops(ls: Seq<Seq<char>>, i: int)
    requires
        0 <= i <= ls.len(),
        memory_lines(ls.take(i)) is Err,
    ensures
        memory_lines(ls) == memory_lines(ls.take(i)),
    decreases ls.len() - i,
{
    if i < ls.len() {
        assert(ls.take(i + 1).drop_last() =~= ls.take(i));
        lemma_memory_stops(ls, i + 1);
    } else {
        assert(ls.take(i) =~= ls);
    }
}

} // verus!

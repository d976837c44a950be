//! The assembly text form: rendering instruction sequences to text and
//! parsing them back.
//!
//! Text is whitespace-separated tokens.  A zero-operand instruction is its
//! mnemonic; an instruction with an immediate is its mnemonic followed by a
//! `0x` hex literal; an unrecognized byte is `UNKNOWN` followed by a `0x`
//! byte literal, and parsing also accepts the bare literal.  The legacy
//! alias `KECCAK256` is rewritten to `SHA3` before lookup.

use vstd::prelude::*;

use crate::opcode::{InstructionSequence, OpCode, OpModel};
use crate::table::{lemma_mn_find_some, mn_find, TableModel};
use vstd::string::{StrSliceExecFns, StringExecFns};

verus! {

/// A failure of the text parser.  Each variant carries the index of the
/// offending token in the whitespace-split token list.
#[derive(Debug, PartialEq, Eq)]
pub enum TextError {
    /// A hex literal of the wrong length (or a missing one) for the
    /// mnemonic before it.
    BadHexSizeFor(usize),
    /// A literal without the `0x` prefix where one is required.
    BadHexFor(usize),
    /// A non-hex character: the token index, the literal, and the offset of
    /// the rightmost bad character within it.
    BadHexAt(usize, String, usize),
    /// A token that is neither a known mnemonic nor a byte literal.
    UnknownInstruction(usize, String),
}

/// The mathematical model of a [`TextError`].
pub enum TextErrModel {
    BadHexSizeFor(int),
    BadHexFor(int),
    BadHexAt(int, Seq<char>, int),
    UnknownInstruction(int, Seq<char>),
}

impl View for TextError {
    type V = TextErrModel;

    open spec fn view(&self) -> TextErrModel {
        match self {
            TextError::BadHexSizeFor(i) => TextErrModel::BadHexSizeFor(*i as int),
            TextError::BadHexFor(i) => TextErrModel::BadHexFor(*i as int),
            TextError::BadHexAt(i, p, o) => TextErrModel::BadHexAt(*i as int, p@, *o as int),
            TextError::UnknownInstruction(i, s) => TextErrModel::UnknownInstruction(*i as int, s@),
        }
    }
}

/// The sixteen lowercase hex digit characters, indexed by value.
pub open spec fn hex_digit(d: int) -> char {
    seq!['0', '1', '2', '3', '4', '5', '6', '7', '8', '9', 'a', 'b', 'c', 'd', 'e', 'f'][d]
}

/// Two lowercase digits for one byte.
pub open spec fn hex_byte_chars(b: u8) -> Seq<char> {
    seq![hex_digit(b as int / 16), hex_digit(b as int % 16)]
}

/// The digits of a byte string, two per byte.
pub open spec fn hex_chars(bs: Seq<u8>) -> Seq<char>
    decreases bs.len(),
{
    if bs.len() == 0 {
        Seq::empty()
    } else {
        hex_byte_chars(bs[0]) + hex_chars(bs.subrange(1, bs.len() as int))
    }
}

/// A byte in minimal-width hex: one digit below 16, two otherwise.
pub open spec fn short_hex_chars(b: u8) -> Seq<char> {
    if b < 16 {
        seq![hex_digit(b as int)]
    } else {
        hex_byte_chars(b)
    }
}

/// The text of one instruction, without its line break.
pub open spec fn render_op(op: OpModel) -> Seq<char> {
    match op {
        OpModel::Fixed(m) => m,
        OpModel::WithImmediate(m, iv) => m + " 0x"@ + hex_chars(iv),
        OpModel::Unrecognized(v) => "UNKNOWN 0x"@ + short_hex_chars(v),
    }
}

/// The text of a sequence: one instruction per line, each line ended.
pub open spec fn render_seq(s: Seq<OpModel>) -> Seq<char>
    decreases s.len(),
{
    if s.len() == 0 {
        Seq::empty()
    } else {
        render_op(s[0]) + "\n"@ + render_seq(s.subrange(1, s.len() as int))
    }
}

/// Appending one instruction appends its line.
proof fn lemma_render_seq_push(s: Seq<OpModel>, op: OpModel)
    ensures
        render_seq(s.push(op)) == render_seq(s) + render_op(op) + "\n"@,
    decreases s.len(),
{
    let sp = s.push(op);
    if s.len() == 0 {
        assert(sp[0] == op);
        assert(sp.subrange(1, sp.len() as int) =~= Seq::<OpModel>::empty());
        assert(render_seq(Seq::<OpModel>::empty()) == Seq::<char>::empty());
        assert(render_seq(sp) == render_op(op) + "\n"@ + Seq::<char>::empty());
        assert(render_op(op) + "\n"@ + Seq::<char>::empty() =~= render_seq(s) + render_op(op)
            + "\n"@);
    } else {
        let tail = s.subrange(1, s.len() as int);
        assert(sp[0] == s[0]);
        assert(sp.subrange(1, sp.len() as int) =~= tail.push(op));
        lemma_render_seq_push(tail, op);
        assert(render_seq(sp) == render_op(s[0]) + "\n"@ + render_seq(tail.push(op)));
        assert(render_seq(s) == render_op(s[0]) + "\n"@ + render_seq(tail));
        assert(render_op(s[0]) + "\n"@ + (render_seq(tail) + render_op(op) + "\n"@) =~= render_op(
            s[0],
        ) + "\n"@ + render_seq(tail) + render_op(op) + "\n"@);
    }
}

/// Splitting on the digits of a byte string, one byte at a time.
proof fn lemma_hex_chars_push(bs: Seq<u8>, b: u8)
    ensures
        hex_chars(bs.push(b)) == hex_chars(bs) + hex_byte_chars(b),
    decreases bs.len(),
{
    let bp = bs.push(b);
    if bs.len() == 0 {
        assert(bp[0] == b);
        assert(bp.subrange(1, bp.len() as int) =~= Seq::<u8>::empty());
        assert(hex_chars(Seq::<u8>::empty()) == Seq::<char>::empty());
        assert(hex_chars(bp) == hex_byte_chars(b) + Seq::<char>::empty());
        assert(hex_byte_chars(b) + Seq::<char>::empty() =~= hex_chars(bs) + hex_byte_chars(b));
    } else {
        let tail = bs.subrange(1, bs.len() as int);
        assert(bp[0] == bs[0]);
        assert(bp.subrange(1, bp.len() as int) =~= tail.push(b));
        lemma_hex_chars_push(tail, b);
        assert(hex_chars(bp) == hex_byte_chars(bs[0]) + hex_chars(tail.push(b)));
        assert(hex_chars(bs) == hex_byte_chars(bs[0]) + hex_chars(tail));
        assert(hex_byte_chars(bs[0]) + (hex_chars(tail) + hex_byte_chars(b)) =~= hex_byte_chars(
            bs[0],
        ) + hex_chars(tail) + hex_byte_chars(b));
    }
}

/// ASCII whitespace, the token separators of the text form.
pub open spec fn is_space(c: char) -> bool {
    c == ' ' || c == '\t' || c == '\n' || c == '\r' || c == '\u{b}' || c == '\u{c}'
}

/// A hex digit, either case.
pub open spec fn is_hex_digit(c: char) -> bool {
    let u = c as u32;
    (48 <= u && u <= 57) || (97 <= u && u <= 102) || (65 <= u && u <= 70)
}

/// The value of a hex digit (zero on other characters).
pub open spec fn hex_val(c: char) -> int {
    let u = c as u32;
    if 48 <= u && u <= 57 {
        u - 48
    } else if 97 <= u && u <= 102 {
        u - 87
    } else if 65 <= u && u <= 70 {
        u - 55
    } else {
        0
    }
}

/// The tokens of `s` preceded by the partial token `cur` already read.
pub open spec fn tokenize_acc(s: Seq<char>, cur: Seq<char>) -> Seq<Seq<char>>
    decreases s.len(),
{
    if s.len() == 0 {
        if cur.len() == 0 {
            Seq::empty()
        } else {
            seq![cur]
        }
    } else if is_space(s[0]) {
        (if cur.len() == 0 {
            Seq::empty()
        } else {
            seq![cur]
        }) + tokenize_acc(s.skip(1), Seq::empty())
    } else {
        tokenize_acc(s.skip(1), cur.push(s[0]))
    }
}

/// The whitespace-split tokens of a text.
pub open spec fn tokens_of(s: Seq<char>) -> Seq<Seq<char>> {
    tokenize_acc(s, Seq::empty())
}

/// The legacy alias: `KECCAK256` reads as the canonical `SHA3`.
pub open spec fn alias_token(tok: Seq<char>) -> Seq<char> {
    if tok == "KECCAK256"@ {
        "SHA3"@
    } else {
        tok
    }
}

/// The token list after alias rewriting.
pub open spec fn alias_tokens(toks: Seq<Seq<char>>) -> Seq<Seq<char>> {
    toks.map_values(|tok: Seq<char>| alias_token(tok))
}

/// The index of the rightmost non-hex character of `p` at or before `i`,
/// never looking into the two prefix characters; `-1` when there is none.
pub open spec fn rightmost_non_hex(p: Seq<char>, i: int) -> int
    decreases i,
{
    if i < 2 {
        -1
    } else if !is_hex_digit(p[i]) {
        i
    } else {
        rightmost_non_hex(p, i - 1)
    }
}

/// The `n`-byte immediate a digit string denotes: digits fill bytes from
/// the right, two per byte, the unfilled high bytes zero — a big-endian
/// value right-aligned in the buffer.
pub open spec fn imm_of(digits: Seq<char>, n: int) -> Seq<u8>
    decreases n,
{
    if n <= 0 {
        Seq::empty()
    } else {
        let k = digits.len() as int;
        let last: u8 = if k >= 2 {
            (hex_val(digits[k - 2]) * 16 + hex_val(digits[k - 1])) as u8
        } else if k == 1 {
            hex_val(digits[0]) as u8
        } else {
            0u8
        };
        let front = if k >= 2 {
            digits.take(k - 2)
        } else {
            Seq::<char>::empty()
        };
        imm_of(front, n - 1).push(last)
    }
}

/// An immediate has exactly the declared size.
pub proof fn lemma_imm_of_len(digits: Seq<char>, n: int)
    requires
        n >= 0,
    ensures
        imm_of(digits, n).len() == n,
    decreases n,
{
    if n > 0 {
        let k = digits.len() as int;
        let front = if k >= 2 {
            digits.take(k - 2)
        } else {
            Seq::<char>::empty()
        };
        lemma_imm_of_len(front, n - 1);
    }
}

/// With no digits left, the remaining bytes are zero.
proof fn lemma_imm_of_empty(n: int)
    requires
        n >= 0,
    ensures
        imm_of(Seq::<char>::empty(), n).len() == n,
        forall|q: int| 0 <= q < n ==> imm_of(Seq::<char>::empty(), n)[q] == 0u8,
    decreases n,
{
    if n > 0 {
        lemma_imm_of_empty(n - 1);
    }
}

/// A non-hex character with only hex characters to its right is the
/// rightmost non-hex character.
proof fn lemma_rightmost_found(p: Seq<char>, i: int, bad: int)
    requires
        2 <= bad <= i,
        !is_hex_digit(p[bad]),
        forall|j: int| bad < j <= i ==> is_hex_digit(#[trigger] p[j]),
    ensures
        rightmost_non_hex(p, i) == bad,
    decreases i,
{
    if i > bad {
        lemma_rightmost_found(p, i - 1, bad);
    }
}

/// Only hex characters means no rightmost non-hex character.
proof fn lemma_rightmost_none(p: Seq<char>, i: int)
    requires
        forall|j: int| 2 <= j <= i ==> is_hex_digit(#[trigger] p[j]),
    ensures
        rightmost_non_hex(p, i) == -1,
    decreases i,
{
    if i >= 2 {
        lemma_rightmost_none(p, i - 1);
    }
}

/// What parsing the aliased token list from position `i` yields.
///
/// A token that resolves as a zero-operand mnemonic stands alone; one that
/// resolves with an immediate of size `n` must be followed by a `0x` literal
/// of one to `2n` digits, read right-aligned.  Any other token, optionally
/// preceded by the keyword `UNKNOWN`, must be `0x` plus one or two hex
/// digits and yields that unrecognized byte.  Errors carry the index of the
/// offending token; a literal missing at the end of the input is reported
/// at the index where it was expected.
pub open spec fn spec_parse_tokens(
    t: TableModel,
    toks: Seq<Seq<char>>,
    i: int,
) -> Result<Seq<OpModel>, TextErrModel>
    decreases toks.len() - i,
{
    if i < 0 || i >= toks.len() {
        Ok(Seq::empty())
    } else {
        let tok = toks[i];
        match mn_find(t, tok) {
            Some(v) => {
                let n = t[v as int]->0.immediate_size as int;
                if n == 0 {
                    match spec_parse_tokens(t, toks, i + 1) {
                        Ok(rest) => Ok(seq![OpModel::Fixed(tok)] + rest),
                        Err(er) => Err(er),
                    }
                } else if i + 1 >= toks.len() {
                    Err(TextErrModel::BadHexSizeFor(i + 1))
                } else {
                    let p = toks[i + 1];
                    let k = p.len() as int;
                    if !(2 < k && k <= 2 * n + 2) {
                        Err(TextErrModel::BadHexSizeFor(i + 1))
                    } else if !(p[0] == '0' && p[1] == 'x') {
                        Err(TextErrModel::BadHexFor(i + 1))
                    } else if rightmost_non_hex(p, k - 1) >= 2 {
                        Err(TextErrModel::BadHexAt(i + 1, p, rightmost_non_hex(p, k - 1)))
                    } else {
                        match spec_parse_tokens(t, toks, i + 2) {
                            Ok(rest) => Ok(
                                seq![OpModel::WithImmediate(tok, imm_of(p.skip(2), n))] + rest,
                            ),
                            Err(er) => Err(er),
                        }
                    }
                }
            },
            None => {
                let j = if tok == "UNKNOWN"@ {
                    i + 1
                } else {
                    i
                };
                if j >= toks.len() {
                    Err(TextErrModel::UnknownInstruction(j, Seq::empty()))
                } else {
                    let lit = toks[j];
                    let k = lit.len() as int;
                    if !(2 < k && k <= 4) {
                        Err(TextErrModel::UnknownInstruction(j, lit))
                    } else if !(lit[0] == '0' && lit[1] == 'x') {
                        Err(TextErrModel::UnknownInstruction(j, lit))
                    } else if !is_hex_digit(lit[2]) {
                        Err(TextErrModel::UnknownInstruction(j, lit))
                    } else if k == 3 {
                        match spec_parse_tokens(t, toks, j + 1) {
                            Ok(rest) => Ok(
                                seq![OpModel::Unrecognized(hex_val(lit[2]) as u8)] + rest,
                            ),
                            Err(er) => Err(er),
                        }
                    } else if !is_hex_digit(lit[3]) {
                        Err(TextErrModel::UnknownInstruction(j, lit))
                    } else {
                        match spec_parse_tokens(t, toks, j + 1) {
                            Ok(rest) => Ok(
                                seq![
                                    OpModel::Unrecognized(
                                        (hex_val(lit[2]) * 16 + hex_val(lit[3])) as u8,
                                    ),
                                ] + rest,
                            ),
                            Err(er) => Err(er),
                        }
                    }
                }
            },
        }
    }
}

/// Relies on String::push: appends the given character to the string.
#[verifier::external_body]
fn push_char(s: &mut String, c: char)
    ensures
        final(s)@ == old(s)@.push(c),
{
    s.push(c);
}

/// Whether a character separates tokens.
fn is_space_char(c: char) -> (r: bool)
    ensures
        r == is_space(c),
{
    c == ' ' || c == '\t' || c == '\n' || c == '\r' || c == '\u{b}' || c == '\u{c}'
}

/// The value of a hex digit, or nothing.
fn hex_value(c: char) -> (r: Option<u8>)
    ensures
        r is Some <==> is_hex_digit(c),
        r is Some ==> r->0 as int == hex_val(c) && r->0 < 16,
{
    let u = c as u32;
    if 48 <= u && u <= 57 {
        Some((u - 48) as u8)
    } else if 97 <= u && u <= 102 {
        Some((u - 87) as u8)
    } else if 65 <= u && u <= 70 {
        Some((u - 55) as u8)
    } else {
        None
    }
}

/// Split a text into whitespace-separated tokens.
fn tokenize(text: &str) -> (toks: Vec<String>)
    ensures
        toks.deep_view() == tokens_of(text@),
{
    let n = text.unicode_len();
    let mut toks: Vec<String> = Vec::new();
    let mut cur = String::new();
    let mut i: usize = 0;
    proof {
        assert(text@.skip(0) =~= text@);
    }
    while i < n
        invariant
            n == text@.len(),
            i <= n,
            tokens_of(text@) == toks.deep_view() + tokenize_acc(text@.skip(i as int), cur@),
        decreases n - i,
    {
        let ghost s0 = text@.skip(i as int);
        let ghost toks_pre = toks.deep_view();
        let ghost cur_pre = cur@;
        let c = text.get_char(i);
        proof {
            assert(s0[0] == text@[i as int]);
            assert(s0.skip(1) =~= text@.skip(i as int + 1));
        }
        if is_space_char(c) {
            proof {
                assert(tokenize_acc(s0, cur_pre) == (if cur_pre.len() == 0 {
                    Seq::<Seq<char>>::empty()
                } else {
                    seq![cur_pre]
                }) + tokenize_acc(text@.skip(i as int + 1), Seq::empty()));
            }
            if !cur.as_str().is_empty() {
                let ghost curv = cur@;
                toks.push(cur);
                cur = String::new();
                proof {
                    assert(toks.deep_view() =~= toks_pre.push(curv));
                    assert(toks_pre + (seq![curv] + tokenize_acc(
                        text@.skip(i as int + 1),
                        Seq::empty(),
                    )) =~= toks.deep_view() + tokenize_acc(
                        text@.skip(i as int + 1),
                        Seq::empty(),
                    ));
                }
            } else {
                proof {
                    assert(cur@ =~= Seq::<char>::empty());
                    assert(toks_pre + (Seq::<Seq<char>>::empty() + tokenize_acc(
                        text@.skip(i as int + 1),
                        Seq::empty(),
                    )) =~= toks.deep_view() + tokenize_acc(
                        text@.skip(i as int + 1),
                        Seq::empty(),
                    ));
                }
            }
        } else {
            push_char(&mut cur, c);
            proof {
                assert(tokenize_acc(s0, cur_pre) == tokenize_acc(
                    text@.skip(i as int + 1),
                    cur_pre.push(s0[0]),
                ));
                assert(cur@ == cur_pre.push(s0[0]));
            }
        }
        i += 1;
    }
    proof {
        assert(text@.skip(n as int).len() == 0);
    }
    if !cur.as_str().is_empty() {
        let ghost toks_pre = toks.deep_view();
        let ghost curv = cur@;
        toks.push(cur);
        proof {
            assert(toks.deep_view() =~= toks_pre.push(curv));
            assert(toks_pre + seq![curv] =~= toks.deep_view());
        }
    } else {
        proof {
            assert(toks.deep_view() + Seq::<Seq<char>>::empty() =~= toks.deep_view());
        }
    }
    toks
}

/// Parse the digits of a `0x` literal into an `n`-byte immediate, filling
/// from the right; on a non-hex character, the rightmost offending offset.
fn parse_imm(p: &String, n: usize) -> (r: Result<Vec<u8>, usize>)
    requires
        2 < p@.len(),
        p@.len() <= 2 * n + 2,
        1 <= n <= 255,
    ensures
        match r {
            Ok(iv) => {
                &&& rightmost_non_hex(p@, p@.len() - 1) < 2
                &&& iv@ == imm_of(p@.skip(2), n as int)
                &&& iv@.len() == n
            },
            Err(bad) => {
                &&& rightmost_non_hex(p@, p@.len() - 1) == bad
                &&& 2 <= bad < p@.len()
            },
        },
{
    let klen = p.as_str().unicode_len();
    let digcount = klen - 2;
    let ghost digits = p@.skip(2);
    let mut iv: Vec<u8> = Vec::new();
    while iv.len() < n
        invariant
            iv@.len() <= n,
            forall|q: int| 0 <= q < iv@.len() ==> iv@[q] == 0u8,
        decreases n - iv@.len(),
    {
        iv.push(0u8);
    }
    proof {
        lemma_imm_of_len(digits, n as int);
        assert(digits.take(digcount as int) =~= digits);
        assert(iv@.skip(n as int) =~= Seq::<u8>::empty());
        assert(imm_of(digits, n as int) + Seq::<u8>::empty() =~= imm_of(digits, n as int));
    }
    let mut m: usize = 0;
    while 2 * m < digcount
        invariant
            klen == p@.len(),
            2 < klen <= 2 * n + 2,
            digcount == klen - 2,
            1 <= n <= 255,
            digits == p@.skip(2),
            m <= n,
            2 * m <= digcount + 1,
            iv@.len() == n,
            forall|q: int| 0 <= q < n - m ==> iv@[q] == 0u8,
            forall|j: int| klen - 2 * m <= j < klen && 2 <= j ==> is_hex_digit(#[trigger] p@[j]),
            imm_of(digits, n as int) == imm_of(
                digits.take(if digcount >= 2 * m {
                    digcount - 2 * m
                } else {
                    0
                }),
                n - m,
            ) + iv@.skip(n - m),
        decreases digcount + 1 - 2 * m,
    {
        let ghost rem = digcount - 2 * m;
        let il = klen - 1 - 2 * m;
        proof {
            assert(digits[rem - 1] == p@[il as int]);
        }
        let c_lo = p.as_str().get_char(il);
        let lo = match hex_value(c_lo) {
            Some(x) => x,
            None => {
                proof {
                    lemma_rightmost_found(p@, klen - 1, il as int);
                }
                return Err(il);
            },
        };
        let b: u8;
        let ghost consumed_two = 2 * m + 2 <= digcount;
        if 2 * m + 2 <= digcount {
            let ih = il - 1;
            proof {
                assert(digits[rem - 2] == p@[ih as int]);
            }
            let c_hi = p.as_str().get_char(ih);
            let hi = match hex_value(c_hi) {
                Some(x) => x,
                None => {
                    proof {
                        lemma_rightmost_found(p@, klen - 1, ih as int);
                    }
                    return Err(ih);
                },
            };
            b = hi * 16 + lo;
        } else {
            b = lo;
        }
        let ghost iv_pre = iv@;
        let slot = n - 1 - m;
        iv[slot] = b;
        proof {
            let nm = n - m;
            let cur = digits.take(rem);
            if consumed_two {
                assert(cur.take(rem - 2) =~= digits.take(rem - 2));
                assert(cur[rem - 1] == digits[rem - 1]);
                assert(cur[rem - 2] == digits[rem - 2]);
                assert(imm_of(cur, nm as int) == imm_of(digits.take(rem - 2), nm - 1).push(b));
            } else {
                assert(rem == 1);
                assert(cur.len() == 1);
                assert(cur[0] == digits[0]);
                assert(digits[rem - 1] == digits[0]);
                assert(imm_of(cur, nm as int) == imm_of(Seq::<char>::empty(), nm - 1).push(b));
                assert(digits.take(0) =~= Seq::<char>::empty());
            }
            assert(iv@.skip(nm - 1) =~= seq![b] + iv_pre.skip(nm as int));
            assert(imm_of(digits.take(if rem >= 2 {
                rem - 2
            } else {
                0
            }), nm - 1) + (seq![b] + iv_pre.skip(nm as int)) =~= imm_of(
                digits.take(if rem >= 2 {
                    rem - 2
                } else {
                    0
                }),
                nm - 1,
            ).push(b) + iv_pre.skip(nm as int));
        }
        m += 1;
    }
    proof {
        assert(forall|j: int| 2 <= j < klen ==> is_hex_digit(#[trigger] p@[j]));
        lemma_rightmost_none(p@, klen - 1);
        lemma_imm_of_empty(n - m);
        assert(digits.take(0) =~= Seq::<char>::empty());
        assert(iv@.take(n - m) =~= imm_of(Seq::<char>::empty(), n - m));
        assert(iv@ =~= iv@.take(n - m) + iv@.skip(n - m));
        assert(imm_of(digits, n as int) =~= iv@);
    }
    Ok(iv)
}

/// One lowercase hex digit as text.
fn hex_digit_str(d: u8) -> (r: &'static str)
    requires
        d < 16,
    ensures
        r@ == seq![hex_digit(d as int)],
{
    proof {
        reveal_strlit("0");
        reveal_strlit("1");
        reveal_strlit("2");
        reveal_strlit("3");
        reveal_strlit("4");
        reveal_strlit("5");
        reveal_strlit("6");
        reveal_strlit("7");
        reveal_strlit("8");
        reveal_strlit("9");
        reveal_strlit("a");
        reveal_strlit("b");
        reveal_strlit("c");
        reveal_strlit("d");
        reveal_strlit("e");
        reveal_strlit("f");
    }
    match d {
        0 => "0",
        1 => "1",
        2 => "2",
        3 => "3",
        4 => "4",
        5 => "5",
        6 => "6",
        7 => "7",
        8 => "8",
        9 => "9",
        10 => "a",
        11 => "b",
        12 => "c",
        13 => "d",
        14 => "e",
        _ => "f",
    }
}

impl<'a> crate::codec::InstructionCodec<'a> {
    /// Render a sequence as text, one instruction per line.  The table is
    /// not consulted: every instruction carries what its line needs.
    pub fn to_text(&self, prog: &InstructionSequence) -> (r: String)
        ensures
            r@ == render_seq(prog@),
    {
        let n = prog.len();
        let mut out = String::new();
        let mut i: usize = 0;
        while i < n
            invariant
                n == prog@.len(),
                i <= n,
                out@ == render_seq(prog@.take(i as int)),
            decreases n - i,
        {
            let ghost line_start = out@;
            match prog.get(i) {
                OpCode::Fixed(m) => {
                    out.append(m.as_str());
                },
                OpCode::WithImmediate(m, iv) => {
                    out.append(m.as_str());
                    out.append(" 0x");
                    let cnt = iv.len();
                    proof {
                        assert(iv@.take(0) =~= Seq::<u8>::empty());
                        assert(out@ =~= line_start + prog@[i as int]->WithImmediate_0 + " 0x"@
                            + hex_chars(iv@.take(0)));
                    }
                    let mut k: usize = 0;
                    while k < cnt
                        invariant
                            cnt == iv@.len(),
                            k <= cnt,
                            prog@[i as int] is WithImmediate,
                            iv@ == prog@[i as int]->WithImmediate_1,
                            out@ == line_start + prog@[i as int]->WithImmediate_0 + " 0x"@
                                + hex_chars(iv@.take(k as int)),
                        decreases cnt - k,
                    {
                        let b = iv[k];
                        out.append(hex_digit_str(b / 16));
                        out.append(hex_digit_str(b % 16));
                        proof {
                            lemma_hex_chars_push(iv@.take(k as int), iv@[k as int]);
                            assert(iv@.take(k as int + 1) =~= iv@.take(k as int).push(
                                iv@[k as int],
                            ));
                            assert(out@ =~= line_start + prog@[i as int]->WithImmediate_0 + " 0x"@
                                + hex_chars(iv@.take(k as int + 1)));
                        }
                        k += 1;
                    }
                    proof {
                        assert(iv@.take(cnt as int) =~= iv@);
                    }
                },
                OpCode::Unrecognized(v) => {
                    out.append("UNKNOWN 0x");
                    let v = *v;
                    if v < 16 {
                        out.append(hex_digit_str(v));
                    } else {
                        out.append(hex_digit_str(v / 16));
                        out.append(hex_digit_str(v % 16));
                    }
                },
            }
            out.append("\n");
            proof {
                lemma_render_seq_push(prog@.take(i as int), prog@[i as int]);
                assert(prog@.take(i as int + 1) =~= prog@.take(i as int).push(prog@[i as int]));
                assert(out@ =~= render_seq(prog@.take(i as int)) + render_op(prog@[i as int])
                    + "\n"@);
            }
            i += 1;
        }
        proof {
            assert(prog@.take(n as int) =~= prog@);
        }
        out
    }

    /// Parse a program from text: whitespace-separated tokens, the alias
    /// `KECCAK256` rewritten to `SHA3` first, then read token by token as
    /// `spec_parse_tokens` describes.
    #[verifier::rlimit(60)]
    pub fn from_text(&self, text: &str) -> (r: Result<InstructionSequence, TextError>)
        ensures
            ({
                let toks = alias_tokens(tokens_of(text@));
                match r {
                    Ok(s) => spec_parse_tokens(self@, toks, 0) == Ok::<Seq<OpModel>, TextErrModel>(
                        s@,
                    ),
                    Err(e) => spec_parse_tokens(self@, toks, 0) == Err::<
                        Seq<OpModel>,
                        TextErrModel,
                    >(e@),
                }
            }),
    {
        let ghost t = self@;
        let mut toks = tokenize(text);
        let ghost orig = toks.deep_view();
        let keccak = "KECCAK256".to_owned();
        let mut j: usize = 0;
        while j < toks.len()
            invariant
                j <= toks@.len(),
                toks@.len() == orig.len(),
                keccak@ == "KECCAK256"@,
                forall|k: int| 0 <= k < j ==> (#[trigger] toks@[k])@ == alias_token(orig[k]),
                forall|k: int| j <= k < orig.len() ==> (#[trigger] toks@[k])@ == orig[k],
            decreases toks@.len() - j,
        {
            if toks[j] == keccak {
                toks[j] = "SHA3".to_owned();
            }
            j += 1;
        }
        let ghost atoks = alias_tokens(orig);
        proof {
            assert(toks.deep_view() =~= atoks);
        }
        let ntok = toks.len();
        let mut out: Vec<OpCode> = Vec::new();
        let mut idx: usize = 0;
        proof {
            match spec_parse_tokens(t, atoks, 0) {
                Ok(rest) => {
                    assert(out.deep_view() + rest =~= rest);
                },
                Err(er) => {},
            }
        }
        while idx < ntok
            invariant
                t == self@,
                atoks == alias_tokens(tokens_of(text@)),
                ntok == atoks.len(),
                toks@.len() == ntok,
                toks.deep_view() == atoks,
                idx <= ntok,
                match spec_parse_tokens(t, atoks, idx as int) {
                    Ok(rest) => spec_parse_tokens(t, atoks, 0) == Ok::<
                        Seq<OpModel>,
                        TextErrModel,
                    >(out.deep_view() + rest),
                    Err(er) => spec_parse_tokens(t, atoks, 0) == Err::<
                        Seq<OpModel>,
                        TextErrModel,
                    >(er),
                },
            decreases ntok - idx,
        {
            let ghost out_pre = out.deep_view();
            let tok = &toks[idx];
            proof {
                assert(tok@ == atoks[idx as int]);
            }
            match self.table.lookup_mnemonic(tok.as_str()) {
                Some(v) => {
                    proof {
                        use_type_invariant(self.table);
                        lemma_mn_find_some(t, tok@, 0);
                    }
                    let isz = match self.table.lookup_value(v) {
                        Some(e) => e.immediate_size,
                        None => {
                            proof {
                                assert(false);
                            }
                            0
                        },
                    };
                    if isz == 0 {
                        out.push(OpCode::Fixed(tok.clone()));
                        proof {
                            assert(out.deep_view() =~= out_pre.push(OpModel::Fixed(tok@)));
                            match spec_parse_tokens(t, atoks, idx as int + 1) {
                                Ok(r2) => {
                                    assert(out_pre + (seq![OpModel::Fixed(tok@)] + r2)
                                        =~= out.deep_view() + r2);
                                },
                                Err(er) => {},
                            }
                        }
                        idx += 1;
                    } else {
                        if idx + 1 >= ntok {
                            proof {
                                assert(spec_parse_tokens(t, atoks, idx as int) == Err::<
                                    Seq<OpModel>,
                                    TextErrModel,
                                >(TextErrModel::BadHexSizeFor(idx as int + 1)));
                            }
                            return Err(TextError::BadHexSizeFor(idx + 1));
                        }
                        let p = &toks[idx + 1];
                        proof {
                            assert(p@ == atoks[idx as int + 1]);
                        }
                        let plen = p.as_str().unicode_len();
                        if !(plen > 2 && plen <= 2 * (isz as usize) + 2) {
                            proof {
                                assert(spec_parse_tokens(t, atoks, idx as int) == Err::<
                                    Seq<OpModel>,
                                    TextErrModel,
                                >(TextErrModel::BadHexSizeFor(idx as int + 1)));
                            }
                            return Err(TextError::BadHexSizeFor(idx + 1));
                        }
                        let c0 = p.as_str().get_char(0);
                        let c1 = p.as_str().get_char(1);
                        if !(c0 == '0' && c1 == 'x') {
                            proof {
                                assert(spec_parse_tokens(t, atoks, idx as int) == Err::<
                                    Seq<OpModel>,
                                    TextErrModel,
                                >(TextErrModel::BadHexFor(idx as int + 1)));
                            }
                            return Err(TextError::BadHexFor(idx + 1));
                        }
                        match parse_imm(p, isz as usize) {
                            Err(bad) => {
                                proof {
                                    assert(spec_parse_tokens(t, atoks, idx as int) == Err::<
                                        Seq<OpModel>,
                                        TextErrModel,
                                    >(TextErrModel::BadHexAt(idx as int + 1, p@, bad as int)));
                                }
                                return Err(TextError::BadHexAt(idx + 1, p.clone(), bad));
                            },
                            Ok(iv) => {
                                out.push(OpCode::WithImmediate(tok.clone(), iv));
                                proof {
                                    assert(out.deep_view() =~= out_pre.push(
                                        OpModel::WithImmediate(
                                            tok@,
                                            imm_of(p@.skip(2), isz as int),
                                        ),
                                    ));
                                    match spec_parse_tokens(t, atoks, idx as int + 2) {
                                        Ok(r2) => {
                                            assert(out_pre + (seq![
                                                OpModel::WithImmediate(
                                                    tok@,
                                                    imm_of(p@.skip(2), isz as int),
                                                ),
                                            ] + r2) =~= out.deep_view() + r2);
                                        },
                                        Err(er) => {},
                                    }
                                }
                                idx += 2;
                            },
                        }
                    }
                },
                None => {
                    let unknown_kw = "UNKNOWN".to_owned();
                    let lit_at = if *tok == unknown_kw {
                        idx + 1
                    } else {
                        idx
                    };
                    if lit_at >= ntok {
                        proof {
                            assert(spec_parse_tokens(t, atoks, idx as int) == Err::<
                                Seq<OpModel>,
                                TextErrModel,
                            >(TextErrModel::UnknownInstruction(lit_at as int, Seq::empty())));
                        }
                        return Err(TextError::UnknownInstruction(lit_at, String::new()));
                    }
                    let lit = &toks[lit_at];
                    proof {
                        assert(lit@ == atoks[lit_at as int]);
                    }
                    let llen = lit.as_str().unicode_len();
                    if !(llen > 2 && llen <= 4) {
                        proof {
                            assert(spec_parse_tokens(t, atoks, idx as int) == Err::<
                                Seq<OpModel>,
                                TextErrModel,
                            >(TextErrModel::UnknownInstruction(lit_at as int, lit@)));
                        }
                        return Err(TextError::UnknownInstruction(lit_at, lit.clone()));
                    }
                    let c0 = lit.as_str().get_char(0);
                    let c1 = lit.as_str().get_char(1);
                    if !(c0 == '0' && c1 == 'x') {
                        proof {
                            assert(spec_parse_tokens(t, atoks, idx as int) == Err::<
                                Seq<OpModel>,
                                TextErrModel,
                            >(TextErrModel::UnknownInstruction(lit_at as int, lit@)));
                        }
                        return Err(TextError::UnknownInstruction(lit_at, lit.clone()));
                    }
                    let c2 = lit.as_str().get_char(2);
                    let x = match hex_value(c2) {
                        Some(x) => x,
                        None => {
                            proof {
                                assert(spec_parse_tokens(t, atoks, idx as int) == Err::<
                                    Seq<OpModel>,
                                    TextErrModel,
                                >(TextErrModel::UnknownInstruction(lit_at as int, lit@)));
                            }
                            return Err(TextError::UnknownInstruction(lit_at, lit.clone()));
                        },
                    };
                    let val: u8;
                    if llen == 3 {
                        val = x;
                        proof {
                            assert(val as int == hex_val(lit@[2]));
                        }
                    } else {
                        let c3 = lit.as_str().get_char(3);
                        let y = match hex_value(c3) {
                            Some(y) => y,
                            None => {
                                proof {
                                    assert(spec_parse_tokens(t, atoks, idx as int) == Err::<
                                        Seq<OpModel>,
                                        TextErrModel,
                                    >(TextErrModel::UnknownInstruction(lit_at as int, lit@)));
                                }
                                return Err(TextError::UnknownInstruction(lit_at, lit.clone()));
                            },
                        };
                        val = x * 16 + y;
                        proof {
                            assert(val as int == hex_val(lit@[2]) * 16 + hex_val(lit@[3]));
                        }
                    }
                    out.push(OpCode::Unrecognized(val));
                    proof {
                        assert(out.deep_view() =~= out_pre.push(OpModel::Unrecognized(val)));
                        match spec_parse_tokens(t, atoks, lit_at as int + 1) {
                            Ok(r2) => {
                                assert(out_pre + (seq![OpModel::Unrecognized(val)] + r2)
                                    =~= out.deep_view() + r2);
                            },
                            Err(er) => {},
                        }
                    }
                    idx = lit_at + 1;
                },
            }
        }
        proof {
            assert(out.deep_view() + Seq::<OpModel>::empty() =~= out.deep_view());
        }
        Ok(InstructionSequence::from_ops(out))
    }
}

/// The legacy alias and its canonical mnemonic tokenize and rewrite to the
/// same single token, so parsing either text yields the identical result,
/// whatever the table.
pub proof fn lemma_keccak_alias(t: TableModel)
    ensures
        alias_tokens(tokens_of("KECCAK256"@)) == alias_tokens(tokens_of("SHA3"@)),
        alias_tokens(tokens_of("SHA3"@)) == seq!["SHA3"@],
        spec_parse_tokens(t, alias_tokens(tokens_of("KECCAK256"@)), 0) == spec_parse_tokens(
            t,
            alias_tokens(tokens_of("SHA3"@)),
            0,
        ),
{
    reveal_strlit("KECCAK256");
    reveal_strlit("SHA3");
    reveal_with_fuel(tokenize_acc, 12);
    assert(tokens_of("KECCAK256"@) =~~= seq!["KECCAK256"@]) by {
        reveal_strlit("KECCAK256");
        reveal_with_fuel(tokenize_acc, 12);
    }
    assert(tokens_of("SHA3"@) =~~= seq!["SHA3"@]) by {
        reveal_strlit("SHA3");
        reveal_with_fuel(tokenize_acc, 12);
    }
    assert(alias_token("KECCAK256"@) == "SHA3"@);
    assert(alias_token("SHA3"@) == "SHA3"@);
    assert(alias_tokens(seq!["KECCAK256"@]) =~= seq!["SHA3"@]);
    assert(alias_tokens(seq!["SHA3"@]) =~= seq!["SHA3"@]);
}

} // verus!

//! The binary instruction codec: bytecode to instruction sequences and back.
//!
//! Encoding emits, per instruction, its opcode value byte followed by its
//! immediate bytes verbatim.  Decoding scans left to right; the strict
//! decoder fails on the first unknown opcode byte, the permissive decoder
//! tags it and continues.  Both decoders zero-fill a truncated trailing
//! immediate and stop after it.

use vstd::prelude::*;

use crate::opcode::{op_encodable, op_wf, seq_encodable, seq_wf, InstructionSequence, OpCode, OpModel};
use crate::table::{
    lemma_mn_find_complete, lemma_mn_find_some, mn_find, table_wf, OpcodeTable, TableEntry,
    TableModel,
};

verus! {

/// A failure of the strict binary decoder.
#[derive(Debug, PartialEq, Eq)]
pub enum DecodeError {
    /// Offset of the unknown opcode byte, and that byte.
    BadInstruction(usize, u8),
}

/// `k` zero bytes.
pub open spec fn zero_bytes(k: int) -> Seq<u8> {
    Seq::new(k as nat, |i: int| 0u8)
}

/// The bytes one instruction encodes to.  A mnemonic contributes the value
/// it resolves to; an unrecognized instruction re-emits its byte.
pub open spec fn encode_op(t: TableModel, op: OpModel) -> Seq<u8> {
    match op {
        OpModel::Fixed(m) => match mn_find(t, m) {
            Some(v) => seq![v],
            None => seq![0u8],
        },
        OpModel::WithImmediate(m, iv) => match mn_find(t, m) {
            Some(v) => seq![v] + iv,
            None => seq![0u8] + iv,
        },
        OpModel::Unrecognized(v) => seq![v],
    }
}

/// The bytes a whole sequence encodes to.
pub open spec fn encode_seq(t: TableModel, s: Seq<OpModel>) -> Seq<u8>
    decreases s.len(),
{
    if s.len() == 0 {
        Seq::empty()
    } else {
        encode_op(t, s[0]) + encode_seq(t, s.subrange(1, s.len() as int))
    }
}

/// Appending one instruction appends its encoding.
pub proof fn lemma_encode_seq_push(t: TableModel, s: Seq<OpModel>, op: OpModel)
    ensures
        encode_seq(t, s.push(op)) == encode_seq(t, s) + encode_op(t, op),
    decreases s.len(),
{
    let sp = s.push(op);
    if s.len() == 0 {
        assert(sp[0] == op);
        assert(sp.subrange(1, sp.len() as int) =~= Seq::<OpModel>::empty());
        assert(encode_seq(t, sp) == encode_op(t, op) + encode_seq(t, Seq::<OpModel>::empty()));
        assert(encode_seq(t, sp) =~= encode_seq(t, s) + encode_op(t, op));
    } else {
        assert(sp[0] == s[0]);
        assert(sp.subrange(1, sp.len() as int) =~= s.subrange(1, s.len() as int).push(op));
        lemma_encode_seq_push(t, s.subrange(1, s.len() as int), op);
        assert(encode_seq(t, sp) =~= encode_seq(t, s) + encode_op(t, op));
    }
}

/// What the strict decoder yields on a byte stream: the decoded sequence,
/// or the offset and value of the first unknown opcode byte.  A known opcode
/// whose immediate runs past the end of the stream takes the remaining bytes
/// zero-filled and ends the scan.
pub open spec fn spec_decode_strict(t: TableModel, b: Seq<u8>) -> Result<Seq<OpModel>, (int, u8)>
    decreases b.len(),
{
    if b.len() == 0 {
        Ok(Seq::empty())
    } else {
        let v = b[0];
        match t[v as int] {
            None => Err((0, v)),
            Some(e) => {
                let n = e.immediate_size as int;
                if n == 0 {
                    match spec_decode_strict(t, b.skip(1)) {
                        Ok(rest) => Ok(seq![OpModel::Fixed(e.mnemonic)] + rest),
                        Err((o, x)) => Err((o + 1, x)),
                    }
                } else if 1 + n <= b.len() {
                    match spec_decode_strict(t, b.skip(1 + n)) {
                        Ok(rest) => Ok(
                            seq![OpModel::WithImmediate(e.mnemonic, b.subrange(1, 1 + n))] + rest,
                        ),
                        Err((o, x)) => Err((o + 1 + n, x)),
                    }
                } else {
                    Ok(
                        seq![
                            OpModel::WithImmediate(
                                e.mnemonic,
                                b.subrange(1, b.len() as int) + zero_bytes(n - (b.len() - 1)),
                            ),
                        ],
                    )
                }
            },
        }
    }
}

/// What the permissive decoder yields: the same scan, but an unknown opcode
/// byte becomes an `Unrecognized` instruction and the scan continues.
pub open spec fn spec_decode_permissive(t: TableModel, b: Seq<u8>) -> Seq<OpModel>
    decreases b.len(),
{
    if b.len() == 0 {
        Seq::empty()
    } else {
        let v = b[0];
        match t[v as int] {
            None => seq![OpModel::Unrecognized(v)] + spec_decode_permissive(t, b.skip(1)),
            Some(e) => {
                let n = e.immediate_size as int;
                if n == 0 {
                    seq![OpModel::Fixed(e.mnemonic)] + spec_decode_permissive(t, b.skip(1))
                } else if 1 + n <= b.len() {
                    seq![OpModel::WithImmediate(e.mnemonic, b.subrange(1, 1 + n))]
                        + spec_decode_permissive(t, b.skip(1 + n))
                } else {
                    seq![
                        OpModel::WithImmediate(
                            e.mnemonic,
                            b.subrange(1, b.len() as int) + zero_bytes(n - (b.len() - 1)),
                        ),
                    ]
                }
            },
        }
    }
}

/// The byte value an instruction encodes as: its own byte for an
/// unrecognized instruction, what its mnemonic resolves to for the rest.
pub open spec fn spec_value_of(t: TableModel, op: OpModel) -> Option<u8> {
    match op {
        OpModel::Unrecognized(v) => Some(v),
        OpModel::Fixed(m) => mn_find(t, m),
        OpModel::WithImmediate(m, _) => mn_find(t, m),
    }
}

/// A byte stream decodes cleanly when every opcode byte reached by the scan
/// is defined and every immediate is complete.
pub open spec fn decode_clean(t: TableModel, b: Seq<u8>) -> bool
    decreases b.len(),
{
    if b.len() == 0 {
        true
    } else {
        match t[b[0] as int] {
            None => false,
            Some(e) => {
                let n = e.immediate_size as int;
                &&& 1 + n <= b.len()
                &&& decode_clean(t, b.skip(1 + n))
            },
        }
    }
}

/// Round trip: a sequence built from a well-formed table decodes strictly,
/// from its own encoding, back to itself.
pub proof fn lemma_decode_strict_of_encode(t: TableModel, s: Seq<OpModel>)
    requires
        table_wf(t),
        seq_wf(t, s),
    ensures
        spec_decode_strict(t, encode_seq(t, s)) == Ok::<Seq<OpModel>, (int, u8)>(s),
    decreases s.len(),
{
    if s.len() == 0 {
        assert(s =~= Seq::<OpModel>::empty());
    } else {
        let op = s[0];
        let rest = s.subrange(1, s.len() as int);
        assert(op_wf(t, op));
        assert(forall|i: int|
            0 <= i < rest.len() ==> op_wf(t, #[trigger] rest[i]) && rest[i] == s[i + 1]);
        lemma_decode_strict_of_encode(t, rest);
        let erest = encode_seq(t, rest);
        let b = encode_seq(t, s);
        match op {
            OpModel::Fixed(m) => {
                let v = mn_find(t, m)->0;
                lemma_mn_find_some(t, m, 0);
                assert(b =~= seq![v] + erest);
                assert(b[0] == v);
                assert(b.skip(1) =~= erest);
                assert(seq![OpModel::Fixed(t[v as int]->0.mnemonic)] + rest =~= s);
            },
            OpModel::WithImmediate(m, iv) => {
                let v = mn_find(t, m)->0;
                lemma_mn_find_some(t, m, 0);
                let n = iv.len() as int;
                assert(b =~= (seq![v] + iv) + erest);
                assert(b[0] == v);
                assert(b.len() >= 1 + n);
                assert(b.subrange(1, 1 + n) =~= iv);
                assert(b.skip(1 + n) =~= erest);
                assert(seq![OpModel::WithImmediate(t[v as int]->0.mnemonic, iv)] + rest =~= s);
            },
            OpModel::Unrecognized(_) => {
                assert(false);
            },
        }
    }
}

/// Round trip the other way: a byte stream with no unknown opcode bytes and
/// no truncated immediates decodes strictly, and re-encoding the result
/// yields the stream again.
pub proof fn lemma_encode_of_decode_strict(t: TableModel, b: Seq<u8>)
    requires
        table_wf(t),
        decode_clean(t, b),
    ensures
        spec_decode_strict(t, b) matches Ok(s) && encode_seq(t, s) == b && seq_wf(t, s),
    decreases b.len(),
{
    if b.len() == 0 {
        let s = spec_decode_strict(t, b)->Ok_0;
        assert(encode_seq(t, s) =~= b);
    } else {
        let v = b[0];
        let e = t[v as int]->0;
        let n = e.immediate_size as int;
        let tail = b.skip(1 + n);
        lemma_encode_of_decode_strict(t, tail);
        let srest = spec_decode_strict(t, tail)->Ok_0;
        lemma_mn_find_complete(t, v);
        let op = if n == 0 {
            OpModel::Fixed(e.mnemonic)
        } else {
            OpModel::WithImmediate(e.mnemonic, b.subrange(1, 1 + n))
        };
        if n == 0 {
            assert(b.skip(1) == tail);
        }
        let s = seq![op] + srest;
        assert(spec_decode_strict(t, b) == Ok::<Seq<OpModel>, (int, u8)>(s));
        assert(op_wf(t, op));
        assert(forall|i: int| 0 <= i < s.len() ==> op_wf(t, #[trigger] s[i]));
        assert(s[0] == op);
        assert(s.subrange(1, s.len() as int) =~= srest);
        assert(encode_op(t, op) + encode_seq(t, srest) =~= b);
    }
}

/// The permissive decoder is total and yields at most one instruction per
/// input byte.
pub proof fn lemma_decode_permissive_len(t: TableModel, b: Seq<u8>)
    ensures
        spec_decode_permissive(t, b).len() <= b.len(),
    decreases b.len(),
{
    if b.len() == 0 {
    } else {
        match t[b[0] as int] {
            None => {
                lemma_decode_permissive_len(t, b.skip(1));
            },
            Some(e) => {
                let n = e.immediate_size as int;
                if n == 0 {
                    lemma_decode_permissive_len(t, b.skip(1));
                } else if 1 + n <= b.len() {
                    lemma_decode_permissive_len(t, b.skip(1 + n));
                }
            },
        }
    }
}

/// The instruction codec, bound to the table it encodes and decodes against.
pub struct InstructionCodec<'a> {
    pub table: &'a OpcodeTable,
}

impl<'a> View for InstructionCodec<'a> {
    type V = TableModel;

    open spec fn view(&self) -> TableModel {
        self.table@
    }
}

/// The immediate bytes starting at `start`: `cnt` bytes read verbatim, the
/// missing tail zero-filled when the stream ends early.
fn read_imm(bytes: &[u8], start: usize, cnt: usize) -> (iv: Vec<u8>)
    requires
        start <= bytes@.len(),
    ensures
        iv@ == (if start + cnt <= bytes@.len() {
            bytes@.subrange(start as int, start as int + cnt as int)
        } else {
            bytes@.subrange(start as int, bytes@.len() as int) + zero_bytes(
                start + cnt - bytes@.len(),
            )
        }),
        iv@.len() == cnt,
{
    let avail = bytes.len() - start;
    let mut iv: Vec<u8> = Vec::new();
    let mut k: usize = 0;
    while k < cnt
        invariant
            start <= bytes@.len(),
            avail == bytes@.len() - start,
            start + avail <= usize::MAX,
            k <= cnt,
            iv@.len() == k,
            forall|j: int|
                0 <= j < k ==> iv@[j] == (if start + j < bytes@.len() {
                    bytes@[start + j]
                } else {
                    0u8
                }),
        decreases cnt - k,
    {
        if k < avail {
            iv.push(bytes[start + k]);
        } else {
            iv.push(0u8);
        }
        k += 1;
    }
    proof {
        if start + cnt <= bytes@.len() {
            assert(iv@ =~= bytes@.subrange(start as int, start as int + cnt as int));
        } else {
            assert(iv@ =~= bytes@.subrange(start as int, bytes@.len() as int) + zero_bytes(
                start + cnt - bytes@.len(),
            ));
        }
    }
    iv
}

impl<'a> InstructionCodec<'a> {
    /// Bind a codec to a table.
    pub fn new(table: &'a OpcodeTable) -> (c: InstructionCodec<'a>)
        ensures
            c@ == table@,
    {
        InstructionCodec { table }
    }

    /// Encode a sequence into bytes: per instruction the opcode value byte,
    /// then the immediate bytes verbatim.  Total on every sequence whose
    /// mnemonics the table resolves.
    pub fn encode(&self, prog: &InstructionSequence) -> (r: Vec<u8>)
        requires
            seq_encodable(self@, prog@),
        ensures
            r@ == encode_seq(self@, prog@),
    {
        let ghost t = self@;
        let n = prog.len();
        let mut out: Vec<u8> = Vec::new();
        let mut i: usize = 0;
        while i < n
            invariant
                seq_encodable(t, prog@),
                t == self@,
                n == prog@.len(),
                i <= n,
                out@ == encode_seq(t, prog@.take(i as int)),
            decreases n - i,
        {
            let ghost out_pre = out@;
            proof {
                assert(op_encodable(t, prog@[i as int]));
            }
            match prog.get(i) {
                OpCode::Fixed(m) => {
                    let v = match self.table.lookup_mnemonic(m.as_str()) {
                        Some(v) => v,
                        None => {
                            proof {
                                assert(false);
                            }
                            0
                        },
                    };
                    out.push(v);
                },
                OpCode::WithImmediate(m, iv) => {
                    let v = match self.table.lookup_mnemonic(m.as_str()) {
                        Some(v) => v,
                        None => {
                            proof {
                                assert(false);
                            }
                            0
                        },
                    };
                    out.push(v);
                    let m = iv.len();
                    let mut k: usize = 0;
                    while k < m
                        invariant
                            m == iv@.len(),
                            k <= m,
                            out@ == out_pre.push(mn_find(t, prog@[i as int]->WithImmediate_0)->0)
                                + iv@.take(k as int),
                            prog@[i as int] is WithImmediate,
                            iv@ == prog@[i as int]->WithImmediate_1,
                            mn_find(t, prog@[i as int]->WithImmediate_0) is Some,
                        decreases m - k,
                    {
                        out.push(iv[k]);
                        proof {
                            assert(iv@.take(k as int + 1) =~= iv@.take(k as int).push(
                                iv@[k as int],
                            ));
                            assert(out@ =~= out_pre.push(
                                mn_find(t, prog@[i as int]->WithImmediate_0)->0,
                            ) + iv@.take(k as int + 1));
                        }
                        k += 1;
                    }
                    proof {
                        assert(iv@.take(m as int) =~= iv@);
                    }
                },
                OpCode::Unrecognized(v) => {
                    out.push(*v);
                },
            }
            proof {
                lemma_encode_seq_push(t, prog@.take(i as int), prog@[i as int]);
                assert(prog@.take(i as int + 1) =~= prog@.take(i as int).push(prog@[i as int]));
                assert(out@ =~= encode_seq(t, prog@.take(i as int)) + encode_op(
                    t,
                    prog@[i as int],
                ));
            }
            i += 1;
        }
        proof {
            assert(prog@.take(n as int) =~= prog@);
        }
        out
    }

    /// The byte value an instruction encodes as: its own byte for an
    /// unrecognized instruction, the table's value for a mnemonic.
    pub fn value_of(&self, op: &OpCode) -> (r: Option<u8>)
        ensures
            r == spec_value_of(self@, op@),
    {
        match op {
            OpCode::Unrecognized(v) => Some(*v),
            OpCode::Fixed(m) => self.table.lookup_mnemonic(m.as_str()),
            OpCode::WithImmediate(m, _) => self.table.lookup_mnemonic(m.as_str()),
        }
    }

    /// The table row behind an instruction: its declared immediate size and
    /// stack effect.  An unrecognized instruction has none.
    pub fn entry_of(&self, op: &OpCode) -> (r: Option<&TableEntry>)
        ensures
            match op@ {
                OpModel::Unrecognized(_) => r is None,
                OpModel::Fixed(m) => match mn_find(self@, m) {
                    Some(v) => r matches Some(e) && self@[v as int] == Some(e@),
                    None => r is None,
                },
                OpModel::WithImmediate(m, _) => match mn_find(self@, m) {
                    Some(v) => r matches Some(e) && self@[v as int] == Some(e@),
                    None => r is None,
                },
            },
    {
        let m = match op {
            OpCode::Unrecognized(_) => {
                return None;
            },
            OpCode::Fixed(m) => m,
            OpCode::WithImmediate(m, _) => m,
        };
        match self.table.lookup_mnemonic(m.as_str()) {
            Some(v) => {
                proof {
                    use_type_invariant(self.table);
                    lemma_mn_find_some(self@, m@, 0);
                }
                match self.table.lookup_value(v) {
                    Some(e) => Some(e),
                    None => {
                        proof {
                            assert(false);
                        }
                        None
                    },
                }
            },
            None => None,
        }
    }

    /// Decode bytes, failing on the first unknown opcode byte with its
    /// offset and value.
    pub fn decode_strict(&self, bytes: &[u8]) -> (r: Result<InstructionSequence, DecodeError>)
        ensures
            match r {
                Ok(s) => spec_decode_strict(self@, bytes@) == Ok::<Seq<OpModel>, (int, u8)>(s@),
                Err(DecodeError::BadInstruction(off, v)) => spec_decode_strict(self@, bytes@)
                    == Err::<Seq<OpModel>, (int, u8)>((off as int, v)),
            },
    {
        let ghost t = self@;
        let n = bytes.len();
        let mut out: Vec<OpCode> = Vec::new();
        let mut idx: usize = 0;
        proof {
            assert(bytes@.skip(0) =~= bytes@);
            match spec_decode_strict(t, bytes@) {
                Ok(rest) => {
                    assert(out.deep_view() + rest =~= rest);
                },
                Err((o, x)) => {},
            }
        }
        while idx < n
            invariant
                t == self@,
                n == bytes@.len(),
                idx <= n,
                match spec_decode_strict(t, bytes@.skip(idx as int)) {
                    Ok(rest) => spec_decode_strict(t, bytes@) == Ok::<Seq<OpModel>, (int, u8)>(
                        out.deep_view() + rest,
                    ),
                    Err((o, x)) => spec_decode_strict(t, bytes@) == Err::<Seq<OpModel>, (int, u8)>(
                        (o + idx, x),
                    ),
                },
            decreases n - idx,
        {
            let ghost s0 = bytes@.skip(idx as int);
            proof {
                assert(s0[0] == bytes@[idx as int]);
            }
            let v = bytes[idx];
            let ghost out_pre = out.deep_view();
            match self.table.lookup_value(v) {
                None => {
                    return Err(DecodeError::BadInstruction(idx, v));
                },
                Some(e) => {
                    let imm = e.immediate_size as usize;
                    if imm == 0 {
                        out.push(OpCode::Fixed(e.mnemonic.clone()));
                        proof {
                            assert(s0.skip(1) =~= bytes@.skip(idx as int + 1));
                            assert(out.deep_view() =~= out_pre.push(
                                OpModel::Fixed(t[v as int]->0.mnemonic),
                            ));
                            match spec_decode_strict(t, bytes@.skip(idx as int + 1)) {
                                Ok(r2) => {
                                    assert(out_pre + (seq![OpModel::Fixed(t[v as int]->0.mnemonic)]
                                        + r2) =~= out.deep_view() + r2);
                                },
                                Err((o2, x2)) => {},
                            }
                        }
                        idx += 1;
                    } else if imm <= n - idx - 1 {
                        let iv = read_imm(bytes, idx + 1, imm);
                        proof {
                            assert(iv@ =~= s0.subrange(1, 1 + imm as int));
                        }
                        out.push(OpCode::WithImmediate(e.mnemonic.clone(), iv));
                        proof {
                            assert(s0.skip(1 + imm as int) =~= bytes@.skip(
                                idx as int + 1 + imm as int,
                            ));
                            assert(out.deep_view() =~= out_pre.push(
                                OpModel::WithImmediate(
                                    t[v as int]->0.mnemonic,
                                    s0.subrange(1, 1 + imm as int),
                                ),
                            ));
                            match spec_decode_strict(t, bytes@.skip(idx as int + 1 + imm as int)) {
                                Ok(r2) => {
                                    assert(out_pre + (seq![
                                        OpModel::WithImmediate(
                                            t[v as int]->0.mnemonic,
                                            s0.subrange(1, 1 + imm as int),
                                        ),
                                    ] + r2) =~= out.deep_view() + r2);
                                },
                                Err((o2, x2)) => {},
                            }
                        }
                        idx += 1 + imm;
                    } else {
                        let iv = read_imm(bytes, idx + 1, imm);
                        proof {
                            assert(iv@ =~= s0.subrange(1, s0.len() as int) + zero_bytes(
                                imm - (s0.len() - 1),
                            ));
                        }
                        out.push(OpCode::WithImmediate(e.mnemonic.clone(), iv));
                        proof {
                            assert(out.deep_view() =~= out_pre.push(
                                OpModel::WithImmediate(
                                    t[v as int]->0.mnemonic,
                                    s0.subrange(1, s0.len() as int) + zero_bytes(
                                        imm - (s0.len() - 1),
                                    ),
                                ),
                            ));
                            assert(bytes@.skip(n as int).len() == 0);
                            assert(out.deep_view() + Seq::<OpModel>::empty() =~= out.deep_view());
                            assert(out_pre + seq![
                                OpModel::WithImmediate(
                                    t[v as int]->0.mnemonic,
                                    s0.subrange(1, s0.len() as int) + zero_bytes(
                                        imm - (s0.len() - 1),
                                    ),
                                ),
                            ] =~= out.deep_view());
                        }
                        idx = n;
                    }
                },
            }
        }
        proof {
            assert(bytes@.skip(n as int).len() == 0);
            assert(out.deep_view() + Seq::<OpModel>::empty() =~= out.deep_view());
        }
        Ok(InstructionSequence::from_ops(out))
    }

    /// Decode bytes, never failing: an unknown opcode byte becomes an
    /// `Unrecognized` instruction.  Yields at most one instruction per
    /// input byte.
    pub fn decode_permissive(&self, bytes: &[u8]) -> (s: InstructionSequence)
        ensures
            s@ == spec_decode_permissive(self@, bytes@),
            s@.len() <= bytes@.len(),
    {
        let ghost t = self@;
        let n = bytes.len();
        let mut out: Vec<OpCode> = Vec::new();
        let mut idx: usize = 0;
        proof {
            assert(bytes@.skip(0) =~= bytes@);
            assert(out.deep_view() + spec_decode_permissive(t, bytes@) =~= spec_decode_permissive(
                t,
                bytes@,
            ));
        }
        while idx < n
            invariant
                t == self@,
                n == bytes@.len(),
                idx <= n,
                out.deep_view().len() <= idx,
                spec_decode_permissive(t, bytes@) == out.deep_view() + spec_decode_permissive(
                    t,
                    bytes@.skip(idx as int),
                ),
            decreases n - idx,
        {
            let ghost s0 = bytes@.skip(idx as int);
            proof {
                assert(s0[0] == bytes@[idx as int]);
            }
            let v = bytes[idx];
            let ghost out_pre = out.deep_view();
            match self.table.lookup_value(v) {
                None => {
                    out.push(OpCode::Unrecognized(v));
                    proof {
                        assert(s0.skip(1) =~= bytes@.skip(idx as int + 1));
                        assert(out.deep_view() =~= out_pre.push(OpModel::Unrecognized(v)));
                        assert(out_pre + (seq![OpModel::Unrecognized(v)]
                            + spec_decode_permissive(t, bytes@.skip(idx as int + 1)))
                            =~= out.deep_view() + spec_decode_permissive(
                            t,
                            bytes@.skip(idx as int + 1),
                        ));
                    }
                    idx += 1;
                },
                Some(e) => {
                    let imm = e.immediate_size as usize;
                    if imm == 0 {
                        out.push(OpCode::Fixed(e.mnemonic.clone()));
                        proof {
                            assert(s0.skip(1) =~= bytes@.skip(idx as int + 1));
                            assert(out.deep_view() =~= out_pre.push(
                                OpModel::Fixed(t[v as int]->0.mnemonic),
                            ));
                            assert(out_pre + (seq![OpModel::Fixed(t[v as int]->0.mnemonic)]
                                + spec_decode_permissive(t, bytes@.skip(idx as int + 1)))
                                =~= out.deep_view() + spec_decode_permissive(
                                t,
                                bytes@.skip(idx as int + 1),
                            ));
                        }
                        idx += 1;
                    } else if imm <= n - idx - 1 {
                        let iv = read_imm(bytes, idx + 1, imm);
                        proof {
                            assert(iv@ =~= s0.subrange(1, 1 + imm as int));
                        }
                        out.push(OpCode::WithImmediate(e.mnemonic.clone(), iv));
                        proof {
                            assert(s0.skip(1 + imm as int) =~= bytes@.skip(
                                idx as int + 1 + imm as int,
                            ));
                            assert(out.deep_view() =~= out_pre.push(
                                OpModel::WithImmediate(
                                    t[v as int]->0.mnemonic,
                                    s0.subrange(1, 1 + imm as int),
                                ),
                            ));
                            assert(out_pre + (seq![
                                OpModel::WithImmediate(
                                    t[v as int]->0.mnemonic,
                                    s0.subrange(1, 1 + imm as int),
                                ),
                            ] + spec_decode_permissive(t, bytes@.skip(idx as int + 1 + imm as int)))
                                =~= out.deep_view() + spec_decode_permissive(
                                t,
                                bytes@.skip(idx as int + 1 + imm as int),
                            ));
                        }
                        idx += 1 + imm;
                    } else {
                        let iv = read_imm(bytes, idx + 1, imm);
                        proof {
                            assert(iv@ =~= s0.subrange(1, s0.len() as int) + zero_bytes(
                                imm - (s0.len() - 1),
                            ));
                        }
                        out.push(OpCode::WithImmediate(e.mnemonic.clone(), iv));
                        proof {
                            assert(out.deep_view() =~= out_pre.push(
                                OpModel::WithImmediate(
                                    t[v as int]->0.mnemonic,
                                    s0.subrange(1, s0.len() as int) + zero_bytes(
                                        imm - (s0.len() - 1),
                                    ),
                                ),
                            ));
                            assert(bytes@.skip(n as int).len() == 0);
                            assert(out_pre + seq![
                                OpModel::WithImmediate(
                                    t[v as int]->0.mnemonic,
                                    s0.subrange(1, s0.len() as int) + zero_bytes(
                                        imm - (s0.len() - 1),
                                    ),
                                ),
                            ] =~= out.deep_view() + spec_decode_permissive(t, bytes@.skip(n as int)));
                        }
                        idx = n;
                    }
                },
            }
        }
        proof {
            assert(bytes@.skip(n as int).len() == 0);
            assert(out.deep_view() + spec_decode_permissive(t, bytes@.skip(n as int))
                =~= out.deep_view());
        }
        InstructionSequence::from_ops(out)
    }
}

} // verus!

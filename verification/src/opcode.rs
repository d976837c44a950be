//! Decoded instructions and instruction sequences.
//!
//! An [`OpCode`] is one decoded instruction: a zero-operand opcode, an opcode
//! with its immediate bytes, or a byte the table does not recognize.  An
//! [`InstructionSequence`] is one decoded program, an ordered list of
//! [`OpCode`]s.

use vstd::prelude::*;

use crate::table::{mn_find, TableModel};
use vstd::std_specs::cmp::PartialEqSpec;

verus! {

/// One decoded instruction.
#[derive(Debug)]
pub enum OpCode {
    /// A zero-operand opcode, by its mnemonic.
    Fixed(String),
    /// An opcode with its immediate operand bytes, most significant first.
    WithImmediate(String, Vec<u8>),
    /// A byte value the table does not define.
    Unrecognized(u8),
}

/// The mathematical model of one decoded instruction.
pub enum OpModel {
    Fixed(Seq<char>),
    WithImmediate(Seq<char>, Seq<u8>),
    Unrecognized(u8),
}

impl View for OpCode {
    type V = OpModel;

    open spec fn view(&self) -> OpModel {
        match self {
            OpCode::Fixed(m) => OpModel::Fixed(m@),
            OpCode::WithImmediate(m, iv) => OpModel::WithImmediate(m@, iv@),
            OpCode::Unrecognized(v) => OpModel::Unrecognized(*v),
        }
    }
}

impl DeepView for OpCode {
    type V = OpModel;

    open spec fn deep_view(&self) -> OpModel {
        self.view()
    }
}

impl PartialEq for OpCode {
    fn eq(&self, other: &OpCode) -> (r: bool) {
        match (self, other) {
            (OpCode::Fixed(a), OpCode::Fixed(b)) => *a == *b,
            (OpCode::WithImmediate(a, x), OpCode::WithImmediate(b, y)) => {
                let meq = *a == *b;
                let veq = *x == *y;
                proof {
                    if veq {
                        assert(x@ =~= y@);
                    } else if x@ == y@ {
                        assert(x.eq_spec(y));
                    }
                }
                meq && veq
            },
            (OpCode::Unrecognized(a), OpCode::Unrecognized(b)) => a == b,
            _ => false,
        }
    }
}

impl Eq for OpCode {

}

impl vstd::std_specs::cmp::PartialEqSpecImpl for OpCode {
    open spec fn obeys_eq_spec() -> bool {
        true
    }

    open spec fn eq_spec(&self, other: &OpCode) -> bool {
        self@ == other@
    }
}

/// An instruction can be encoded against a table when its mnemonic resolves
/// there and the immediate it carries has exactly the declared size.
/// Unrecognized bytes always encode: they are re-emitted as they are.
pub open spec fn op_encodable(t: TableModel, op: OpModel) -> bool {
    match op {
        OpModel::Fixed(m) => match mn_find(t, m) {
            Some(v) => t[v as int] is Some && t[v as int]->0.immediate_size == 0,
            None => false,
        },
        OpModel::WithImmediate(m, iv) => match mn_find(t, m) {
            Some(v) => t[v as int] is Some && t[v as int]->0.immediate_size == iv.len()
                && iv.len() > 0,
            None => false,
        },
        OpModel::Unrecognized(_) => true,
    }
}

/// A sequence is encodable when each of its instructions is.
pub open spec fn seq_encodable(t: TableModel, s: Seq<OpModel>) -> bool {
    forall|i: int| 0 <= i < s.len() ==> op_encodable(t, #[trigger] s[i])
}

/// An instruction is built from a table when its mnemonic resolves there
/// with the declared immediate size.  An unrecognized byte is not: only the
/// table's own opcodes survive a strict decode.
pub open spec fn op_wf(t: TableModel, op: OpModel) -> bool {
    &&& op_encodable(t, op)
    &&& !(op is Unrecognized)
}

/// A sequence is built from a table when each of its instructions is.
pub open spec fn seq_wf(t: TableModel, s: Seq<OpModel>) -> bool {
    forall|i: int| 0 <= i < s.len() ==> op_wf(t, #[trigger] s[i])
}

/// One decoded program: an ordered list of instructions, rebuilt wholesale
/// by the decoders and parsers, never partially mutated.
#[derive(Debug)]
pub struct InstructionSequence {
    ops: Vec<OpCode>,
}

impl View for InstructionSequence {
    type V = Seq<OpModel>;

    closed spec fn view(&self) -> Seq<OpModel> {
        self.ops.deep_view()
    }
}

impl PartialEq for InstructionSequence {
    fn eq(&self, other: &InstructionSequence) -> (r: bool) {
        let n = self.ops.len();
        if n != other.ops.len() {
            proof {
                assert(self@.len() == self.ops@.len());
                assert(other@.len() == other.ops@.len());
            }
            return false;
        }
        let mut i: usize = 0;
        while i < n
            invariant
                i <= n,
                n == self.ops@.len(),
                n == other.ops@.len(),
                forall|j: int| 0 <= j < i ==> self.ops@[j]@ == (#[trigger] other.ops@[j])@,
            decreases n - i,
        {
            if !(self.ops[i] == other.ops[i]) {
                proof {
                    assert(self@[i as int] == self.ops@[i as int]@);
                    assert(other@[i as int] == other.ops@[i as int]@);
                }
                return false;
            }
            i += 1;
        }
        proof {
            assert(self@ =~= other@);
        }
        true
    }
}

impl Eq for InstructionSequence {

}

impl vstd::std_specs::cmp::PartialEqSpecImpl for InstructionSequence {
    open spec fn obeys_eq_spec() -> bool {
        true
    }

    open spec fn eq_spec(&self, other: &InstructionSequence) -> bool {
        self@ == other@
    }
}

impl InstructionSequence {
    /// An empty program.
    pub fn new() -> (r: InstructionSequence)
        ensures
            r@ == Seq::<OpModel>::empty(),
    {
        InstructionSequence { ops: Vec::new() }
    }

    /// Wrap a ready-made instruction list.
    pub fn from_ops(ops: Vec<OpCode>) -> (r: InstructionSequence)
        ensures
            r@ == ops.deep_view(),
    {
        InstructionSequence { ops }
    }

    /// Append one instruction.
    pub fn push(&mut self, op: OpCode)
        ensures
            final(self)@ == old(self)@.push(op@),
    {
        self.ops.push(op);
        proof {
            assert(self@ =~= old(self)@.push(op@));
        }
    }

    /// Number of instructions.
    pub fn len(&self) -> (r: usize)
        ensures
            r == self@.len(),
    {
        self.ops.len()
    }

    /// The instruction at a position.
    pub fn get(&self, i: usize) -> (r: &OpCode)
        requires
            i < self@.len(),
        ensures
            r@ == self@[i as int],
    {
        &self.ops[i]
    }

    /// The instructions as a slice.
    pub fn as_slice(&self) -> (r: &[OpCode])
        ensures
            r.deep_view() == self@,
    {
        self.ops.as_slice()
    }
}

} // verus!

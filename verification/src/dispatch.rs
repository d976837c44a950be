//! The dispatch table: a dense array of 256 handlers, one per opcode byte.
//!
//! Building starts from a default handler in every slot and then, for each
//! (mnemonic, handler) pair in order, resolves the mnemonic against the
//! table and overwrites that slot.  A mnemonic the table does not define is
//! a build-time failure; two pairs resolving to the same byte value are not:
//! the later one silently wins.

use vstd::prelude::*;

use crate::table::{lemma_mn_find_some, mn_find, BuildError, BuildErrModel, OpcodeTable, TableModel};

verus! {

/// The handler a byte value dispatches to after the action pairs up to the
/// end of `acts` have been applied over the default: the last pair whose
/// mnemonic resolves to `v` wins.
pub open spec fn dispatch_slot<H>(
    t: TableModel,
    acts: Seq<(String, H)>,
    v: u8,
    default: H,
) -> H
    decreases acts.len(),
{
    if acts.len() == 0 {
        default
    } else if mn_find(t, acts.last().0@) == Some(v) {
        acts.last().1
    } else {
        dispatch_slot(t, acts.drop_last(), v, default)
    }
}

/// The first action pair whose mnemonic the table does not define, at or
/// after `i`.
pub open spec fn first_unresolved<H>(t: TableModel, acts: Seq<(String, H)>, i: int) -> Option<int>
    decreases acts.len() - i,
{
    if i < 0 || i >= acts.len() {
        None
    } else if mn_find(t, acts[i].0@) is None {
        Some(i)
    } else {
        first_unresolved(t, acts, i + 1)
    }
}

/// A dense array of 256 handlers, indexable by any opcode byte; built once,
/// read-only afterwards.
#[derive(Debug)]
pub struct DispatchTable<H> {
    slots: Vec<H>,
}

impl<H> View for DispatchTable<H> {
    type V = Seq<H>;

    closed spec fn view(&self) -> Seq<H> {
        self.slots@
    }
}

impl<H> DispatchTable<H> {
    #[verifier::type_invariant]
    spec fn inv(&self) -> bool {
        self@.len() == 256
    }
}

impl<H: Copy> DispatchTable<H> {
    /// Build the table: every slot starts at `default`, then each action
    /// pair in order overwrites the slot its mnemonic resolves to.  The
    /// first pair whose mnemonic the table does not define fails the build.
    pub fn build(
        table: &OpcodeTable,
        actions: &Vec<(String, H)>,
        default: H,
    ) -> (r: Result<DispatchTable<H>, BuildError>)
        ensures
            match r {
                Ok(dt) => {
                    &&& first_unresolved(table@, actions@, 0) is None
                    &&& dt@.len() == 256
                    &&& forall|v: int|
                        0 <= v < 256 ==> dt@[v] == dispatch_slot(
                            table@,
                            actions@,
                            v as u8,
                            default,
                        )
                },
                Err(e) => {
                    &&& e is UndefinedOpcode
                    &&& first_unresolved(table@, actions@, 0) matches Some(j) && e@
                        == BuildErrModel::UndefinedOpcode(actions@[j].0@)
                },
            },
    {
        let ghost t = table@;
        let mut slots: Vec<H> = Vec::new();
        while slots.len() < 256
            invariant
                slots@.len() <= 256,
                forall|q: int| 0 <= q < slots@.len() ==> slots@[q] == default,
            decreases 256 - slots@.len(),
        {
            slots.push(default);
        }
        proof {
            assert forall|v: int| 0 <= v < 256 implies slots@[v] == dispatch_slot(
                t,
                actions@.take(0),
                v as u8,
                default,
            ) by {
                assert(actions@.take(0).len() == 0);
            }
        }
        let n = actions.len();
        let mut i: usize = 0;
        while i < n
            invariant
                t == table@,
                n == actions@.len(),
                i <= n,
                slots@.len() == 256,
                first_unresolved(t, actions@, 0) == first_unresolved(t, actions@, i as int),
                forall|v: int|
                    0 <= v < 256 ==> slots@[v] == dispatch_slot(
                        t,
                        actions@.take(i as int),
                        v as u8,
                        default,
                    ),
            decreases n - i,
        {
            let mnemonic = &actions[i].0;
            match table.lookup_mnemonic(mnemonic.as_str()) {
                None => {
                    return Err(BuildError::UndefinedOpcode(mnemonic.clone()));
                },
                Some(v) => {
                    let ghost pre = slots@;
                    slots[v as usize] = actions[i].1;
                    proof {
                        use_type_invariant(table);
                        lemma_mn_find_some(t, actions@[i as int].0@, 0);
                        let acts1 = actions@.take(i as int + 1);
                        assert(acts1.drop_last() =~= actions@.take(i as int));
                        assert(acts1.last() == actions@[i as int]);
                        assert forall|w: int| 0 <= w < 256 implies slots@[w] == dispatch_slot(
                            t,
                            acts1,
                            w as u8,
                            default,
                        ) by {
                            if w == v as int {
                                assert(mn_find(t, acts1.last().0@) == Some(w as u8));
                            } else {
                                assert(mn_find(t, acts1.last().0@) != Some(w as u8));
                                assert(slots@[w] == pre[w]);
                            }
                        }
                    }
                },
            }
            i += 1;
        }
        proof {
            assert(actions@.take(n as int) =~= actions@);
        }
        Ok(DispatchTable { slots })
    }

    /// The handler for a byte value: every value has one, the default where
    /// nothing was installed.
    pub fn get(&self, v: u8) -> (h: H)
        ensures
            h == self@[v as int],
    {
        proof {
            use_type_invariant(self);
        }
        self.slots[v as usize]
    }

    /// The number of slots: one per possible opcode byte.
    pub fn len(&self) -> (r: usize)
        ensures
            r == self@.len(),
            r == 256,
    {
        proof {
            use_type_invariant(self);
        }
        self.slots.len()
    }
}

} // verus!

//! The validated data model of the instruction set: opcode descriptors and
//! the table compiled from them.
//!
//! An [`OpcodeTable`] is built once from an ordered list of
//! [`OpcodeDescriptor`]s.  Construction is a single pass that fails on the
//! first descriptor whose value is out of range or that repeats a mnemonic or
//! a value.  The finished table is immutable and offers lookup by byte value
//! (dense, one slot per value) and by mnemonic.

use vstd::prelude::*;

verus! {

/// One row of the instruction-set definition, as supplied by the front end.
///
/// `value` is declared wider than a byte so that an out-of-range declaration
/// can be rejected at build time rather than silently truncated.
pub struct OpcodeDescriptor {
    pub value: u16,
    pub mnemonic: String,
    pub immediate_size: u8,
    pub stack_removed: u8,
    pub stack_added: u8,
}

/// The mathematical model of one descriptor.
pub struct DescModel {
    pub value: u16,
    pub mnemonic: Seq<char>,
    pub immediate_size: u8,
    pub stack_removed: u8,
    pub stack_added: u8,
}

impl View for OpcodeDescriptor {
    type V = DescModel;

    open spec fn view(&self) -> DescModel {
        DescModel {
            value: self.value,
            mnemonic: self.mnemonic@,
            immediate_size: self.immediate_size,
            stack_removed: self.stack_removed,
            stack_added: self.stack_added,
        }
    }
}

impl DeepView for OpcodeDescriptor {
    type V = DescModel;

    open spec fn deep_view(&self) -> DescModel {
        self.view()
    }
}

/// One slot of the finished table: everything known about the opcode that
/// owns the slot's byte value.
#[derive(Debug)]
pub struct TableEntry {
    pub mnemonic: String,
    pub immediate_size: u8,
    pub stack_removed: u8,
    pub stack_added: u8,
}

/// The mathematical model of one table slot.
pub struct EntryModel {
    pub mnemonic: Seq<char>,
    pub immediate_size: u8,
    pub stack_removed: u8,
    pub stack_added: u8,
}

impl View for TableEntry {
    type V = EntryModel;

    open spec fn view(&self) -> EntryModel {
        EntryModel {
            mnemonic: self.mnemonic@,
            immediate_size: self.immediate_size,
            stack_removed: self.stack_removed,
            stack_added: self.stack_added,
        }
    }
}

/// A build-time failure of table or dispatch-table construction.
///
/// The first three variants arise while compiling the descriptor list; the
/// last arises while resolving a dispatch action list against the table.
#[derive(Debug, PartialEq, Eq)]
pub enum BuildError {
    DuplicateMnemonic(String),
    DuplicateValue(u8),
    ValueOutOfRange(u16),
    UndefinedOpcode(String),
}

/// The mathematical model of a [`BuildError`].
pub enum BuildErrModel {
    DuplicateMnemonic(Seq<char>),
    DuplicateValue(u8),
    ValueOutOfRange(u16),
    UndefinedOpcode(Seq<char>),
}

impl View for BuildError {
    type V = BuildErrModel;

    open spec fn view(&self) -> BuildErrModel {
        match self {
            BuildError::DuplicateMnemonic(m) => BuildErrModel::DuplicateMnemonic(m@),
            BuildError::DuplicateValue(v) => BuildErrModel::DuplicateValue(*v),
            BuildError::ValueOutOfRange(v) => BuildErrModel::ValueOutOfRange(*v),
            BuildError::UndefinedOpcode(m) => BuildErrModel::UndefinedOpcode(m@),
        }
    }
}

/// The model of a table: one optional entry per byte value, index = value.
pub type TableModel = Seq<Option<EntryModel>>;

/// A well-formed table has exactly one slot per byte value and never uses
/// the same mnemonic for two values.
pub open spec fn table_wf(t: TableModel) -> bool {
    &&& t.len() == 256
    &&& forall|v1: int, v2: int|
        #![trigger t[v1], t[v2]]
        0 <= v1 < 256 && 0 <= v2 < 256 && v1 != v2 && t[v1] is Some && t[v2] is Some
            ==> t[v1]->0.mnemonic != t[v2]->0.mnemonic
}

/// First value at or after `i` whose slot holds the mnemonic `m`.
pub open spec fn mn_find_from(t: TableModel, m: Seq<char>, i: int) -> Option<u8>
    decreases t.len() - i,
{
    if i < 0 || i >= t.len() {
        None
    } else if t[i] is Some && t[i]->0.mnemonic == m {
        Some(i as u8)
    } else {
        mn_find_from(t, m, i + 1)
    }
}

/// The byte value a mnemonic resolves to, if any: the first slot that holds it.
pub open spec fn mn_find(t: TableModel, m: Seq<char>) -> Option<u8> {
    mn_find_from(t, m, 0)
}

/// What a successful mnemonic lookup guarantees about the slot it found.
pub proof fn lemma_mn_find_some(t: TableModel, m: Seq<char>, i: int)
    requires
        t.len() <= 256,
        mn_find_from(t, m, i) is Some,
    ensures
        ({
            let v = mn_find_from(t, m, i)->0;
            &&& i <= v < t.len()
            &&& t[v as int] is Some
            &&& t[v as int]->0.mnemonic == m
        }),
    decreases t.len() - i,
{
    if !(i < 0 || i >= t.len()) && !(t[i] is Some && t[i]->0.mnemonic == m) {
        lemma_mn_find_some(t, m, i + 1);
    }
}

/// In a well-formed table, looking up the mnemonic of any occupied slot
/// finds exactly that slot.
pub proof fn lemma_mn_find_complete(t: TableModel, v: u8)
    requires
        table_wf(t),
        t[v as int] is Some,
    ensures
        mn_find(t, t[v as int]->0.mnemonic) == Some(v),
{
    lemma_mn_find_complete_from(t, v, 0);
}

proof fn lemma_mn_find_complete_from(t: TableModel, v: u8, i: int)
    requires
        table_wf(t),
        t[v as int] is Some,
        0 <= i <= v as int,
    ensures
        mn_find_from(t, t[v as int]->0.mnemonic, i) == Some(v),
    decreases t.len() - i,
{
    let m = t[v as int]->0.mnemonic;
    if i == v as int {
    } else {
        assert(t[i] is Some ==> t[i]->0.mnemonic != m);
        lemma_mn_find_complete_from(t, v, i + 1);
    }
}

/// A failed scan means no occupied slot at or after `i` holds the mnemonic.
proof fn lemma_mn_find_none(t: TableModel, m: Seq<char>, i: int)
    requires
        0 <= i,
        mn_find_from(t, m, i) is None,
    ensures
        forall|v: int| i <= v < t.len() && t[v] is Some ==> (#[trigger] t[v])->0.mnemonic != m,
    decreases t.len() - i,
{
    if 0 <= i < t.len() {
        lemma_mn_find_none(t, m, i + 1);
    }
}

/// The table model that build starts from: every slot empty.
pub open spec fn empty_table() -> TableModel {
    Seq::new(256, |i: int| None::<EntryModel>)
}

/// What building from a descriptor list yields, starting from table `t` at
/// descriptor `i`: the finished table, or the error for the first offending
/// descriptor.  Per descriptor, an out-of-range value is reported first,
/// then a repeated mnemonic, then a repeated value.
pub open spec fn spec_build_from(
    t: TableModel,
    descs: Seq<DescModel>,
    i: int,
) -> Result<TableModel, BuildErrModel>
    decreases descs.len() - i,
{
    if i < 0 || i >= descs.len() {
        Ok(t)
    } else {
        let d = descs[i];
        if d.value > 255 {
            Err(BuildErrModel::ValueOutOfRange(d.value))
        } else if mn_find(t, d.mnemonic) is Some {
            Err(BuildErrModel::DuplicateMnemonic(d.mnemonic))
        } else if t[d.value as int] is Some {
            Err(BuildErrModel::DuplicateValue(d.value as u8))
        } else {
            let e = EntryModel {
                mnemonic: d.mnemonic,
                immediate_size: d.immediate_size,
                stack_removed: d.stack_removed,
                stack_added: d.stack_added,
            };
            spec_build_from(t.update(d.value as int, Some(e)), descs, i + 1)
        }
    }
}

/// What building from a descriptor list yields.
pub open spec fn spec_build(descs: Seq<DescModel>) -> Result<TableModel, BuildErrModel> {
    spec_build_from(empty_table(), descs, 0)
}

/// The model of a raw slot vector.
spec fn slots_model(es: Seq<Option<TableEntry>>) -> TableModel {
    es.map_values(
        |e: Option<TableEntry>|
            match e {
                Some(en) => Some(en@),
                None => None,
            },
    )
}

/// Mnemonic scan over a raw slot vector.
fn find_mnemonic_in(entries: &Vec<Option<TableEntry>>, m: &str) -> (r: Option<u8>)
    requires
        entries@.len() == 256,
    ensures
        r == mn_find(slots_model(entries@), m@),
{
    let ghost t = slots_model(entries@);
    let target = m.to_owned();
    let mut v: usize = 0;
    while v < 256
        invariant
            entries@.len() == 256,
            t == slots_model(entries@),
            target@ == m@,
            v <= 256,
            mn_find(t, m@) == mn_find_from(t, m@, v as int),
        decreases 256 - v,
    {
        match &entries[v] {
            Some(e) => {
                if e.mnemonic == target {
                    return Some(v as u8);
                }
            },
            None => {},
        }
        v += 1;
    }
    None
}

/// The instruction-set table: immutable once built, with dense lookup by
/// byte value and mnemonic lookup over the occupied slots.
#[derive(Debug)]
pub struct OpcodeTable {
    entries: Vec<Option<TableEntry>>,
}

impl View for OpcodeTable {
    type V = TableModel;

    closed spec fn view(&self) -> TableModel {
        slots_model(self.entries@)
    }
}

impl OpcodeTable {
    #[verifier::type_invariant]
    pub(crate) open spec fn inv(&self) -> bool {
        table_wf(self@)
    }

    /// Compile an ordered descriptor list into a table.
    ///
    /// A single pass inserts each descriptor, failing on the first collision
    /// or out-of-range value with the error `spec_build` assigns to it.
    pub fn build(descs: &Vec<OpcodeDescriptor>) -> (r: Result<OpcodeTable, BuildError>)
        ensures
            match r {
                Ok(t) => spec_build(descs.deep_view()) == Ok::<TableModel, BuildErrModel>(t@)
                    && table_wf(t@),
                Err(e) => spec_build(descs.deep_view()) == Err::<TableModel, BuildErrModel>(e@),
            },
    {
        let ghost dm = descs.deep_view();
        let mut entries: Vec<Option<TableEntry>> = Vec::new();
        while entries.len() < 256
            invariant
                entries@.len() <= 256,
                forall|j: int| 0 <= j < entries@.len() ==> entries@[j] is None,
            decreases 256 - entries@.len(),
        {
            entries.push(None);
        }
        proof {
            assert(slots_model(entries@) =~= empty_table());
        }
        let n = descs.len();
        let mut i: usize = 0;
        while i < n
            invariant
                n == descs@.len(),
                dm == descs.deep_view(),
                entries@.len() == 256,
                i <= n,
                table_wf(slots_model(entries@)),
                spec_build_from(slots_model(entries@), dm, i as int) == spec_build(dm),
            decreases n - i,
    {
            proof {
                assert(dm[i as int] == descs@[i as int]@);
            }
            let d = &descs[i];
            if d.value > 255 {
                return Err(BuildError::ValueOutOfRange(d.value));
            }
            let v = d.value as usize;
            if find_mnemonic_in(&entries, d.mnemonic.as_str()).is_some() {
                return Err(BuildError::DuplicateMnemonic(d.mnemonic.clone()));
            }
            if entries[v].is_some() {
                return Err(BuildError::DuplicateValue(d.value as u8));
            }
            let entry = TableEntry {
                mnemonic: d.mnemonic.clone(),
                immediate_size: d.immediate_size,
                stack_removed: d.stack_removed,
                stack_added: d.stack_added,
            };
            let ghost pre = slots_model(entries@);
            entries[v] = Some(entry);
            proof {
                assert(slots_model(entries@) =~= pre.update(
                    v as int,
                    Some(
                        EntryModel {
                            mnemonic: dm[i as int].mnemonic,
                            immediate_size: dm[i as int].immediate_size,
                            stack_removed: dm[i as int].stack_removed,
                            stack_added: dm[i as int].stack_added,
                        },
                    ),
                ));
                lemma_table_wf_insert(pre, dm[i as int]);
            }
            i += 1;
        }
        Ok(OpcodeTable { entries })
    }

    /// The slot for a byte value, occupied or not.
    pub fn lookup_value(&self, v: u8) -> (r: Option<&TableEntry>)
        ensures
            match r {
                Some(e) => self@[v as int] == Some(e@),
                None => self@[v as int] is None,
            },
    {
        proof {
            use_type_invariant(self);
        }
        match &self.entries[v as usize] {
            Some(e) => Some(e),
            None => None,
        }
    }

    /// The byte value a mnemonic resolves to, if the table defines it.
    pub fn lookup_mnemonic(&self, m: &str) -> (r: Option<u8>)
        ensures
            r == mn_find(self@, m@),
    {
        proof {
            use_type_invariant(self);
        }
        find_mnemonic_in(&self.entries, m)
    }
}

/// Inserting a fresh mnemonic at a free slot keeps the table well-formed.
proof fn lemma_table_wf_insert(t: TableModel, d: DescModel)
    requires
        table_wf(t),
        d.value <= 255,
        mn_find(t, d.mnemonic) is None,
        t[d.value as int] is None,
    ensures
        table_wf(
            t.update(
                d.value as int,
                Some(
                    EntryModel {
                        mnemonic: d.mnemonic,
                        immediate_size: d.immediate_size,
                        stack_removed: d.stack_removed,
                        stack_added: d.stack_added,
                    },
                ),
            ),
        ),
{
    lemma_mn_find_none(t, d.mnemonic, 0);
}

} // verus!

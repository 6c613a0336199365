use vstd::prelude::*;
use std::collections::HashMap;
use std::collections::hash_map::Entry;

verus! {

pub type BTreeNodeId = u64;

pub type BTreeCellId = u32;

pub type BtreeCellLoc = (BTreeNodeId, BTreeCellId);

/// The size in bytes of a node pointer as the store writes it.
pub const NODE_PTR_SIZE: usize = 8;

/// `256` to the power `n`.
pub open spec fn pow256(n: nat) -> nat
    decreases n,
{
    if n == 0 {
        1
    } else {
        256 * pow256((n - 1) as nat)
    }
}

/// The number that big-endian bytes denote.
pub open spec fn be_value(bytes: Seq<u8>) -> nat
    decreases bytes.len(),
{
    if bytes.len() == 0 {
        0
    } else {
        be_value(bytes.drop_last()) * 256 + bytes.last() as nat
    }
}

/// The eight big-endian bytes of `v`.
pub open spec fn be_bytes(v: nat) -> Seq<u8> {
    Seq::new(8, |i: int| ((v / pow256((7 - i) as nat)) % 256) as u8)
}

/// The position of the first-free-node pointer in the header payload.
pub open spec fn free_ptr_range(header: Seq<u8>) -> Seq<u8> {
    header.subrange(NODE_PTR_SIZE as int, 2 * NODE_PTR_SIZE as int)
}

proof fn lemma_pow256_facts()
    ensures
        pow256(7) == 0x100_0000_0000_0000,
        pow256(8) == 0x1_0000_0000_0000_0000,
{
    reveal_with_fuel(pow256, 9);
}

proof fn lemma_pow256_mono(i: nat, j: nat)
    requires
        i <= j,
    ensures
        pow256(i) <= pow256(j),
    decreases j,
{
    if i < j {
        lemma_pow256_mono(i, (j - 1) as nat);
    }
}

/// The prefix of length `k` of the big-endian bytes of `v` denotes `v`
/// without its `8 - k` last bytes.
proof fn lemma_be_prefix(v: nat, k: nat)
    requires
        k <= 8,
        v < pow256(8),
    ensures
        be_value(be_bytes(v).take(k as int)) == v / pow256((8 - k) as nat),
    decreases k,
{
    if k == 0 {
        assert(be_bytes(v).take(0) =~= Seq::<u8>::empty());
        vstd::arithmetic::div_mod::lemma_basic_div(v as int, pow256(8) as int);
    } else {
        lemma_be_prefix(v, (k - 1) as nat);
        let s = be_bytes(v).take(k as int);
        assert(s.drop_last() =~= be_bytes(v).take(k - 1));
        let p = pow256((8 - k) as nat);
        assert(p > 0) by {
            lemma_pow256_mono(0, (8 - k) as nat);
        }
        assert(pow256((9 - k) as nat) == 256 * p);
        let q = v / p;
        assert(s.last() == q % 256);
        vstd::arithmetic::div_mod::lemma_div_denominator(v as int, p as int, 256);
        vstd::arithmetic::div_mod::lemma_fundamental_div_mod(q as int, 256);
        vstd::arithmetic::mul::lemma_mul_is_commutative(p as int, 256);
    }
}

/// Reading back the big-endian bytes of a number gives the number.
pub proof fn law_be_round_trip(v: u64)
    ensures
        be_value(be_bytes(v as nat)) == v,
{
    lemma_pow256_facts();
    lemma_be_prefix(v as nat, 8);
    assert(be_bytes(v as nat).take(8) =~= be_bytes(v as nat));
    assert(pow256(0) == 1);
    vstd::arithmetic::div_mod::lemma_div_basics(v as int);
}

/// The first-free-node pointer that the header payload holds, written big-endian
/// after the first node pointer.
pub fn get_first_free_list_node_ptr(header: &[u8]) -> (r: BTreeNodeId)
    requires
        header@.len() >= 2 * NODE_PTR_SIZE,
    ensures
        r == be_value(free_ptr_range(header@)),
{
    let mut acc: u64 = 0;
    let mut i: usize = 0;
    proof {
        lemma_pow256_facts();
        assert(header@.subrange(8, 8) =~= Seq::<u8>::empty());
    }
    while i < NODE_PTR_SIZE
        invariant
            i <= 8,
            header@.len() >= 16,
            acc == be_value(header@.subrange(8, 8 + i)),
            acc < pow256(i as nat),
            pow256(7) == 0x100_0000_0000_0000,
        decreases 8 - i,
    {
        proof {
            lemma_pow256_mono(i as nat, 7);
            let s = header@.subrange(8, 8 + i + 1);
            assert(s.drop_last() =~= header@.subrange(8, 8 + i));
        }
        acc = acc * 256 + header[NODE_PTR_SIZE + i] as u64;
        i = i + 1;
    }
    acc
}

/// Writes `id` big-endian as the first-free-node pointer of the header
/// payload, leaving the other bytes as they were.
pub fn set_first_free_list_node_ptr(header: &mut [u8], id: BTreeNodeId)
    requires
        old(header)@.len() >= 2 * NODE_PTR_SIZE,
    ensures
        final(header)@ == old(header)@.subrange(0, NODE_PTR_SIZE as int) + be_bytes(id as nat)
            + old(header)@.subrange(2 * NODE_PTR_SIZE as int, old(header)@.len() as int),
{
    let mut x: u64 = id;
    let mut k: usize = 0;
    proof {
        assert(pow256(0) == 1);
        vstd::arithmetic::div_mod::lemma_div_basics(id as int);
    }
    while k < NODE_PTR_SIZE
        invariant
            k <= 8,
            header@.len() == old(header)@.len(),
            old(header)@.len() >= 16,
            x == id as nat / pow256(k as nat),
            forall|i: int| 0 <= i < 16 - k || 16 <= i < header@.len() ==> header@[i] == old(header)@[i],
            forall|i: int| 16 - k <= i < 16 ==> header@[i] == be_bytes(id as nat)[i - 8],
        decreases 8 - k,
    {
        header[15 - k] = (x % 256) as u8;
        proof {
            lemma_pow256_mono(0, k as nat);
            vstd::arithmetic::div_mod::lemma_div_denominator(id as int, pow256(k as nat) as int, 256);
            vstd::arithmetic::mul::lemma_mul_is_commutative(pow256(k as nat) as int, 256);
            assert(be_bytes(id as nat)[7 - k as int] == (x % 256) as u8);
        }
        x = x / 256;
        k = k + 1;
    }
    let ghost expected = old(header)@.subrange(0, 8) + be_bytes(id as nat) + old(
        header,
    )@.subrange(16, old(header)@.len() as int);
    assert forall|i: int| 0 <= i < header@.len() implies header@[i] == expected[i] by {
        if 8 <= i < 16 {
            assert(expected[i] == be_bytes(id as nat)[i - 8]);
        } else if i < 8 {
            assert(expected[i] == old(header)@[i]);
        } else {
            assert(expected[i] == old(header)@[i]);
        }
    }
    assert(header@ =~= expected);
}

/// Reading the first-free-node pointer after writing it gives back what was
/// written, and writing it leaves the rest of the header payload unchanged.
pub proof fn law_free_ptr_write_read(header: Seq<u8>, id: u64)
    requires
        header.len() >= 16,
    ensures
        ({
            let written = header.subrange(0, 8) + be_bytes(id as nat) + header.subrange(
                16,
                header.len() as int,
            );
            &&& be_value(free_ptr_range(written)) == id
            &&& written.len() == header.len()
            &&& forall|i: int|
                0 <= i < header.len() && !(8 <= i < 16) ==> #[trigger] written[i] == header[i]
        }),
{
    let written = header.subrange(0, 8) + be_bytes(id as nat) + header.subrange(
        16,
        header.len() as int,
    );
    assert(free_ptr_range(written) =~= be_bytes(id as nat));
    law_be_round_trip(id);
}

/// Puts a node record at the front of the free list: the record links to the
/// node that the header named first, and the header now names the record.
pub fn append_node_record_to_free_list(
    header: &mut [u8],
    node_record_id: BTreeNodeId,
    next_free_cells_node_ptr: &mut BTreeNodeId,
)
    requires
        old(header)@.len() >= 2 * NODE_PTR_SIZE,
    ensures
        *final(next_free_cells_node_ptr) == be_value(free_ptr_range(old(header)@)),
        final(header)@ == old(header)@.subrange(0, NODE_PTR_SIZE as int) + be_bytes(
            node_record_id as nat,
        ) + old(header)@.subrange(2 * NODE_PTR_SIZE as int, old(header)@.len() as int),
{
    *next_free_cells_node_ptr = get_first_free_list_node_ptr(header);
    set_first_free_list_node_ptr(header, node_record_id);
}

/// What a node of the free list tells when it is loaded: whether all its
/// cells are in use, and the next node of the list.
#[derive(PartialEq, Eq, Structural, Copy, Clone, Debug)]
pub struct FreeNodeInfo {
    pub is_full: bool,
    pub next_free_cells_node_ptr: BTreeNodeId,
}

/// What the search for a node with free cells does next.
#[derive(PartialEq, Eq, Structural, Copy, Clone, Debug)]
pub enum FreeListStep {
    /// The store holds no record yet: create a first overflow node, make it
    /// the head of the free list and use it.
    CreateFirstNode,
    /// The free list is empty: create an overflow node, make it the head of
    /// the free list and use it.
    CreateOverflowNode,
    /// The head of the free list is full: make the given node the head and
    /// look again.
    Advance(BTreeNodeId),
    /// Use the given node.
    Use(BTreeNodeId),
}

/// The step that the search for a node with free cells takes, given whether
/// the store is empty, the head of the free list, and what loading the head
/// gave (nothing where it could not be loaded).
pub open spec fn free_list_step_spec(
    records_set_empty: bool,
    first_free_ptr: BTreeNodeId,
    first_free_node: Option<FreeNodeInfo>,
) -> FreeListStep {
    if records_set_empty {
        FreeListStep::CreateFirstNode
    } else if first_free_ptr == 0 {
        FreeListStep::CreateOverflowNode
    } else {
        match first_free_node {
            Some(info) => if info.is_full {
                FreeListStep::Advance(info.next_free_cells_node_ptr)
            } else {
                FreeListStep::Use(first_free_ptr)
            },
            None => FreeListStep::Use(first_free_ptr),
        }
    }
}

pub fn free_list_step(
    records_set_empty: bool,
    first_free_ptr: BTreeNodeId,
    first_free_node: Option<FreeNodeInfo>,
) -> (r: FreeListStep)
    ensures
        r == free_list_step_spec(records_set_empty, first_free_ptr, first_free_node),
{
    if records_set_empty {
        FreeListStep::CreateFirstNode
    } else if first_free_ptr == 0 {
        FreeListStep::CreateOverflowNode
    } else {
        let next = match first_free_node {
            Some(info) => {
                if info.is_full {
                    Some(info.next_free_cells_node_ptr)
                } else {
                    None
                }
            },
            None => None,
        };
        match next {
            Some(n) => FreeListStep::Advance(n),
            None => FreeListStep::Use(first_free_ptr),
        }
    }
}

/// The index of the first cell not in use, given whether each cell is in use.
pub fn first_free_cell(cells_active: &Vec<bool>) -> (r: Option<BTreeCellId>)
    requires
        cells_active@.len() <= u32::MAX,
    ensures
        match r {
            Some(i) => i < cells_active@.len() && !cells_active@[i as int] && forall|k: int|
                0 <= k < i ==> cells_active@[k],
            None => forall|k: int| 0 <= k < cells_active@.len() ==> cells_active@[k],
        },
{
    let mut cell_id: u32 = 0;
    let mut i: usize = 0;
    while i < cells_active.len()
        invariant
            i <= cells_active@.len(),
            cells_active@.len() <= u32::MAX,
            cell_id == i,
            forall|k: int| 0 <= k < i ==> cells_active@[k],
        decreases cells_active@.len() - i,
    {
        if !cells_active[i] {
            return Some(cell_id);
        }
        cell_id = cell_id + 1;
        i = i + 1;
    }
    None
}


broadcast use vstd::std_specs::hash::group_hash_axioms;

/// The records of a record store held in memory, by record identifier. A
/// record is read from the store once; afterwards the copy in memory is used.
pub struct NodeRecordPool<R> {
    pub records: HashMap<u64, R>,
}

/// The mutable reference to the value under `k`, if there is one.
fn map_get_mut<'a, R>(m: &'a mut HashMap<u64, R>, k: &u64) -> (r: Option<&'a mut R>)
    ensures
        match r {
            Some(v) => {
                &&& old(m)@.contains_key(*k)
                &&& *v == old(m)@[*k]
                &&& final(m)@ == old(m)@.insert(*k, *final(v))
            },
            None => !old(m)@.contains_key(*k) && final(m)@ == old(m)@,
        },
{
    broadcast use vstd::std_specs::hash::axiom_has_resolved_vacant_entry;

    match m.entry(*k) {
        Entry::Occupied(o) => Some(o.into_mut()),
        Entry::Vacant(_) => None,
    }
}

impl<R> NodeRecordPool<R> {
    pub fn new() -> (r: Self)
        ensures
            r.records@ == Map::<u64, R>::empty(),
    {
        NodeRecordPool { records: HashMap::new() }
    }

    /// The cache after a load of `id`: unchanged when `id` is held; with
    /// what the store gave otherwise.
    pub open spec fn loaded(old_records: Map<u64, R>, id: u64, read: Option<R>) -> Map<u64, R> {
        if old_records.contains_key(id) {
            old_records
        } else {
            match read {
                Some(rec) => old_records.insert(id, rec),
                None => old_records,
            }
        }
    }

    /// Makes record `id` held in memory, reading it with `load` if it is not
    /// held yet; `false` where the read failed.
    fn ensure_loaded<F: FnOnce() -> Option<R>>(&mut self, id: u64, load: F) -> (r: bool)
        requires
            load.requires(()),
        ensures
            r == final(self).records@.contains_key(id),
            old(self).records@.contains_key(id) ==> final(self).records@ == old(self).records@,
            !old(self).records@.contains_key(id) ==> exists|read: Option<R>|
                #[trigger] load.ensures((), read) && final(self).records@ == Self::loaded(
                    old(self).records@,
                    id,
                    read,
                ),
    {
        if !self.records.contains_key(&id) {
            let read = load();
            match read {
                Some(rec) => {
                    self.records.insert(id, rec);
                },
                None => {
                    return false;
                },
            }
        }
        true
    }

    /// The record `id`, read with `load` if it is not held yet.
    pub fn load_node_record_ref<F: FnOnce() -> Option<R>>(&mut self, id: u64, load: F) -> (r:
        Option<&R>)
        requires
            load.requires(()),
        ensures
            old(self).records@.contains_key(id) ==> final(self).records@ == old(self).records@,
            !old(self).records@.contains_key(id) ==> exists|read: Option<R>|
                #[trigger] load.ensures((), read) && final(self).records@ == Self::loaded(
                    old(self).records@,
                    id,
                    read,
                ),
            match r {
                Some(v) => final(self).records@.contains_key(id) && *v == final(self).records@[id],
                None => !final(self).records@.contains_key(id),
            },
    {
        if !self.ensure_loaded(id, load) {
            return None;
        }
        self.records.get(&id)
    }

    /// A copy of the record `id`, read with `load` if it is not held yet.
    pub fn load_node_record_clone<F: FnOnce() -> Option<R>>(&mut self, id: u64, load: F) -> (r:
        Option<R>) where R: Clone
        requires
            load.requires(()),
        ensures
            old(self).records@.contains_key(id) ==> final(self).records@ == old(self).records@,
            !old(self).records@.contains_key(id) ==> exists|read: Option<R>|
                #[trigger] load.ensures((), read) && final(self).records@ == Self::loaded(
                    old(self).records@,
                    id,
                    read,
                ),
            match r {
                Some(v) => final(self).records@.contains_key(id) && cloned(
                    final(self).records@[id],
                    v,
                ),
                None => !final(self).records@.contains_key(id),
            },
    {
        if !self.ensure_loaded(id, load) {
            return None;
        }
        match self.records.get(&id) {
            Some(rec) => Some(rec.clone()),
            None => None,
        }
    }

    /// The record `id` for changing it, read with `load` if it is not held yet.
    pub fn load_node_record_mut<F: FnOnce() -> Option<R>>(&mut self, id: u64, load: F) -> (r:
        Option<&mut R>)
        requires
            load.requires(()),
        ensures
            old(self).records@.contains_key(id) ==> (r matches Some(v) && *v == old(
                self,
            ).records@[id] && final(self).records@ == old(self).records@.insert(id, *final(v))),
            !old(self).records@.contains_key(id) ==> exists|read: Option<R>|
                #[trigger] load.ensures((), read) && match read {
                    Some(rec) => r matches Some(v) && *v == rec && final(self).records@ == old(
                        self,
                    ).records@.insert(id, *final(v)),
                    None => r is None && final(self).records@ == old(self).records@,
                },
    {
        if !self.ensure_loaded(id, load) {
            return None;
        }
        map_get_mut(&mut self.records, &id)
    }

    /// Creates a record in the store with `create`, which gives its
    /// identifier, and holds it in memory under that identifier.
    pub fn create_node_record<F: FnOnce(&R) -> Option<u64>>(
        &mut self,
        node_record: R,
        create: F,
    ) -> (r: Option<u64>)
        requires
            create.requires((&node_record,)),
        ensures
            create.ensures((&node_record,), r),
            match r {
                Some(id) => final(self).records@ == old(self).records@.insert(id, node_record),
                None => final(self).records@ == old(self).records@,
            },
    {
        let created = create(&node_record);
        match created {
            Some(id) => {
                self.records.insert(id, node_record);
                Some(id)
            },
            None => None,
        }
    }
}

} // verus!

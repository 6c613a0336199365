use vstd::prelude::*;
use vstd::string::StrSliceExecFns;

verus! {

pub type NodeId = u64;

pub type CellId = u32;

pub type DataPtr = u64;

/// The number of cells that a B-tree node holds when it is full.
pub const NB_CELL: usize = 16;

/// What a cell records of its changes since it was loaded.
struct CellChangeState {
    added_data_ptrs: Vec<NodeId>,
    removed_data_ptrs: Vec<NodeId>,
    is_new_instance: bool,
}

impl CellChangeState {
    fn new(new: bool) -> (r: Self)
        ensures
            r.added_data_ptrs@ == Seq::<NodeId>::empty(),
            r.removed_data_ptrs@ == Seq::<NodeId>::empty(),
            r.is_new_instance == new,
    {
        CellChangeState {
            added_data_ptrs: Vec::new(),
            removed_data_ptrs: Vec::new(),
            is_new_instance: new,
        }
    }
}

/// The content of a cell: its key, the pointer to a child node (inner nodes)
/// or to data (leaves), whether it is in use, its data pointers, and its
/// change record.
pub struct CellModel {
    pub key: Seq<char>,
    pub node_ptr: Option<NodeId>,
    pub is_active: bool,
    pub data_ptrs: Seq<NodeId>,
    pub added_data_ptrs: Seq<NodeId>,
    pub removed_data_ptrs: Seq<NodeId>,
    pub is_new_instance: bool,
}

/// A cell of a B-tree node.
pub struct Cell {
    key: String,
    node_ptr: Option<NodeId>,
    is_active: bool,
    data_ptrs: Vec<NodeId>,
    cell_change_state: CellChangeState,
}

impl View for Cell {
    type V = CellModel;

    closed spec fn view(&self) -> CellModel {
        CellModel {
            key: self.key@,
            node_ptr: self.node_ptr,
            is_active: self.is_active,
            data_ptrs: self.data_ptrs@,
            added_data_ptrs: self.cell_change_state.added_data_ptrs@,
            removed_data_ptrs: self.cell_change_state.removed_data_ptrs@,
            is_new_instance: self.cell_change_state.is_new_instance,
        }
    }
}

impl Cell {
    pub fn new_ptr(key: &str, ptr: Option<NodeId>) -> (r: Self)
        ensures
            r@ == (CellModel {
                key: key@,
                node_ptr: ptr,
                is_active: true,
                data_ptrs: Seq::empty(),
                added_data_ptrs: Seq::empty(),
                removed_data_ptrs: Seq::empty(),
                is_new_instance: true,
            }),
    {
        Cell {
            key: key.to_owned(),
            node_ptr: ptr,
            is_active: true,
            data_ptrs: Vec::new(),
            cell_change_state: CellChangeState::new(true),
        }
    }

    pub fn new_leaf(key: &str, data_ptr: NodeId) -> (r: Self)
        ensures
            r@ == (CellModel {
                key: key@,
                node_ptr: None,
                is_active: true,
                data_ptrs: seq![data_ptr],
                added_data_ptrs: Seq::empty(),
                removed_data_ptrs: Seq::empty(),
                is_new_instance: true,
            }),
    {
        let mut data_ptrs: Vec<NodeId> = Vec::new();
        data_ptrs.push(data_ptr);
        let r = Cell {
            key: key.to_owned(),
            node_ptr: None,
            is_active: true,
            data_ptrs: data_ptrs,
            cell_change_state: CellChangeState::new(true),
        };
        assert(r@.data_ptrs =~= seq![data_ptr]);
        r
    }

    pub fn new(key: &str, ptr: Option<NodeId>, data_ptrs: Vec<NodeId>, is_active: bool) -> (r: Self)
        ensures
            r@ == (CellModel {
                key: key@,
                node_ptr: ptr,
                is_active: is_active,
                data_ptrs: data_ptrs@,
                added_data_ptrs: Seq::empty(),
                removed_data_ptrs: Seq::empty(),
                is_new_instance: false,
            }),
    {
        Cell {
            key: key.to_owned(),
            node_ptr: ptr,
            is_active: is_active,
            data_ptrs: data_ptrs,
            cell_change_state: CellChangeState::new(false),
        }
    }

    pub fn append_data_ptr(&mut self, data_ptr: NodeId)
        ensures
            final(self)@ == (CellModel {
                data_ptrs: old(self)@.data_ptrs.push(data_ptr),
                added_data_ptrs: old(self)@.added_data_ptrs.push(data_ptr),
                ..old(self)@
            }),
    {
        self.cell_change_state.added_data_ptrs.push(data_ptr);
        self.data_ptrs.push(data_ptr);
    }

    pub fn get_data_ptrs_ref(&self) -> (r: &Vec<NodeId>)
        ensures
            r@ == self@.data_ptrs,
    {
        &self.data_ptrs
    }

    pub fn get_node_ptr(&self) -> (r: Option<NodeId>)
        ensures
            r == self@.node_ptr,
    {
        self.node_ptr
    }

    pub fn get_key(&self) -> (r: &String)
        ensures
            r@ == self@.key,
    {
        &self.key
    }

    /// Whether the cell is in use.
    pub fn is_active(&self) -> (r: bool)
        ensures
            r == self@.is_active,
    {
        self.is_active
    }
}

/// What a node records of its changes since it was loaded.
struct NodeChangeState {
    node_ptr_changed: bool,
    is_new_instance: bool,
}

impl NodeChangeState {
    fn new(is_new_instance: bool) -> (r: Self)
        ensures
            r.node_ptr_changed == false,
            r.is_new_instance == is_new_instance,
    {
        NodeChangeState { node_ptr_changed: false, is_new_instance: is_new_instance }
    }
}

/// The content of a B-tree node.
pub struct BTreeNodeModel {
    pub id: Option<NodeId>,
    pub cells: Seq<CellModel>,
    pub node_ptr: Option<NodeId>,
    pub is_leaf: bool,
    pub node_ptr_changed: bool,
    pub is_new_instance: bool,
}

/// The contents of a sequence of cells.
pub open spec fn cells_view(cells: Seq<Cell>) -> Seq<CellModel> {
    cells.map_values(|c: Cell| c@)
}

/// Replacing one cell replaces its content.
proof fn lemma_cells_view_update(s: Seq<Cell>, i: int)
    requires
        0 <= i < s.len(),
    ensures
        forall|c: Cell| #[trigger] cells_view(s.update(i, c)) == cells_view(s).update(i, c@),
{
    assert forall|c: Cell| #[trigger] cells_view(s.update(i, c)) == cells_view(s).update(i, c@) by {
        assert(cells_view(s.update(i, c)) =~= cells_view(s).update(i, c@));
    }
}

/// A node of a B-tree: a sequence of cells.
pub struct BTreeNode {
    id: Option<NodeId>,
    cells: Vec<Cell>,
    node_ptr: Option<NodeId>,
    is_leaf: bool,
    node_change_state: NodeChangeState,
}

impl View for BTreeNode {
    type V = BTreeNodeModel;

    closed spec fn view(&self) -> BTreeNodeModel {
        BTreeNodeModel {
            id: self.id,
            cells: cells_view(self.cells@),
            node_ptr: self.node_ptr,
            is_leaf: self.is_leaf,
            node_ptr_changed: self.node_change_state.node_ptr_changed,
            is_new_instance: self.node_change_state.is_new_instance,
        }
    }
}

/// The keys of the active cells, in cell order.
pub open spec fn active_keys(cells: Seq<CellModel>) -> Seq<Seq<char>>
    decreases cells.len(),
{
    if cells.len() == 0 {
        Seq::empty()
    } else if cells.last().is_active {
        active_keys(cells.drop_last()).push(cells.last().key)
    } else {
        active_keys(cells.drop_last())
    }
}

impl BTreeNode {
    pub fn new(is_leaf: bool, cells: Vec<Cell>) -> (r: Self)
        ensures
            r@ == (BTreeNodeModel {
                id: None,
                cells: cells_view(cells@),
                node_ptr: None,
                is_leaf: is_leaf,
                node_ptr_changed: false,
                is_new_instance: true,
            }),
    {
        BTreeNode {
            id: None,
            cells: cells,
            node_ptr: None,
            is_leaf: is_leaf,
            node_change_state: NodeChangeState::new(true),
        }
    }

    pub fn new_with_id(
        id: Option<NodeId>,
        node_ptr: Option<NodeId>,
        is_leaf: bool,
        cells: Vec<Cell>,
    ) -> (r: Self)
        ensures
            r@ == (BTreeNodeModel {
                id: id,
                cells: cells_view(cells@),
                node_ptr: node_ptr,
                is_leaf: is_leaf,
                node_ptr_changed: false,
                is_new_instance: false,
            }),
    {
        BTreeNode {
            id: id,
            cells: cells,
            node_ptr: node_ptr,
            is_leaf: is_leaf,
            node_change_state: NodeChangeState::new(false),
        }
    }

    pub fn is_full(&self) -> (r: bool)
        ensures
            r == (self@.cells.len() == NB_CELL),
    {
        self.cells.len() == NB_CELL
    }

    pub fn get_keys(&self) -> (r: Vec<String>)
        ensures
            r@.map_values(|s: String| s@) == active_keys(self@.cells),
    {
        let mut res: Vec<String> = Vec::new();
        let mut i: usize = 0;
        while i < self.cells.len()
            invariant
                i <= self.cells@.len(),
                res@.map_values(|s: String| s@) == active_keys(self@.cells.take(i as int)),
            decreases self.cells@.len() - i,
        {
            let cell = &self.cells[i];
            proof {
                assert(self@.cells.take(i + 1).drop_last() =~= self@.cells.take(i as int));
                assert(self@.cells.take(i + 1).last() == cell@);
            }
            if cell.is_active {
                let key = cell.key.clone();
                res.push(key);
                assert(res@.map_values(|s: String| s@) =~= active_keys(
                    self@.cells.take(i as int),
                ).push(cell@.key));
            }
            i = i + 1;
        }
        assert(self@.cells.take(self.cells@.len() as int) =~= self@.cells);
        res
    }

    pub fn get_cells_ref(&self) -> (r: &Vec<Cell>)
        ensures
            cells_view(r@) == self@.cells,
    {
        &self.cells
    }

    pub fn get_cell_ref(&self, index: usize) -> (r: &Cell)
        requires
            index < self@.cells.len(),
        ensures
            r@ == self@.cells[index as int],
    {
        &self.cells[index]
    }

    pub fn insert_cell(&mut self, index: usize, cell: Cell)
        requires
            index <= old(self)@.cells.len(),
        ensures
            final(self)@ == (BTreeNodeModel {
                cells: old(self)@.cells.insert(index as int, cell@),
                ..old(self)@
            }),
    {
        self.cells.insert(index, cell);
        assert(cells_view(self.cells@) =~= cells_view(old(self).cells@).insert(index as int, cell@));
    }

    pub fn pop_cell(&mut self) -> (r: Option<Cell>)
        ensures
            old(self)@.cells.len() == 0 ==> r is None && final(self)@ == old(self)@,
            old(self)@.cells.len() > 0 ==> (r matches Some(c) && c@ == old(self)@.cells.last()
                && final(self)@ == (BTreeNodeModel {
                cells: old(self)@.cells.drop_last(),
                ..old(self)@
            })),
    {
        let r = self.cells.pop();
        proof {
            if old(self).cells@.len() > 0 {
                assert(cells_view(self.cells@) =~= cells_view(old(self).cells@).drop_last());
            }
        }
        r
    }

    pub fn get_cell_mut(&mut self, index: usize) -> (r: &mut Cell)
        requires
            index < old(self)@.cells.len(),
        ensures
            r@ == old(self)@.cells[index as int],
            final(self)@ == (BTreeNodeModel {
                cells: old(self)@.cells.update(index as int, final(r)@),
                ..old(self)@
            }),
    {
        proof {
            lemma_cells_view_update(self.cells@, index as int);
        }
        &mut self.cells[index]
    }

    pub fn is_leaf(&self) -> (r: bool)
        ensures
            r == self@.is_leaf,
    {
        self.is_leaf
    }

    pub fn get_id(&self) -> (r: Option<NodeId>)
        ensures
            r == self@.id,
    {
        self.id
    }

    pub fn get_node_ptr(&self) -> (r: Option<NodeId>)
        ensures
            r == self@.node_ptr,
    {
        self.node_ptr
    }

    pub fn set_node_ptr(&mut self, id: Option<NodeId>)
        ensures
            final(self)@ == (BTreeNodeModel { node_ptr: id, node_ptr_changed: true, ..old(self)@ }),
    {
        self.node_change_state.node_ptr_changed = true;
        self.node_ptr = id;
    }
}


/// Lexicographic order on character sequences, the order of `String`.
pub open spec fn lex_lt(a: Seq<char>, b: Seq<char>) -> bool
    decreases a.len(),
{
    if a.len() == 0 {
        b.len() > 0
    } else if b.len() == 0 {
        false
    } else if (a[0] as u32) < (b[0] as u32) {
        true
    } else if a[0] == b[0] {
        lex_lt(a.drop_first(), b.drop_first())
    } else {
        false
    }
}

/// `lex_lt` is irreflexive and asymmetric, and any two sequences are equal or
/// ordered one way.
pub proof fn lemma_lex_total(a: Seq<char>, b: Seq<char>)
    ensures
        !lex_lt(a, a),
        lex_lt(a, b) ==> !lex_lt(b, a),
        lex_lt(a, b) || a == b || lex_lt(b, a),
    decreases a.len(),
{
    if a.len() > 0 {
        lemma_lex_total(a.drop_first(), a.drop_first());
        if b.len() > 0 {
            lemma_lex_total(a.drop_first(), b.drop_first());
            vstd::utf8::char_u32_cast(a[0], a[0] as u32);
            vstd::utf8::char_u32_cast(b[0], b[0] as u32);
            if a[0] == b[0] && a.drop_first() == b.drop_first() {
                assert(a =~= seq![a[0]] + a.drop_first());
                assert(b =~= seq![b[0]] + b.drop_first());
            }
        }
    } else if b.len() == 0 {
        assert(a =~= b);
    }
}

/// `lex_lt` is transitive.
pub proof fn lemma_lex_transitive(a: Seq<char>, b: Seq<char>, c: Seq<char>)
    requires
        lex_lt(a, b),
        lex_lt(b, c),
    ensures
        lex_lt(a, c),
    decreases a.len(),
{
    if a.len() > 0 && b.len() > 0 && c.len() > 0 {
        if a[0] == b[0] && b[0] == c[0] {
            lemma_lex_transitive(a.drop_first(), b.drop_first(), c.drop_first());
        }
    }
}

/// Whether `a` sorts strictly before `b`.
pub fn str_lt(a: &str, b: &str) -> (r: bool)
    ensures
        r == lex_lt(a@, b@),
{
    let la = a.unicode_len();
    let lb = b.unicode_len();
    let mut i: usize = 0;
    assert(a@.skip(0) =~= a@);
    assert(b@.skip(0) =~= b@);
    while i < la && i < lb
        invariant
            la == a@.len(),
            lb == b@.len(),
            i <= la,
            i <= lb,
            lex_lt(a@, b@) == lex_lt(a@.skip(i as int), b@.skip(i as int)),
        decreases la - i,
    {
        let ca = a.get_char(i);
        let cb = b.get_char(i);
        proof {
            assert(a@.skip(i as int)[0] == ca);
            assert(b@.skip(i as int)[0] == cb);
            assert(a@.skip(i as int).drop_first() =~= a@.skip(i + 1));
            assert(b@.skip(i as int).drop_first() =~= b@.skip(i + 1));
        }
        if (ca as u32) < (cb as u32) {
            return true;
        }
        if ca != cb {
            return false;
        }
        i = i + 1;
    }
    proof {
        assert(a@.skip(i as int).len() == la - i);
        assert(b@.skip(i as int).len() == lb - i);
    }
    i == la && i < lb
}

/// The index below `k` of the first key equal to `v`.
pub open spec fn first_match(keys: Seq<Seq<char>>, v: Seq<char>, k: nat) -> Option<nat>
    decreases k,
{
    if k == 0 {
        None
    } else {
        match first_match(keys, v, (k - 1) as nat) {
            Some(i) => Some(i),
            None => if keys[k - 1] == v {
                Some((k - 1) as nat)
            } else {
                None
            },
        }
    }
}

/// How many of the keys below `k` sort strictly before `v`.
pub open spec fn count_less(keys: Seq<Seq<char>>, v: Seq<char>, k: nat) -> nat
    decreases k,
{
    if k == 0 {
        0
    } else if lex_lt(keys[k - 1], v) {
        count_less(keys, v, (k - 1) as nat) + 1
    } else {
        count_less(keys, v, (k - 1) as nat)
    }
}

/// Where `v` stands among `keys`: `Ok` with the index of the first equal key,
/// or else `Err` with the number of keys before `v`, which is the position at
/// which `v` would be inserted into sorted keys.
pub open spec fn key_position(keys: Seq<Seq<char>>, v: Seq<char>) -> Result<nat, nat> {
    match first_match(keys, v, keys.len()) {
        Some(i) => Ok(i),
        None => Err(count_less(keys, v, keys.len())),
    }
}

proof fn lemma_count_less_bound(keys: Seq<Seq<char>>, v: Seq<char>, k: nat)
    ensures
        count_less(keys, v, k) <= k,
    decreases k,
{
    if k > 0 {
        lemma_count_less_bound(keys, v, (k - 1) as nat);
    }
}

proof fn lemma_first_match_bound(keys: Seq<Seq<char>>, v: Seq<char>, k: nat)
    ensures
        first_match(keys, v, k) matches Some(i) ==> i < k && keys[i as int] == v,
    decreases k,
{
    if k > 0 {
        lemma_first_match_bound(keys, v, (k - 1) as nat);
    }
}

/// The keys are strictly increasing.
pub open spec fn keys_sorted(keys: Seq<Seq<char>>) -> bool {
    forall|i: int, j: int| 0 <= i < j < keys.len() ==> lex_lt(#[trigger] keys[i], #[trigger] keys[j])
}

proof fn lemma_no_match(keys: Seq<Seq<char>>, v: Seq<char>, k: nat)
    requires
        k <= keys.len(),
        first_match(keys, v, k) is None,
    ensures
        forall|j: int| 0 <= j < k ==> keys[j] != v,
    decreases k,
{
    if k > 0 {
        lemma_no_match(keys, v, (k - 1) as nat);
    }
}

proof fn lemma_count_less_sorted(keys: Seq<Seq<char>>, v: Seq<char>, k: nat)
    requires
        k <= keys.len(),
        keys_sorted(keys),
        forall|j: int| 0 <= j < k ==> keys[j] != v,
    ensures
        count_less(keys, v, k) <= k,
        forall|j: int| 0 <= j < count_less(keys, v, k) ==> lex_lt(#[trigger] keys[j], v),
        forall|j: int| count_less(keys, v, k) <= j < k ==> lex_lt(v, #[trigger] keys[j]),
    decreases k,
{
    if k > 0 {
        let k1 = (k - 1) as nat;
        lemma_count_less_sorted(keys, v, k1);
        let c = count_less(keys, v, k1);
        lemma_lex_total(keys[k1 as int], v);
        if lex_lt(keys[k1 as int], v) && c < k1 {
            assert(lex_lt(v, keys[c as int]));
            assert(lex_lt(keys[c as int], keys[k1 as int]));
            lemma_lex_transitive(v, keys[c as int], keys[k1 as int]);
            lemma_lex_total(v, keys[k1 as int]);
        }
    }
}

/// On strictly sorted keys, the lookup finds a key equal to `v` if there is
/// one; otherwise its position is where `v` belongs: every key before it sorts
/// before `v`, and every key from it on sorts after `v`.
pub proof fn law_key_position_sorted(keys: Seq<Seq<char>>, v: Seq<char>)
    requires
        keys_sorted(keys),
    ensures
        match key_position(keys, v) {
            Ok(i) => i < keys.len() && keys[i as int] == v,
            Err(i) => {
                &&& i <= keys.len()
                &&& forall|j: int| 0 <= j < keys.len() ==> keys[j] != v
                &&& forall|j: int| 0 <= j < i ==> lex_lt(#[trigger] keys[j], v)
                &&& forall|j: int| i <= j < keys.len() ==> lex_lt(v, #[trigger] keys[j])
            },
        },
{
    lemma_first_match_bound(keys, v, keys.len());
    if first_match(keys, v, keys.len()) is None {
        lemma_no_match(keys, v, keys.len());
        lemma_count_less_sorted(keys, v, keys.len());
    }
}

/// Looks `value` up among `keys`, as a binary search does on sorted keys.
pub fn key_search(keys: &Vec<String>, value: &str) -> (r: Result<usize, usize>)
    ensures
        ({
            let ks = keys@.map_values(|s: String| s@);
            match r {
                Ok(i) => key_position(ks, value@) == Ok::<nat, nat>(i as nat),
                Err(i) => key_position(ks, value@) == Err::<nat, nat>(i as nat),
            }
        }),
{
    let ghost ks = keys@.map_values(|s: String| s@);
    let v = value.to_owned();
    let n = keys.len();
    let mut i: usize = 0;
    let mut less: usize = 0;
    while i < n
        invariant
            n == keys@.len(),
            ks == keys@.map_values(|s: String| s@),
            v@ == value@,
            i <= n,
            first_match(ks, value@, i as nat) is None,
            less == count_less(ks, value@, i as nat),
            less <= i,
        decreases n - i,
    {
        if keys[i] == v {
            proof {
                assert(ks[i as int] == value@);
                lemma_first_match_bound(ks, value@, n as nat);
                lemma_first_match_prefix(ks, value@, (i + 1) as nat, n as nat);
            }
            return Ok(i);
        }
        if str_lt(keys[i].as_str(), value) {
            less = less + 1;
        }
        i = i + 1;
    }
    Err(less)
}

/// A match found below `k` stays the first match below any larger bound.
proof fn lemma_first_match_prefix(keys: Seq<Seq<char>>, v: Seq<char>, k: nat, m: nat)
    requires
        k <= m,
        first_match(keys, v, k) is Some,
    ensures
        first_match(keys, v, m) == first_match(keys, v, k),
    decreases m,
{
    if m > k {
        lemma_first_match_prefix(keys, v, k, (m - 1) as nat);
    }
}

/// What one node contributes to the search of a key: the search ends, with the
/// data pointer found or with none, or goes on in a child node.
#[derive(PartialEq, Eq, Debug, Copy, Clone)]
pub enum SearchStep {
    Done(Option<DataPtr>),
    Descend(NodeId),
}

/// The step that the search for `v` takes at node `node`: the key is looked up
/// among the keys of the active cells; in a leaf, a match gives the matching
/// cell's pointer and no match ends the search; in an inner node, the search
/// goes on in the child that the cell at the key's position points to, and
/// ends with nothing if that cell has no child.
pub open spec fn search_step(node: BTreeNodeModel, v: Seq<char>) -> SearchStep {
    let pos = key_position(active_keys(node.cells), v);
    if node.is_leaf {
        match pos {
            Ok(i) => SearchStep::Done(node.cells[i as int].node_ptr),
            Err(_) => SearchStep::Done(None),
        }
    } else {
        let i = match pos {
            Ok(i) => i,
            Err(i) => i,
        };
        match node.cells[i as int].node_ptr {
            Some(p) => SearchStep::Descend(p),
            None => SearchStep::Done(None),
        }
    }
}

/// An inner node has a cell at every position that a key lookup can give.
pub open spec fn search_step_defined(node: BTreeNodeModel, v: Seq<char>) -> bool {
    node.is_leaf || match key_position(active_keys(node.cells), v) {
        Ok(i) => i < node.cells.len(),
        Err(i) => i < node.cells.len(),
    }
}

proof fn lemma_active_keys_len(cells: Seq<CellModel>)
    ensures
        active_keys(cells).len() <= cells.len(),
    decreases cells.len(),
{
    if cells.len() > 0 {
        lemma_active_keys_len(cells.drop_last());
    }
}

/// The search of `value` at `node`, one level of a B-tree lookup.
pub fn tree_search_step(node: &BTreeNode, value: &str) -> (r: SearchStep)
    requires
        search_step_defined(node@, value@),
    ensures
        r == search_step(node@, value@),
{
    let keys = node.get_keys();
    let res = key_search(&keys, value);
    proof {
        let ks = keys@.map_values(|s: String| s@);
        lemma_active_keys_len(node@.cells);
        lemma_first_match_bound(ks, value@, ks.len());
        lemma_count_less_bound(ks, value@, ks.len());
        assert(ks == active_keys(node@.cells));
        assert(forall|j: int| 0 <= j < node.cells@.len() ==> node@.cells[j] == (#[trigger] node.cells@[j])@);
    }
    match res {
        Ok(found) => {
            if node.is_leaf {
                SearchStep::Done(node.cells[found].node_ptr)
            } else {
                match node.cells[found].node_ptr {
                    Some(p) => SearchStep::Descend(p),
                    None => SearchStep::Done(None),
                }
            }
        },
        Err(not_found) => {
            if node.is_leaf {
                SearchStep::Done(None)
            } else {
                match node.cells[not_found].node_ptr {
                    Some(p) => SearchStep::Descend(p),
                    None => SearchStep::Done(None),
                }
            }
        },
    }
}

/// The search of `value` at `node`, for nodes of any shape: `None` where an
/// inner node has no cell at the position that the key lookup gives.
pub fn checked_tree_search_step(node: &BTreeNode, value: &str) -> (r: Option<SearchStep>)
    ensures
        search_step_defined(node@, value@) ==> r == Some(search_step(node@, value@)),
        !search_step_defined(node@, value@) ==> r is None,
{
    if node.is_leaf {
        return Some(tree_search_step(node, value));
    }
    let keys = node.get_keys();
    let pos = match key_search(&keys, value) {
        Ok(i) => i,
        Err(i) => i,
    };
    assert(keys@.map_values(|s: String| s@) == active_keys(node@.cells));
    if pos < node.cells.len() {
        Some(tree_search_step(node, value))
    } else {
        None
    }
}

/// The lower end of a key range: nothing, or a key that `v` sorts strictly
/// after.
pub open spec fn above(lo: Option<Seq<char>>, v: Seq<char>) -> bool {
    match lo {
        None => true,
        Some(l) => lex_lt(l, v),
    }
}

/// The upper end of a key range: nothing, or a key that `v` equals or sorts
/// before.
pub open spec fn at_most(v: Seq<char>, hi: Option<Seq<char>>) -> bool {
    match hi {
        None => true,
        Some(h) => v == h || lex_lt(v, h),
    }
}

/// The key range of the child at position `i` of a node with keys `ks` and
/// range (`lo`, `hi`]: above the key before it and up to its own key.
pub open spec fn child_range(ks: Seq<Seq<char>>, lo: Option<Seq<char>>, hi: Option<Seq<char>>, i: int) -> (
    Option<Seq<char>>,
    Option<Seq<char>>,
) {
    (
        if i == 0 {
            lo
        } else {
            Some(ks[i - 1])
        },
        if i == ks.len() {
            hi
        } else {
            Some(ks[i])
        },
    )
}

/// A B-tree of the given height below `node`, its nodes found by identifier
/// in `nodes`, with keys in the range (`lo`, `hi`]: the active keys of each
/// node are strictly increasing and lie in the node's range; leaves are at
/// height 0; an inner node has a cell at each position from 0 to its number
/// of keys, and the cell at position `i` points to a child whose keys lie
/// above the key before `i` and up to the key at `i`.
pub open spec fn well_formed_tree(
    nodes: Map<NodeId, BTreeNodeModel>,
    node: BTreeNodeModel,
    height: nat,
    lo: Option<Seq<char>>,
    hi: Option<Seq<char>>,
) -> bool
    decreases height,
{
    let ks = active_keys(node.cells);
    &&& keys_sorted(ks)
    &&& forall|i: int| 0 <= i < ks.len() ==> above(lo, #[trigger] ks[i]) && at_most(ks[i], hi)
    &&& if height == 0 {
        node.is_leaf
    } else {
        &&& !node.is_leaf
        &&& node.cells.len() > ks.len()
        &&& forall|i: int|
            0 <= i <= ks.len() ==> (#[trigger] node.cells[i]).node_ptr is Some
                && nodes.contains_key(node.cells[i].node_ptr->0) && well_formed_tree(
                    nodes,
                    nodes[node.cells[i].node_ptr->0],
                (height - 1) as nat,
                child_range(ks, lo, hi, i).0,
                child_range(ks, lo, hi, i).1,
            )
    }
}

/// A leaf below `node` holds the data pointer `d` under the key `v`.
pub open spec fn stored_in_leaves(
    nodes: Map<NodeId, BTreeNodeModel>,
    node: BTreeNodeModel,
    height: nat,
    v: Seq<char>,
    d: DataPtr,
) -> bool
    decreases height,
{
    let ks = active_keys(node.cells);
    if height == 0 {
        exists|i: int| 0 <= i < ks.len() && ks[i] == v && (#[trigger] node.cells[i]).node_ptr == Some(d)
    } else {
        exists|i: int|
            0 <= i <= ks.len() && (#[trigger] node.cells[i]).node_ptr is Some
                && nodes.contains_key(node.cells[i].node_ptr->0) && stored_in_leaves(
                    nodes,
                    nodes[node.cells[i].node_ptr->0], (height - 1) as nat, v, d)
    }
}

/// The search of `v` from `node` over at most `depth` descents, each child
/// read from `nodes`: what the steps of the search give, or nothing where a
/// child is missing or the depth is used up.
pub open spec fn descend(
    nodes: Map<NodeId, BTreeNodeModel>,
    node: BTreeNodeModel,
    v: Seq<char>,
    depth: nat,
) -> Option<DataPtr>
    decreases depth,
{
    match search_step(node, v) {
        SearchStep::Done(d) => d,
        SearchStep::Descend(p) => if depth > 0 && nodes.contains_key(p) {
            descend(nodes, nodes[p], v, (depth - 1) as nat)
        } else {
            None
        },
    }
}

/// A key above the key before position `i` and at most the key at `i` is
/// looked up at position `i`.
proof fn lemma_position_in_range(ks: Seq<Seq<char>>, v: Seq<char>, i: int)
    requires
        keys_sorted(ks),
        0 <= i <= ks.len(),
        i > 0 ==> lex_lt(ks[i - 1], v),
        i < ks.len() ==> (v == ks[i] || lex_lt(v, ks[i])),
    ensures
        match key_position(ks, v) {
            Ok(j) => j == i,
            Err(j) => j == i,
        },
{
    law_key_position_sorted(ks, v);
    lemma_lex_total(v, v);
    match key_position(ks, v) {
        Ok(j) => {
            if j < i {
                if j < i - 1 {
                    lemma_lex_transitive(ks[j as int], ks[i - 1], v);
                }
            }
            if j > i {
                lemma_lex_total(ks[i], v);
            }
        },
        Err(j) => {
            if j < i {
                if j < i - 1 {
                    lemma_lex_transitive(v, ks[j as int], ks[i - 1]);
                }
                lemma_lex_total(v, ks[i - 1]);
            }
            if j > i {
                lemma_lex_total(ks[i], v);
            }
        },
    }
}

/// A key stored below a node of a well-formed tree lies in the node's range.
proof fn lemma_stored_in_range(
    nodes: Map<NodeId, BTreeNodeModel>,
    node: BTreeNodeModel,
    height: nat,
    lo: Option<Seq<char>>,
    hi: Option<Seq<char>>,
    v: Seq<char>,
    d: DataPtr,
)
    requires
        well_formed_tree(nodes, node, height, lo, hi),
        stored_in_leaves(nodes, node, height, v, d),
    ensures
        above(lo, v),
        at_most(v, hi),
    decreases height,
{
    let ks = active_keys(node.cells);
    if height == 0 {
        let i = choose|i: int| 0 <= i < ks.len() && ks[i] == v && (#[trigger] node.cells[i]).node_ptr == Some(d);
        assert(above(lo, ks[i]));
    } else {
        let i = choose|i: int|
            0 <= i <= ks.len() && (#[trigger] node.cells[i]).node_ptr is Some
                && nodes.contains_key(node.cells[i].node_ptr->0) && stored_in_leaves(
                    nodes,
                    nodes[node.cells[i].node_ptr->0], (height - 1) as nat, v, d);
        let p = node.cells[i].node_ptr->0;
        let (clo, chi) = child_range(ks, lo, hi, i);
        lemma_stored_in_range(nodes, nodes[p], (height - 1) as nat, clo, chi, v, d);
        if i > 0 {
            assert(above(lo, ks[i - 1]));
            if let Some(l) = lo {
                lemma_lex_transitive(l, ks[i - 1], v);
            }
        }
        if i < ks.len() {
            assert(at_most(ks[i], hi));
            if let Some(h) = hi {
                if lex_lt(v, ks[i]) && lex_lt(ks[i], h) {
                    lemma_lex_transitive(v, ks[i], h);
                }
            }
        }
    }
}

/// In a well-formed tree, the search of `v` descends into the child whose
/// range holds `v`, and gives what a leaf stores under `v`.
proof fn lemma_descend_stored(
    nodes: Map<NodeId, BTreeNodeModel>,
    node: BTreeNodeModel,
    height: nat,
    lo: Option<Seq<char>>,
    hi: Option<Seq<char>>,
    v: Seq<char>,
    d: DataPtr,
)
    requires
        well_formed_tree(nodes, node, height, lo, hi),
        stored_in_leaves(nodes, node, height, v, d),
    ensures
        descend(nodes, node, v, height) == Some(d),
    decreases height,
{
    let ks = active_keys(node.cells);
    if height == 0 {
        let i = choose|i: int| 0 <= i < ks.len() && ks[i] == v && (#[trigger] node.cells[i]).node_ptr == Some(d);
        law_key_position_sorted(ks, v);
        lemma_position_in_range(ks, v, i);
        lemma_lex_total(v, v);
        if i > 0 {
            assert(lex_lt(ks[i - 1], ks[i]));
        }
    } else {
        let i = choose|i: int|
            0 <= i <= ks.len() && (#[trigger] node.cells[i]).node_ptr is Some
                && nodes.contains_key(node.cells[i].node_ptr->0) && stored_in_leaves(
                    nodes,
                    nodes[node.cells[i].node_ptr->0], (height - 1) as nat, v, d);
        let p = node.cells[i].node_ptr->0;
        let (clo, chi) = child_range(ks, lo, hi, i);
        lemma_stored_in_range(nodes, nodes[p], (height - 1) as nat, clo, chi, v, d);
        lemma_position_in_range(ks, v, i);
        lemma_descend_stored(nodes, nodes[p], (height - 1) as nat, clo, chi, v, d);
    }
}

/// A search that gives a data pointer has found it in a leaf.
proof fn lemma_descend_found(
    nodes: Map<NodeId, BTreeNodeModel>,
    node: BTreeNodeModel,
    height: nat,
    lo: Option<Seq<char>>,
    hi: Option<Seq<char>>,
    v: Seq<char>,
)
    requires
        well_formed_tree(nodes, node, height, lo, hi),
    ensures
        descend(nodes, node, v, height) matches Some(d) ==> stored_in_leaves(nodes, node, height, v, d),
    decreases height,
{
    let ks = active_keys(node.cells);
    law_key_position_sorted(ks, v);
    let i = match key_position(ks, v) {
        Ok(j) => j as int,
        Err(j) => j as int,
    };
    if height == 0 {
        if let Ok(j) = key_position(ks, v) {
            if let Some(d) = node.cells[j as int].node_ptr {
                assert(ks[j as int] == v && node.cells[j as int].node_ptr == Some(d));
            }
        }
    } else {
        assert(node.cells[i].node_ptr is Some);
        let p = node.cells[i].node_ptr->0;
        let (clo, chi) = child_range(ks, lo, hi, i);
        lemma_descend_found(nodes, nodes[p], (height - 1) as nat, clo, chi, v);
    }
}

/// In a well-formed B-tree of height `height`, the search of a key `v` from
/// the root gives the data pointer `d` exactly when a leaf stores `d` under
/// `v`; so no two leaves store different pointers under one key.
pub proof fn law_search_finds_stored(
    nodes: Map<NodeId, BTreeNodeModel>,
    root: BTreeNodeModel,
    height: nat,
    v: Seq<char>,
    d: DataPtr,
)
    requires
        well_formed_tree(nodes, root, height, None, None),
    ensures
        descend(nodes, root, v, height) == Some(d) <==> stored_in_leaves(nodes, root, height, v, d),
{
    lemma_descend_found(nodes, root, height, None, None, v);
    if stored_in_leaves(nodes, root, height, v, d) {
        lemma_descend_stored(nodes, root, height, None, None, v, d);
    }
}

} // verus!

//! Page-table trees and the recursive mapper.
//!
//! Page tables live in a [`PageTableArena`]: a run of page-table sized,
//! page-aligned slots starting at a known physical address. A table is found by
//! its physical address, and each table knows its paging level. Tables are never
//! given back: once linked into a tree, they belong to whoever reads that tree,
//! in the end the CPU.

use vstd::prelude::*;

use crate::paging::{
    decode_flags, is_frame_address, lemma_entry_round_trip, lemma_table_index_bound,
    map_address_step, step_entry, step_flags, table_index, PageTable, PageTableEntry, PhysAddress,
    VirtAddress, ENTRY_ADDR_MASK, PHYS_ADDR_LIMIT,
};

verus! {

/// Why a mapping could not be made.
#[derive(Clone, Copy, Debug, PartialEq, Eq, Structural)]
pub enum MapError {
    /// All page-table slots of the arena are in use.
    OutOfPageTables,
    /// A huge-page mapping occupies a slot that the walk has to descend
    /// through.
    HugePageInTheWay,
    /// A present entry points to memory that is no page table of the arena.
    NotAPageTable,
}

/// Whether `e` is marked present.
pub open spec fn is_present(e: PageTableEntry) -> bool {
    decode_flags(e.0).present
}

/// Whether `e` is marked as huge page.
pub open spec fn is_huge(e: PageTableEntry) -> bool {
    decode_flags(e.0).hugepage
}

/// The physical address `e` points to.
pub open spec fn entry_target(e: PageTableEntry) -> u64 {
    e.0 & ENTRY_ADDR_MASK
}

/// Whether `e` links to a table further down: present and no huge page.
pub open spec fn is_link(e: PageTableEntry) -> bool {
    is_present(e) && !is_huge(e)
}

/// A run of page tables at consecutive page-aligned physical addresses.
#[derive(Debug)]
pub struct PageTableArena {
    tables: Vec<PageTable>,
    levels: Vec<u8>,
    base: u64,
    capacity: usize,
}

impl PageTableArena {
    /// The entries of each table.
    pub closed spec fn spec_tables(&self) -> Seq<PageTable> {
        self.tables@
    }

    /// The paging level (1 to 4) of each table.
    pub closed spec fn spec_levels(&self) -> Seq<u8> {
        self.levels@
    }

    /// The physical address of the first slot.
    pub closed spec fn spec_base(&self) -> u64 {
        self.base
    }

    /// The number of slots.
    pub closed spec fn spec_capacity(&self) -> nat {
        self.capacity as nat
    }

    pub open spec fn len(&self) -> nat {
        self.spec_tables().len()
    }

    /// The physical address of slot `i`.
    pub open spec fn addr_of(&self, i: int) -> int {
        self.spec_base() + 4096 * i
    }

    /// The table at physical address `addr`, if any.
    pub open spec fn table_at(&self, addr: u64) -> Option<int> {
        if addr >= self.spec_base() && (addr - self.spec_base()) % 4096 == 0 && (addr
            - self.spec_base()) / 4096 < self.len() {
            Some((addr - self.spec_base()) / 4096)
        } else {
            None
        }
    }

    /// The entry of table `t` that `vaddr` indexes at `level`.
    pub open spec fn slot(&self, t: int, vaddr: u64, level: int) -> PageTableEntry {
        self.spec_tables()[t]@[table_index(vaddr, level) as int]
    }

    /// The invariant of the arena: every present entry of a table above
    /// level 1 is either a huge page (at level 2 or 3) or links to a table of
    /// the arena one level further down.
    pub open spec fn wf(&self) -> bool {
        &&& self.spec_levels().len() == self.len()
        &&& self.len() <= self.spec_capacity()
        &&& self.spec_base() % 4096 == 0
        &&& self.spec_base() + 4096 * self.spec_capacity() <= PHYS_ADDR_LIMIT
        &&& forall|i: int| 0 <= i < self.len() ==> 1 <= #[trigger] self.spec_levels()[i] <= 4
        &&& forall|i: int, j: int|
            0 <= i < self.len() && 0 <= j < 512 && self.spec_levels()[i] >= 2 && is_present(
                #[trigger] self.spec_tables()[i]@[j],
            ) ==> if is_huge(self.spec_tables()[i]@[j]) {
                self.spec_levels()[i] <= 3
            } else {
                self.table_at(entry_target(self.spec_tables()[i]@[j])) matches Some(k)
                    && self.spec_levels()[k] == self.spec_levels()[i] - 1
            }
        &&& self.links_unique()
    }

    /// No two slots of tables above level 1 link to the same table: the
    /// tables form trees.
    pub open spec fn links_unique(&self) -> bool {
        forall|i1: int, j1: int, i2: int, j2: int|
            0 <= i1 < self.len() && 0 <= j1 < 512 && 0 <= i2 < self.len() && 0 <= j2 < 512
                && self.spec_levels()[i1] >= 2 && self.spec_levels()[i2] >= 2 && is_link(
                #[trigger] self.spec_tables()[i1]@[j1],
            ) && is_link(#[trigger] self.spec_tables()[i2]@[j2]) && entry_target(
                self.spec_tables()[i1]@[j1],
            ) == entry_target(self.spec_tables()[i2]@[j2]) ==> i1 == i2 && j1 == j2
    }

    /// Whether `root` is the physical address of a level-4 table.
    pub open spec fn is_root(&self, root: u64) -> bool {
        self.table_at(root) matches Some(t) && self.spec_levels()[t] == 4
    }

    /// The table reached from table `t` at `level` when walking down to
    /// `target` along the indices of `vaddr`.
    pub open spec fn walk_to(&self, t: int, vaddr: u64, level: int, target: int) -> Option<int>
        decreases level - target,
    {
        if level <= target {
            Some(t)
        } else {
            let e = self.slot(t, vaddr, level);
            if is_present(e) && !is_huge(e) {
                match self.table_at(entry_target(e)) {
                    Some(n) => self.walk_to(n, vaddr, level - 1, target),
                    None => None,
                }
            } else {
                None
            }
        }
    }

    /// The entry that maps `vaddr` at level `target` in the tree of `root`.
    pub open spec fn mapping_of(&self, root: u64, vaddr: u64, target: int) -> Option<
        PageTableEntry,
    > {
        match self.table_at(root) {
            Some(t) => match self.walk_to(t, vaddr, 4, target) {
                Some(m) => Some(self.slot(m, vaddr, target)),
                None => None,
            },
            None => None,
        }
    }

    /// Why mapping `vaddr` down to `target` from table `t` at `level` fails,
    /// with `free` unused slots, if it does: tables are added where entries
    /// are missing.
    pub open spec fn map_failure(
        &self,
        t: int,
        vaddr: u64,
        level: int,
        target: int,
        free: int,
    ) -> Option<MapError>
        decreases level - target,
    {
        if level <= target {
            None
        } else {
            let e = self.slot(t, vaddr, level);
            if !is_present(e) {
                if free >= level - target {
                    None
                } else {
                    Some(MapError::OutOfPageTables)
                }
            } else if is_huge(e) {
                Some(MapError::HugePageInTheWay)
            } else {
                match self.table_at(entry_target(e)) {
                    Some(n) => self.map_failure(n, vaddr, level - 1, target, free),
                    None => Some(MapError::NotAPageTable),
                }
            }
        }
    }

    /// How many tables mapping `vaddr` down to `target` from table `t` at
    /// `level` adds: one for each missing slot on the walk.
    pub open spec fn missing_tables(&self, t: int, vaddr: u64, level: int, target: int) -> int
        decreases level - target,
    {
        if level <= target {
            0
        } else {
            let e = self.slot(t, vaddr, level);
            if !is_present(e) {
                level - target
            } else if is_huge(e) {
                0
            } else {
                match self.table_at(entry_target(e)) {
                    Some(n) => self.missing_tables(n, vaddr, level - 1, target),
                    None => 0,
                }
            }
        }
    }

    /// Creates an empty arena of `capacity` slots, the first at `base`.
    pub fn new(base: PhysAddress, capacity: usize) -> (r: Self)
        requires
            base.0 % 4096 == 0,
            base.0 + 4096 * capacity <= PHYS_ADDR_LIMIT,
        ensures
            r.wf(),
            r.len() == 0,
            r.spec_base() == base.0,
            r.spec_capacity() == capacity,
    {
        PageTableArena { tables: Vec::new(), levels: Vec::new(), base: base.0, capacity }
    }

    /// Returns the number of tables in use.
    pub fn table_count(&self) -> (r: usize)
        ensures
            r == self.len(),
    {
        self.tables.len()
    }

    /// Returns the physical address of the first slot.
    pub fn base(&self) -> (r: PhysAddress)
        ensures
            r.0 == self.spec_base(),
    {
        PhysAddress(self.base)
    }

    /// Returns the table in slot `i`.
    pub fn table(&self, i: usize) -> (r: PageTable)
        requires
            i < self.len(),
        ensures
            r == self.spec_tables()[i as int],
    {
        self.tables[i]
    }

    /// Returns the slot of the table at `addr`, if any.
    fn find_table(&self, addr: u64) -> (r: Option<usize>)
        requires
            self.wf(),
        ensures
            r matches Some(i) ==> self.table_at(addr) == Some(i as int),
            r is None ==> self.table_at(addr) is None,
    {
        if addr < self.base {
            return None;
        }
        let off = addr - self.base;
        if off % 4096 != 0 {
            return None;
        }
        let i = off / 4096;
        if i < self.tables.len() as u64 {
            Some(i as usize)
        } else {
            None
        }
    }

    /// Adds a zeroed table of `level`; returns its slot and its address.
    fn alloc_table(&mut self, level: u8) -> (r: Result<(usize, PhysAddress), MapError>)
        requires
            old(self).wf(),
            1 <= level <= 4,
        ensures
            final(self).wf(),
            final(self).spec_base() == old(self).spec_base(),
            final(self).spec_capacity() == old(self).spec_capacity(),
            old(self).len() == old(self).spec_capacity() ==> r == Err::<
                (usize, PhysAddress),
                MapError,
            >(MapError::OutOfPageTables) && *final(self) == *old(self),
            old(self).len() < old(self).spec_capacity() ==> (r matches Ok((i, a)) && {
                &&& i == old(self).len()
                &&& a.0 == old(self).addr_of(i as int)
                &&& is_frame_address(a.0)
                &&& final(self).spec_tables() == old(self).spec_tables().push(PageTable::zeroed_spec())
                &&& final(self).spec_levels() == old(self).spec_levels().push(level)
                &&& final(self).table_at(a.0) == Some(i as int)
            }),
    {
        if self.tables.len() >= self.capacity {
            return Err(MapError::OutOfPageTables);
        }
        let i = self.tables.len();
        let ghost prev = *self;
        proof {
            lemma_slot_address(self.base as int, i as int, self.capacity as int);
        }
        let addr: u64 = self.base + 4096 * (i as u64);
        let table = PageTable::zero();
        proof {
            lemma_zero_entry_absent();
            vstd::array::axiom_array_ext_equal(table.0, PageTable::zeroed_spec().0);
            assert(table.0 =~= PageTable::zeroed_spec().0);
            assert(table == PageTable::zeroed_spec());
        }
        self.tables.push(table);
        self.levels.push(level);
        proof {
            assert(self.tables@[i as int]@ =~= PageTable::zeroed_spec()@);
            lemma_zero_entry_absent();
            assert forall|a: int, j: int|
                0 <= a < self.len() && 0 <= j < 512 && self.spec_levels()[a] >= 2 && is_present(
                    #[trigger] self.spec_tables()[a]@[j],
                ) implies if is_huge(self.spec_tables()[a]@[j]) {
                self.spec_levels()[a] <= 3
            } else {
                self.table_at(entry_target(self.spec_tables()[a]@[j])) matches Some(k)
                    && self.spec_levels()[k] == self.spec_levels()[a] - 1
            } by {
                if a < i {
                    assert(self.spec_tables()[a] == prev.spec_tables()[a]);
                    assert(self.spec_levels()[a] == prev.spec_levels()[a]);
                    if !is_huge(self.spec_tables()[a]@[j]) {
                        let k = prev.table_at(entry_target(prev.spec_tables()[a]@[j]))->Some_0;
                        assert(self.spec_levels()[k] == prev.spec_levels()[k]);
                    }
                }
            }
        }
        proof {
            assert(addr - self.base == 4096 * i);
            assert(self.table_at(addr) == Some(i as int));
            assert(is_frame_address(addr));
            assert(self.spec_tables() == prev.spec_tables().push(PageTable::zeroed_spec()));
            assert(self.spec_levels() == prev.spec_levels().push(level));
        }
        Ok((i, PhysAddress(addr)))
    }

    /// Adds an empty root (level-4) table and returns its physical address.
    pub fn new_root(&mut self) -> (r: Result<PhysAddress, MapError>)
        requires
            old(self).wf(),
        ensures
            final(self).wf(),
            final(self).spec_base() == old(self).spec_base(),
            final(self).spec_capacity() == old(self).spec_capacity(),
            r is Ok <==> old(self).len() < old(self).spec_capacity(),
            r is Err ==> r->Err_0 == MapError::OutOfPageTables && *final(self) == *old(self),
            r matches Ok(a) ==> {
                &&& final(self).is_root(a.0)
                &&& final(self).len() == old(self).len() + 1
                &&& final(self).spec_tables().drop_last() == old(self).spec_tables()
                &&& final(self).spec_levels().drop_last() == old(self).spec_levels()
                &&& forall|j: int| 0 <= j < 512 ==> !is_present(
                    #[trigger] final(self).spec_tables()[old(self).len() as int]@[j],
                ) && !is_huge(final(self).spec_tables()[old(self).len() as int]@[j])
            },
    {
        match self.alloc_table(4) {
            Ok((_, addr)) => {
                proof {
                    assert(self.spec_tables().drop_last() =~= old(self).spec_tables());
                    assert(self.spec_levels().drop_last() =~= old(self).spec_levels());
                    lemma_zero_entry_absent();
                }
                Ok(addr)
            },
            Err(e) => Err(e),
        }
    }
}

impl PageTable {
    /// The table with all entries zero.
    pub open spec fn zeroed_spec() -> PageTable {
        PageTable(vstd::array::spec_array_fill_for_copy_type::<PageTableEntry, 512>(PageTableEntry(0)))
    }
}

/// A zero entry is not present.
proof fn lemma_zero_entry_absent()
    ensures
        !is_present(PageTableEntry(0)),
        !is_huge(PageTableEntry(0)),
        forall|j: int| 0 <= j < 512 ==> #[trigger] PageTable::zeroed_spec()@[j] == PageTableEntry(0),
{
    assert(0u64 & (1u64 << 0u64) == 0) by (bit_vector);
    assert(0u64 & (1u64 << 7u64) == 0) by (bit_vector);
    vstd::array::axiom_spec_array_fill_for_copy_type::<PageTableEntry, 512>(PageTableEntry(0));
}

/// The address of slot `i` is a frame address, and it is found again as
/// slot `i`.
proof fn lemma_slot_address(base: int, i: int, capacity: int)
    requires
        base >= 0,
        base % 4096 == 0,
        0 <= i < capacity,
        base + 4096 * capacity <= PHYS_ADDR_LIMIT,
    ensures
        base + 4096 * i + 4096 <= PHYS_ADDR_LIMIT,
        (base + 4096 * i) % 4096 == 0,
        (4096 * i) % 4096 == 0,
        (4096 * i) / 4096 == i,
{
    assert(4096 * i + 4096 <= 4096 * capacity) by (nonlinear_arith)
        requires
            i < capacity,
    ;
    vstd::arithmetic::div_mod::lemma_mod_multiples_basic(i, 4096);
    vstd::arithmetic::div_mod::lemma_div_multiples_vanish(i, 4096);
    vstd::arithmetic::div_mod::lemma_mod_multiples_vanish(i, base, 4096);
    assert(4096 * i == i * 4096);
}

/// A present entry that is no huge page, in a table above level 1, links to a
/// table one level down.
proof fn lemma_wf_link(a: PageTableArena, i: int, j: int)
    requires
        a.wf(),
        0 <= i < a.len(),
        0 <= j < 512,
        a.spec_levels()[i] >= 2,
        is_present(a.spec_tables()[i]@[j]),
        !is_huge(a.spec_tables()[i]@[j]),
    ensures
        a.table_at(entry_target(a.spec_tables()[i]@[j])) matches Some(k) && a.spec_levels()[k]
            == a.spec_levels()[i] - 1,
{
}

/// The lowest level that [`map_address`] descends to: 2 for a 2 MiB huge page,
/// else 1.
pub open spec fn min_level(l2_hugepage: bool) -> int {
    if l2_hugepage {
        2
    } else {
        1
    }
}

/// Whether `new` differs from `old` only in slots that `vaddr` indexes at the
/// table's own level, at a level from `target` up, and above `target` only in
/// slots that were empty; tables are only added, and keep their levels.
pub open spec fn changed_only_along(
    old: PageTableArena,
    new: PageTableArena,
    vaddr: u64,
    target: int,
) -> bool {
    &&& new.spec_base() == old.spec_base()
    &&& new.spec_capacity() == old.spec_capacity()
    &&& new.len() >= old.len()
    &&& forall|i: int| 0 <= i < old.len() ==> #[trigger] new.spec_levels()[i] == old.spec_levels()[i]
    &&& forall|i: int, j: int|
        0 <= i < old.len() && 0 <= j < 512 && #[trigger] new.spec_tables()[i]@[j]
            != old.spec_tables()[i]@[j] ==> {
            &&& j == table_index(vaddr, old.spec_levels()[i] as int)
            &&& old.spec_levels()[i] >= target
            &&& (old.spec_levels()[i] > target ==> !is_present(old.spec_tables()[i]@[j]))
        }
}

/// Whether every slot of an old table in which `new` differs from `old` lies
/// on the walk of `vaddr` from the table `root_t` in `new`.
pub open spec fn changed_on_path(
    old: PageTableArena,
    new: PageTableArena,
    root_t: int,
    vaddr: u64,
) -> bool {
    forall|i: int, j: int|
        0 <= i < old.len() && 0 <= j < 512 && #[trigger] new.spec_tables()[i]@[j]
            != old.spec_tables()[i]@[j] ==> new.walk_to(
            root_t,
            vaddr,
            4,
            old.spec_levels()[i] as int,
        ) == Some(i)
}

/// Whether every huge-page entry of `new` that `old` does not have lies in
/// the slot of `vaddr` at level `target` on its walk from `root_t`.
pub open spec fn new_huge_on_path(
    old: PageTableArena,
    new: PageTableArena,
    root_t: int,
    vaddr: u64,
    target: int,
) -> bool {
    forall|i: int, j: int|
        0 <= i < new.len() && 0 <= j < 512 && is_huge(#[trigger] new.spec_tables()[i]@[j]) && !(i
            < old.len() && new.spec_tables()[i]@[j] == old.spec_tables()[i]@[j]) ==> {
            &&& new.spec_levels()[i] == target
            &&& j == table_index(vaddr, target)
            &&& new.walk_to(root_t, vaddr, 4, target) == Some(i)
        }
}

/// Whether the tables that `new` adds to `old` are zero but in the slot that
/// `vaddr` indexes at their level.
pub open spec fn new_tables_zeroed(old: PageTableArena, new: PageTableArena, vaddr: u64) -> bool {
    forall|i: int, j: int|
        old.len() <= i < new.len() && 0 <= j < 512 && j != table_index(
            vaddr,
            new.spec_levels()[i] as int,
        ) ==> #[trigger] new.spec_tables()[i]@[j] == PageTableEntry(0)
}

/// Whether every present entry of `new` above level `target` that `old` does
/// not have is an intermediate link: present, writable, no huge page, not
/// execute-disable.
pub open spec fn new_links_permissive(
    old: PageTableArena,
    new: PageTableArena,
    target: int,
) -> bool {
    forall|i: int, j: int|
        0 <= i < new.len() && 0 <= j < 512 && new.spec_levels()[i] > target && is_present(
            #[trigger] new.spec_tables()[i]@[j],
        ) && !(i < old.len() && new.spec_tables()[i]@[j] == old.spec_tables()[i]@[j])
            ==> new.spec_tables()[i]@[j] == step_entry(
            entry_target(new.spec_tables()[i]@[j]),
            true,
            false,
            false,
        )
}

/// A walk down to `target` only reads tables above `target`: an arena that
/// keeps those tables (and adds others) walks the same way.
proof fn lemma_walk_frame(
    a1: PageTableArena,
    a2: PageTableArena,
    t: int,
    vaddr: u64,
    level: int,
    target: int,
)
    requires
        a1.wf(),
        a2.spec_base() == a1.spec_base(),
        a1.len() <= a2.len(),
        forall|i: int| 0 <= i < a1.len() ==> #[trigger] a2.spec_levels()[i] == a1.spec_levels()[i],
        forall|i: int|
            0 <= i < a1.len() && a1.spec_levels()[i] > target ==> #[trigger] a2.spec_tables()[i]
                == a1.spec_tables()[i],
        0 <= t < a1.len(),
        a1.spec_levels()[t] == level,
        1 <= target,
    ensures
        a2.walk_to(t, vaddr, level, target) == a1.walk_to(t, vaddr, level, target),
    decreases level - target,
{
    if level > target {
        assert(a2.spec_tables()[t] == a1.spec_tables()[t]);
        let j = table_index(vaddr, level) as int;
        let e = a1.slot(t, vaddr, level);
        lemma_table_index_bound(vaddr, level);
        if is_present(e) && !is_huge(e) {
            assert(a1.spec_tables()[t]@[j] == e);
            let k = a1.table_at(entry_target(e))->Some_0;
            assert(a2.table_at(entry_target(e)) == Some(k));
            lemma_walk_frame(a1, a2, k, vaddr, level - 1, target);
        }
    }
}

/// A walk to `target` passes through the table it reaches at `mid`.
proof fn lemma_walk_split(a: PageTableArena, t: int, vaddr: u64, level: int, mid: int, target: int)
    requires
        target <= mid <= level,
    ensures
        a.walk_to(t, vaddr, level, target) == match a.walk_to(t, vaddr, level, mid) {
            Some(m) => a.walk_to(m, vaddr, mid, target),
            None => None,
        },
    decreases level - mid,
{
    if level > mid {
        let e = a.slot(t, vaddr, level);
        if is_present(e) && !is_huge(e) {
            if let Some(n) = a.table_at(entry_target(e)) {
                lemma_walk_split(a, n, vaddr, level - 1, mid, target);
            }
        }
    }
}

/// Whether mapping `vaddr` from the table `t` at `level` down to `target`
/// succeeds, with `free` unused slots.
fn check_map(arena: &PageTableArena, t: usize, vaddr: VirtAddress, target: usize) -> (r: Result<
    (),
    MapError,
>)
    requires
        arena.wf(),
        t < arena.len(),
        arena.spec_levels()[t as int] == 4,
        1 <= target <= 2,
    ensures
        r is Ok <==> arena.map_failure(
            t as int,
            vaddr.0,
            4,
            target as int,
            arena.spec_capacity() - arena.len(),
        ) is None,
        r matches Err(e) ==> arena.map_failure(
            t as int,
            vaddr.0,
            4,
            target as int,
            arena.spec_capacity() - arena.len(),
        ) == Some(e),
{
    let free: usize = arena.capacity - arena.tables.len();
    let mut cur: usize = t;
    let mut level: usize = 4;
    while level > target
        invariant
            arena.wf(),
            free == arena.spec_capacity() - arena.len(),
            1 <= target <= level <= 4,
            cur < arena.len(),
            arena.spec_levels()[cur as int] == level,
            arena.map_failure(t as int, vaddr.0, 4, target as int, free as int) == arena.map_failure(
                cur as int,
                vaddr.0,
                level as int,
                target as int,
                free as int,
            ),
        decreases level,
    {
        let idx = vaddr.index(level);
        let e = arena.tables[cur].0[idx];
        assert(e == arena.slot(cur as int, vaddr.0, level as int));
        let flags = e.flags();
        if !flags.present {
            if free >= level - target {
                return Ok(());
            } else {
                return Err(MapError::OutOfPageTables);
            }
        }
        if flags.hugepage {
            return Err(MapError::HugePageInTheWay);
        }
        let next = e.paddr();
        assert(arena.spec_tables()[cur as int]@[idx as int] == e);
        proof {
            lemma_wf_link(*arena, cur as int, idx as int);
        }
        match arena.find_table(next.0) {
            Some(k) => {
                assert(arena.spec_levels()[k as int] == level - 1);
                cur = k;
            },
            None => {
                return Err(MapError::NotAPageTable);
            },
        }
        level = level - 1;
    }
    Ok(())
}

/// Recursively maps the virtual address in the page-table tree of `root`.
///
/// Walks from the root (level 4) down to level 2 for a 2 MiB huge page, else
/// to level 1, following present entries and adding a zeroed table of the
/// arena where an entry is missing; the new intermediate entries are present
/// and writable and restrict nothing. Only the final entry carries the
/// requested rights.
///
/// Fails, leaving the arena as it was, when the arena has too few free slots
/// or a huge page is in the way.
pub fn map_address(
    arena: &mut PageTableArena,
    root: PhysAddress,
    vaddr: VirtAddress,
    phys_dest: PhysAddress,
    write: bool,
    execute: bool,
    l2_hugepage: bool,
) -> (r: Result<(), MapError>)
    requires
        old(arena).wf(),
        old(arena).is_root(root.0),
        is_frame_address(phys_dest.0),
        l2_hugepage ==> phys_dest.0 % 0x200000 == 0,
    ensures
        final(arena).wf(),
        r is Ok <==> old(arena).map_failure(
            old(arena).table_at(root.0)->Some_0,
            vaddr.0,
            4,
            min_level(l2_hugepage),
            old(arena).spec_capacity() - old(arena).len(),
        ) is None,
        r matches Err(e) ==> old(arena).map_failure(
            old(arena).table_at(root.0)->Some_0,
            vaddr.0,
            4,
            min_level(l2_hugepage),
            old(arena).spec_capacity() - old(arena).len(),
        ) == Some(e),
        r is Err ==> *final(arena) == *old(arena),
        r is Ok ==> final(arena).mapping_of(root.0, vaddr.0, min_level(l2_hugepage)) == Some(
            step_entry(phys_dest.0, write, l2_hugepage, !execute),
        ),
        r is Ok ==> changed_only_along(*old(arena), *final(arena), vaddr.0, min_level(l2_hugepage)),
        r is Ok ==> changed_on_path(
            *old(arena),
            *final(arena),
            old(arena).table_at(root.0)->Some_0,
            vaddr.0,
        ),
        r is Ok ==> final(arena).len() == old(arena).len() + old(arena).missing_tables(
            old(arena).table_at(root.0)->Some_0,
            vaddr.0,
            4,
            min_level(l2_hugepage),
        ),
        r is Ok ==> final(arena).len() <= old(arena).len() + 4 - min_level(l2_hugepage),
        r is Ok ==> new_tables_zeroed(*old(arena), *final(arena), vaddr.0),
        r is Ok ==> new_links_permissive(*old(arena), *final(arena), min_level(l2_hugepage)),
        r is Ok ==> new_huge_on_path(
            *old(arena),
            *final(arena),
            old(arena).table_at(root.0)->Some_0,
            vaddr.0,
            min_level(l2_hugepage),
        ),
{
    let ghost a0 = *arena;
    let target: usize = if l2_hugepage {
        2
    } else {
        1
    };
    let root_t = match arena.find_table(root.0) {
        Some(t) => t,
        None => {
            return Err(MapError::NotAPageTable);
        },
    };
    let checked = check_map(arena, root_t, vaddr, target);
    match checked {
        Ok(()) => {},
        Err(err) => {
            return Err(err);
        },
    }

    let mut cur: usize = root_t;
    let mut level: usize = 4;
    while level > target
        invariant
            a0.wf(),
            arena.wf(),
            target == min_level(l2_hugepage),
            target <= level <= 4,
            root_t < a0.len(),
            a0.table_at(root.0) == Some(root_t as int),
            a0.spec_levels()[root_t as int] == 4,
            cur < arena.len(),
            arena.spec_levels()[cur as int] == level,
            arena.walk_to(root_t as int, vaddr.0, 4, level as int) == Some(cur as int),
            arena.map_failure(
                cur as int,
                vaddr.0,
                level as int,
                target as int,
                arena.spec_capacity() - arena.len(),
            ) is None,
            changed_only_along(a0, *arena, vaddr.0, level as int),
            forall|i: int, j: int|
                0 <= i < a0.len() && 0 <= j < 512 && #[trigger] arena.spec_tables()[i]@[j]
                    != a0.spec_tables()[i]@[j] ==> a0.spec_levels()[i] > level,
            changed_on_path(a0, *arena, root_t as int, vaddr.0),
            arena.len() <= a0.len() + 4 - level,
            forall|i: int, j: int|
                0 <= i < arena.len() && 0 <= j < 512 && is_huge(#[trigger] arena.spec_tables()[i]@[j])
                    ==> i < a0.len() && arena.spec_tables()[i]@[j] == a0.spec_tables()[i]@[j],
            arena.len() + arena.missing_tables(cur as int, vaddr.0, level as int, target as int)
                == a0.len() + a0.missing_tables(root_t as int, vaddr.0, 4, target as int),
            new_tables_zeroed(a0, *arena, vaddr.0),
            new_links_permissive(a0, *arena, 0),
        decreases level,
    {
        let ghost before = *arena;
        let idx = vaddr.index(level);
        let e = arena.tables[cur].0[idx];
        assert(e == arena.slot(cur as int, vaddr.0, level as int));
        if !e.flags().present {
            let (k, addr) = match arena.alloc_table((level - 1) as u8) {
                Ok(p) => p,
                Err(err) => {
                    return Err(err);
                },
            };
            let ghost allocated = *arena;
            let mut table = arena.tables[cur];
            map_address_step(vaddr, &mut table, addr, level, true, false, false);
            arena.tables.set(cur, table);
            proof {
                let link = step_entry(addr.0, true, false, false);
                lemma_entry_round_trip(addr.0, step_flags(true, false, false));
                lemma_zero_entry_absent();
                assert(arena.spec_tables() == allocated.spec_tables().update(cur as int, table));
                assert(arena.spec_levels() == allocated.spec_levels());
                assert(table@ == allocated.spec_tables()[cur as int]@.update(idx as int, link));
                assert(allocated.spec_tables()[k as int]@[0] == PageTableEntry(0));
                // the arena stays well formed
                assert forall|i: int, j: int|
                    0 <= i < arena.len() && 0 <= j < 512 && arena.spec_levels()[i] >= 2
                        && is_present(#[trigger] arena.spec_tables()[i]@[j]) implies if is_huge(
                    arena.spec_tables()[i]@[j],
                ) {
                    arena.spec_levels()[i] <= 3
                } else {
                    arena.table_at(entry_target(arena.spec_tables()[i]@[j])) matches Some(n)
                        && arena.spec_levels()[n] == arena.spec_levels()[i] - 1
                } by {
                    if i == cur && j == idx {
                        assert(arena.spec_tables()[i]@[j] == link);
                        assert(arena.table_at(addr.0) == Some(k as int));
                    } else {
                        assert(arena.spec_tables()[i]@[j] == allocated.spec_tables()[i]@[j]);
                    }
                }
                // the walk from the root still reaches `cur`, and now goes on to `k`
                lemma_walk_frame(before, *arena, root_t as int, vaddr.0, 4, level as int);
                lemma_walk_split(*arena, root_t as int, vaddr.0, 4, level as int, level as int - 1);
                assert(arena.slot(cur as int, vaddr.0, level as int) == link);
                assert(arena.walk_to(k as int, vaddr.0, level as int - 1, level as int - 1) == Some(
                    k as int,
                ));
                // what is left to map still succeeds
                let free = arena.spec_capacity() - arena.len();
                if level - 1 > target {
                    lemma_table_index_bound(vaddr.0, level as int - 1);
                    assert(arena.slot(k as int, vaddr.0, level as int - 1) == PageTableEntry(0));
                }
                assert(arena.map_failure(k as int, vaddr.0, level as int - 1, target as int, free) is None);
                // only the empty slot of `cur` changed
                assert forall|i: int, j: int|
                    0 <= i < a0.len() && 0 <= j < 512 && #[trigger] arena.spec_tables()[i]@[j]
                        != a0.spec_tables()[i]@[j] implies {
                    &&& j == table_index(vaddr.0, a0.spec_levels()[i] as int)
                    &&& a0.spec_levels()[i] >= level as int - 1
                    &&& (a0.spec_levels()[i] > level as int - 1 ==> !is_present(
                        a0.spec_tables()[i]@[j],
                    ))
                    &&& a0.spec_levels()[i] > level as int - 1
                } by {
                    assert(before.spec_levels()[i] == a0.spec_levels()[i]);
                    if !(i == cur && j == idx) {
                        assert(arena.spec_tables()[i]@[j] == before.spec_tables()[i]@[j]);
                    } else {
                        if before.spec_tables()[i]@[j] != a0.spec_tables()[i]@[j] {
                            assert(a0.spec_levels()[i] > level);
                        }
                        assert(before.spec_tables()[i]@[j] == a0.spec_tables()[i]@[j]);
                    }
                }
                assert forall|i: int| 0 <= i < a0.len() implies #[trigger] arena.spec_levels()[i]
                    == a0.spec_levels()[i] by {
                    assert(before.spec_levels()[i] == a0.spec_levels()[i]);
                }
                // no new huge pages
                assert forall|i: int, j: int|
                    0 <= i < arena.len() && 0 <= j < 512 && is_huge(
                        #[trigger] arena.spec_tables()[i]@[j],
                    ) implies i < a0.len() && arena.spec_tables()[i]@[j] == a0.spec_tables()[i]@[j] by {
                    if i == k {
                        assert(arena.spec_tables()[i]@[j] == PageTableEntry(0));
                    } else if !(i == cur && j == idx) {
                        assert(arena.spec_tables()[i]@[j] == before.spec_tables()[i]@[j]);
                    }
                }
                // the new table is zero, the new link permissive
                assert(arena.spec_levels()[cur as int] == level);
                assert forall|i: int, j: int|
                    a0.len() <= i < arena.len() && 0 <= j < 512 && j != table_index(
                        vaddr.0,
                        arena.spec_levels()[i] as int,
                    ) implies #[trigger] arena.spec_tables()[i]@[j] == PageTableEntry(0) by {
                    if i == k {
                        assert(arena.spec_tables()[i]@[j] == PageTableEntry(0));
                    } else if i != cur {
                        assert(arena.spec_tables()[i]@[j] == before.spec_tables()[i]@[j]);
                    }
                }
                assert forall|i: int, j: int|
                    0 <= i < arena.len() && 0 <= j < 512 && arena.spec_levels()[i] > 0 && is_present(
                        #[trigger] arena.spec_tables()[i]@[j],
                    ) && !(i < a0.len() && arena.spec_tables()[i]@[j] == a0.spec_tables()[i]@[j])
                        implies arena.spec_tables()[i]@[j] == step_entry(
                    entry_target(arena.spec_tables()[i]@[j]),
                    true,
                    false,
                    false,
                ) by {
                    if i == k {
                        assert(arena.spec_tables()[i]@[j] == PageTableEntry(0));
                    } else if !(i == cur && j == idx) {
                        assert(arena.spec_tables()[i]@[j] == before.spec_tables()[i]@[j]);
                    }
                }
                // the changed slots lie on the walk of `vaddr`
                assert forall|i: int, j: int|
                    0 <= i < a0.len() && 0 <= j < 512 && #[trigger] arena.spec_tables()[i]@[j]
                        != a0.spec_tables()[i]@[j] implies arena.walk_to(
                    root_t as int,
                    vaddr.0,
                    4,
                    a0.spec_levels()[i] as int,
                ) == Some(i) by {
                    assert(before.spec_levels()[i] == a0.spec_levels()[i]);
                    if i == cur && j == idx {
                    } else {
                        assert(arena.spec_tables()[i]@[j] == before.spec_tables()[i]@[j]);
                        lemma_walk_frame(
                            before,
                            *arena,
                            root_t as int,
                            vaddr.0,
                            4,
                            a0.spec_levels()[i] as int,
                        );
                    }
                }
            }
            cur = k;
        } else {
            let next = e.paddr();
            proof {
                assert(!is_huge(e));
            }
            let k = match arena.find_table(next.0) {
                Some(k) => k,
                None => {
                    return Err(MapError::NotAPageTable);
                },
            };
            proof {
                lemma_walk_split(*arena, root_t as int, vaddr.0, 4, level as int, level as int - 1);
                assert(arena.walk_to(k as int, vaddr.0, level as int - 1, level as int - 1) == Some(
                    k as int,
                ));
                assert(arena.spec_tables()[cur as int]@[idx as int] == e);
                assert(arena.spec_levels()[k as int] == level - 1);
            }
            cur = k;
        }
        level = level - 1;
    }
    let ghost before = *arena;
    let mut table = arena.tables[cur];
    map_address_step(vaddr, &mut table, phys_dest, target, write, l2_hugepage, !execute);
    arena.tables.set(cur, table);
    proof {
        lemma_table_index_bound(vaddr.0, target as int);
        let leaf = step_entry(phys_dest.0, write, l2_hugepage, !execute);
        lemma_entry_round_trip(phys_dest.0, step_flags(write, l2_hugepage, !execute));
        assert(arena.spec_tables() == before.spec_tables().update(cur as int, table));
        assert(table@ == before.spec_tables()[cur as int]@.update(
            table_index(vaddr.0, target as int) as int,
            leaf,
        ));
        assert forall|i: int, j: int|
            0 <= i < arena.len() && 0 <= j < 512 && arena.spec_levels()[i] >= 2 && is_present(
                #[trigger] arena.spec_tables()[i]@[j],
            ) implies if is_huge(arena.spec_tables()[i]@[j]) {
            arena.spec_levels()[i] <= 3
        } else {
            arena.table_at(entry_target(arena.spec_tables()[i]@[j])) matches Some(n)
                && arena.spec_levels()[n] == arena.spec_levels()[i] - 1
        } by {
            if !(i == cur && j == table_index(vaddr.0, target as int)) {
                assert(arena.spec_tables()[i]@[j] == before.spec_tables()[i]@[j]);
            }
        }
        lemma_walk_frame(before, *arena, root_t as int, vaddr.0, 4, target as int);
        assert forall|i: int, j: int|
            0 <= i < a0.len() && 0 <= j < 512 && #[trigger] arena.spec_tables()[i]@[j]
                != a0.spec_tables()[i]@[j] implies {
            &&& j == table_index(vaddr.0, a0.spec_levels()[i] as int)
            &&& a0.spec_levels()[i] >= target as int
            &&& (a0.spec_levels()[i] > target as int ==> !is_present(a0.spec_tables()[i]@[j]))
        } by {
            assert(before.spec_levels()[i] == a0.spec_levels()[i]);
            if !(i == cur && j == table_index(vaddr.0, target as int)) {
                assert(arena.spec_tables()[i]@[j] == before.spec_tables()[i]@[j]);
            }
        }
        assert forall|i: int, j: int|
            0 <= i < arena.len() && 0 <= j < 512 && is_huge(#[trigger] arena.spec_tables()[i]@[j])
                && !(i < a0.len() && arena.spec_tables()[i]@[j] == a0.spec_tables()[i]@[j]) implies {
            &&& arena.spec_levels()[i] == target
            &&& j == table_index(vaddr.0, target as int)
            &&& arena.walk_to(root_t as int, vaddr.0, 4, target as int) == Some(i)
        } by {
            if !(i == cur && j == table_index(vaddr.0, target as int)) {
                assert(arena.spec_tables()[i]@[j] == before.spec_tables()[i]@[j]);
            }
        }
        assert forall|i: int, j: int|
            0 <= i < a0.len() && 0 <= j < 512 && #[trigger] arena.spec_tables()[i]@[j]
                != a0.spec_tables()[i]@[j] implies arena.walk_to(
            root_t as int,
            vaddr.0,
            4,
            a0.spec_levels()[i] as int,
        ) == Some(i) by {
            assert(before.spec_levels()[i] == a0.spec_levels()[i]);
            if !(i == cur && j == table_index(vaddr.0, target as int)) {
                assert(arena.spec_tables()[i]@[j] == before.spec_tables()[i]@[j]);
                lemma_walk_frame(before, *arena, root_t as int, vaddr.0, 4, a0.spec_levels()[i] as int);
            }
        }
    }
    Ok(())
}

/// Addresses that name the same table are equal.
proof fn lemma_table_at_injective(a: PageTableArena, x: u64, y: u64)
    requires
        a.table_at(x) is Some,
        a.table_at(x) == a.table_at(y),
    ensures
        x == y,
{
    let b = a.spec_base() as int;
    vstd::arithmetic::div_mod::lemma_fundamental_div_mod(x - b, 4096);
    vstd::arithmetic::div_mod::lemma_fundamental_div_mod(y - b, 4096);
}

/// Walks from two different tables of the same level never meet.
proof fn lemma_walks_apart(
    a: PageTableArena,
    t1: int,
    t2: int,
    v1: u64,
    v2: u64,
    level: int,
    target: int,
)
    requires
        a.wf(),
        t1 != t2,
        0 <= t1 < a.len(),
        0 <= t2 < a.len(),
        a.spec_levels()[t1] == level,
        a.spec_levels()[t2] == level,
        1 <= target <= level <= 4,
        a.walk_to(t1, v1, level, target) is Some,
        a.walk_to(t2, v2, level, target) is Some,
    ensures
        a.walk_to(t1, v1, level, target) != a.walk_to(t2, v2, level, target),
    decreases level - target,
{
    if level > target {
        let j1 = table_index(v1, level) as int;
        let j2 = table_index(v2, level) as int;
        lemma_table_index_bound(v1, level);
        lemma_table_index_bound(v2, level);
        let e1 = a.spec_tables()[t1]@[j1];
        let e2 = a.spec_tables()[t2]@[j2];
        lemma_wf_link(a, t1, j1);
        lemma_wf_link(a, t2, j2);
        let n1 = a.table_at(entry_target(e1))->Some_0;
        let n2 = a.table_at(entry_target(e2))->Some_0;
        if n1 == n2 {
            lemma_table_at_injective(a, entry_target(e1), entry_target(e2));
        }
        lemma_walks_apart(a, n1, n2, v1, v2, level - 1, target);
    }
}

/// Two walks from one table that reach the same table took the same
/// indices.
pub proof fn lemma_walk_same_indices(
    a: PageTableArena,
    t: int,
    v1: u64,
    v2: u64,
    level: int,
    target: int,
)
    requires
        a.wf(),
        0 <= t < a.len(),
        a.spec_levels()[t] == level,
        1 <= target <= level <= 4,
        a.walk_to(t, v1, level, target) is Some,
        a.walk_to(t, v1, level, target) == a.walk_to(t, v2, level, target),
    ensures
        forall|l: int| target < l <= level ==> table_index(v1, l) == table_index(v2, l),
    decreases level - target,
{
    if level > target {
        let j1 = table_index(v1, level) as int;
        let j2 = table_index(v2, level) as int;
        lemma_table_index_bound(v1, level);
        lemma_table_index_bound(v2, level);
        let e1 = a.spec_tables()[t]@[j1];
        let e2 = a.spec_tables()[t]@[j2];
        lemma_wf_link(a, t, j1);
        lemma_wf_link(a, t, j2);
        let n1 = a.table_at(entry_target(e1))->Some_0;
        let n2 = a.table_at(entry_target(e2))->Some_0;
        if j1 != j2 {
            if n1 == n2 {
                lemma_table_at_injective(a, entry_target(e1), entry_target(e2));
            }
            lemma_walks_apart(a, n1, n2, v1, v2, level - 1, target);
        } else {
            lemma_walk_same_indices(a, n1, v1, v2, level - 1, target);
        }
    }
}

/// A walk is kept by an arena that keeps the slots on it (and adds tables).
proof fn lemma_walk_keep(
    a1: PageTableArena,
    a2: PageTableArena,
    t: int,
    v: u64,
    level: int,
    target: int,
)
    requires
        a1.wf(),
        a2.spec_base() == a1.spec_base(),
        a1.len() <= a2.len(),
        0 <= t < a1.len(),
        a1.spec_levels()[t] == level,
        1 <= target <= level <= 4,
        a1.walk_to(t, v, level, target) is Some,
        forall|l: int|
            target < l <= level ==> (#[trigger] a1.walk_to(t, v, level, l) matches Some(x) ==> a2.slot(
                x,
                v,
                l,
            ) == a1.slot(x, v, l)),
    ensures
        a2.walk_to(t, v, level, target) == a1.walk_to(t, v, level, target),
    decreases level - target,
{
    if level > target {
        assert(a1.walk_to(t, v, level, level) == Some(t));
        let j = table_index(v, level) as int;
        lemma_table_index_bound(v, level);
        lemma_wf_link(a1, t, j);
        let e = a1.slot(t, v, level);
        let n = a1.table_at(entry_target(e))->Some_0;
        assert(a2.table_at(entry_target(e)) == Some(n));
        assert forall|l: int| target < l <= level - 1 implies (#[trigger] a1.walk_to(n, v, level - 1, l) matches Some(
            x,
        ) ==> a2.slot(x, v, l) == a1.slot(x, v, l)) by {
            assert(a1.walk_to(t, v, level, l) == a1.walk_to(n, v, level - 1, l));
        }
        lemma_walk_keep(a1, a2, n, v, level - 1, target);
    }
}

/// Whether `a` and `b` use the same level-2 slot: the same indices at levels
/// 2 to 4.
pub open spec fn same_huge_slot(a: u64, b: u64) -> bool {
    forall|l: int| 2 <= l <= 4 ==> table_index(a, l) == table_index(b, l)
}

/// A mapping of `v2` keeps the level-2 mapping of `v1` when both use
/// different level-2 slots or `v2` is mapped down to level 1.
pub proof fn lemma_mapping_kept(
    old: PageTableArena,
    new: PageTableArena,
    root: u64,
    v1: u64,
    v2: u64,
    target: int,
)
    requires
        old.wf(),
        new.wf(),
        old.is_root(root),
        1 <= target <= 2,
        changed_only_along(old, new, v2, target),
        changed_on_path(old, new, old.table_at(root)->Some_0, v2),
        old.mapping_of(root, v1, 2) matches Some(e) && is_present(e),
        target == 1 || !same_huge_slot(v1, v2),
    ensures
        new.mapping_of(root, v1, 2) == old.mapping_of(root, v1, 2),
{
    let t = old.table_at(root)->Some_0;
    assert(new.table_at(root) == Some(t));
    let m = old.walk_to(t, v1, 4, 2)->Some_0;
    // the slots on the walk above level 2 are links, so they stay
    assert forall|l: int| 2 < l <= 4 implies (#[trigger] old.walk_to(t, v1, 4, l) matches Some(x) ==> new.slot(
        x,
        v1,
        l,
    ) == old.slot(x, v1, l)) by {
        if let Some(x) = old.walk_to(t, v1, 4, l) {
            lemma_walk_split(old, t, v1, 4, l, 2);
            lemma_walk_level(old, t, v1, 4, l);
            lemma_table_index_bound(v1, l);
            let j = table_index(v1, l) as int;
            if new.spec_tables()[x]@[j] != old.spec_tables()[x]@[j] {
                assert(old.spec_levels()[x] == l);
            }
        }
    }
    lemma_walk_keep(old, new, t, v1, 4, 2);
    lemma_walk_level(old, t, v1, 4, 2);
    let j = table_index(v1, 2) as int;
    lemma_table_index_bound(v1, 2);
    if new.spec_tables()[m]@[j] != old.spec_tables()[m]@[j] {
        assert(old.spec_levels()[m] == 2);
        assert(new.walk_to(t, v2, 4, 2) == Some(m));
        assert(new.spec_levels()[t] == 4);
        lemma_walk_same_indices(new, t, v1, v2, 4, 2);
        assert(same_huge_slot(v1, v2));
    }
}

/// A walk from a table of `level` reaches a table of level `target`.
proof fn lemma_walk_level(a: PageTableArena, t: int, v: u64, level: int, target: int)
    requires
        a.wf(),
        0 <= t < a.len(),
        a.spec_levels()[t] == level,
        1 <= target <= level <= 4,
    ensures
        a.walk_to(t, v, level, target) matches Some(m) ==> 0 <= m < a.len() && a.spec_levels()[m]
            == target,
    decreases level - target,
{
    if level > target {
        let j = table_index(v, level) as int;
        lemma_table_index_bound(v, level);
        let e = a.slot(t, v, level);
        if is_link(e) {
            lemma_wf_link(a, t, j);
            let n = a.table_at(entry_target(e))->Some_0;
            lemma_walk_level(a, n, v, level - 1, target);
        }
    }
}

/// In a well-formed arena a walk never meets memory that is no table of the
/// arena, and with enough free slots it never runs out of them.
pub proof fn lemma_map_failure_only_huge(
    a: PageTableArena,
    t: int,
    vaddr: u64,
    level: int,
    target: int,
    free: int,
)
    requires
        a.wf(),
        0 <= t < a.len(),
        a.spec_levels()[t] == level,
        1 <= target <= level <= 4,
        free >= level - target,
    ensures
        a.map_failure(t, vaddr, level, target, free) is Some ==> a.map_failure(
            t,
            vaddr,
            level,
            target,
            free,
        ) == Some(MapError::HugePageInTheWay),
    decreases level - target,
{
    if level > target {
        let j = table_index(vaddr, level) as int;
        lemma_table_index_bound(vaddr, level);
        let e = a.slot(t, vaddr, level);
        if is_link(e) {
            lemma_wf_link(a, t, j);
            let n = a.table_at(entry_target(e))->Some_0;
            lemma_map_failure_only_huge(a, n, vaddr, level - 1, target, free);
        }
    }
}

/// A mapping that fails for a huge page in the way meets one on its walk.
pub proof fn lemma_huge_failure_witness(
    a: PageTableArena,
    t: int,
    vaddr: u64,
    level: int,
    target: int,
    free: int,
) -> (r: (int, int))
    requires
        a.wf(),
        0 <= t < a.len(),
        a.spec_levels()[t] == level,
        1 <= target <= level <= 4,
        a.map_failure(t, vaddr, level, target, free) == Some(MapError::HugePageInTheWay),
    ensures
        target < r.0 <= level,
        a.walk_to(t, vaddr, level, r.0) == Some(r.1),
        0 <= r.1 < a.len(),
        a.spec_levels()[r.1] == r.0,
        is_huge(a.slot(r.1, vaddr, r.0)),
    decreases level - target,
{
    let j = table_index(vaddr, level) as int;
    lemma_table_index_bound(vaddr, level);
    let e = a.slot(t, vaddr, level);
    if is_link(e) {
        lemma_wf_link(a, t, j);
        let n = a.table_at(entry_target(e))->Some_0;
        let w = lemma_huge_failure_witness(a, n, vaddr, level - 1, target, free);
        assert(a.walk_to(t, vaddr, level, w.0) == a.walk_to(n, vaddr, level - 1, w.0));
        w
    } else {
        (level, t)
    }
}

/// A walk that meets a present huge page above `target` fails for it.
pub proof fn lemma_huge_on_walk_fails(
    a: PageTableArena,
    t: int,
    vaddr: u64,
    level: int,
    l: int,
    target: int,
    free: int,
)
    requires
        a.wf(),
        0 <= t < a.len(),
        a.spec_levels()[t] == level,
        1 <= target < l <= level <= 4,
        a.walk_to(t, vaddr, level, l) matches Some(x) && is_present(a.slot(x, vaddr, l)) && is_huge(
            a.slot(x, vaddr, l),
        ),
    ensures
        a.map_failure(t, vaddr, level, target, free) == Some(MapError::HugePageInTheWay),
    decreases level - l,
{
    if level > l {
        let j = table_index(vaddr, level) as int;
        lemma_table_index_bound(vaddr, level);
        let e = a.slot(t, vaddr, level);
        lemma_wf_link(a, t, j);
        let n = a.table_at(entry_target(e))->Some_0;
        lemma_huge_on_walk_fails(a, n, vaddr, level - 1, l, target, free);
    }
}

/// Addresses with the same indices above `target` walk the same way.
pub proof fn lemma_walk_same_way(a: PageTableArena, t: int, v1: u64, v2: u64, level: int, target: int)
    requires
        forall|l: int| target < l <= level ==> table_index(v1, l) == table_index(v2, l),
    ensures
        a.walk_to(t, v1, level, target) == a.walk_to(t, v2, level, target),
    decreases level - target,
{
    if level > target {
        let e = a.slot(t, v1, level);
        assert(e == a.slot(t, v2, level));
        if is_link(e) {
            if let Some(n) = a.table_at(entry_target(e)) {
                lemma_walk_same_way(a, n, v1, v2, level - 1, target);
            }
        }
    }
}

/// A mapping of `v2` down to level 2 or 1 keeps the walk of `v1` to level 2.
pub proof fn lemma_walk_kept(
    old: PageTableArena,
    new: PageTableArena,
    root: u64,
    v1: u64,
    v2: u64,
    target: int,
)
    requires
        old.wf(),
        old.is_root(root),
        1 <= target <= 2,
        changed_only_along(old, new, v2, target),
        old.walk_to(old.table_at(root)->Some_0, v1, 4, 2) is Some,
    ensures
        new.walk_to(old.table_at(root)->Some_0, v1, 4, 2) == old.walk_to(
            old.table_at(root)->Some_0,
            v1,
            4,
            2,
        ),
{
    let t = old.table_at(root)->Some_0;
    assert forall|l: int| 2 < l <= 4 implies (#[trigger] old.walk_to(t, v1, 4, l) matches Some(x) ==> new.slot(
        x,
        v1,
        l,
    ) == old.slot(x, v1, l)) by {
        if let Some(x) = old.walk_to(t, v1, 4, l) {
            lemma_walk_split(old, t, v1, 4, l, 2);
            lemma_walk_level(old, t, v1, 4, l);
            lemma_table_index_bound(v1, l);
            let j = table_index(v1, l) as int;
            if new.spec_tables()[x]@[j] != old.spec_tables()[x]@[j] {
                assert(old.spec_levels()[x] == l);
            }
        }
    }
    lemma_walk_keep(old, new, t, v1, 4, 2);
}

} // verus!

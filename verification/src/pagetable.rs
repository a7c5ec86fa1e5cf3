//! The Sv39 page-table engine: three-level walks, mapping and unmapping of
//! page ranges, byte copies across address spaces, and the build-up and
//! teardown of whole user address spaces.
//!
//! A page table owns an arena of tables: the root sits at position 0, a
//! non-leaf entry names the position of its child table, and a leaf entry
//! holds the physical page and its flags.  The view of a page table is the
//! partial map [`PageTable::translate`] from virtual page numbers to leaf
//! mappings.  Every table is backed by one live frame of the allocator, so
//! teardown can return each of them exactly once.

use vstd::prelude::*;

use crate::addr::{PhysAddr, VirtAddr};
use crate::frames::PhysMem;

verus! {

/// The flag bits of a page-table entry; validity is the entry being a leaf.
#[derive(Clone, Copy, PartialEq, Eq, Structural, Debug)]
pub struct PteFlags {
    /// Readable.
    pub r: bool,
    /// Writable.
    pub w: bool,
    /// Executable.
    pub x: bool,
    /// Reachable from user mode.
    pub u: bool,
    /// Global mapping.
    pub g: bool,
    /// Accessed.
    pub a: bool,
    /// Dirty.
    pub d: bool,
}

impl PteFlags {
    /// Flags with only the given permission bits set.
    pub fn new(r: bool, w: bool, x: bool, u: bool) -> (f: PteFlags)
        ensures
            f == (PteFlags { r, w, x, u, g: false, a: false, d: false }),
    {
        PteFlags { r, w, x, u, g: false, a: false, d: false }
    }

    /// The ten flag bits as they sit in the low bits of an entry, with the
    /// valid bit set.
    pub fn bits(&self) -> (b: u64)
        ensures
            b == 1u64 + (if self.r { 2u64 } else { 0u64 }) + (if self.w { 4u64 } else { 0u64 }) + (
            if self.x { 8u64 } else { 0u64 }) + (if self.u { 16u64 } else { 0u64 }) + (if self.g {
                32u64
            } else { 0u64 }) + (if self.a { 64u64 } else { 0u64 }) + (if self.d { 128u64 } else {
                0u64
            }),
    {
        let mut b: u64 = 1;
        if self.r { b = b + 2; }
        if self.w { b = b + 4; }
        if self.x { b = b + 8; }
        if self.u { b = b + 16; }
        if self.g { b = b + 32; }
        if self.a { b = b + 64; }
        if self.d { b = b + 128; }
        b
    }
}

/// One entry of a page table.
#[derive(Clone, Copy, PartialEq, Eq, Structural, Debug)]
pub enum PageTableEntry {
    /// No mapping.
    Invalid,
    /// A non-leaf entry: the position of the child table in the arena.
    Branch(usize),
    /// A leaf entry: the mapped physical page and its flags.
    Leaf(u64, PteFlags),
}

/// One table of 512 entries, together with the frame that backs it.
pub struct RawTable {
    /// The physical page backing this table.
    pub ppn: u64,
    /// Depth in the tree: the root has level 2, leaf tables level 0.
    pub level: usize,
    /// The 512 entries.
    pub e: Vec<PageTableEntry>,
}

/// An owning handle over a three-level Sv39 page table.
pub struct PageTable {
    /// The arena of tables; the root sits at position 0.
    pub tables: Vec<RawTable>,
}

/// The most tables one arena can hold: the root, 512 middle tables, and
/// 512 * 512 leaf tables.
pub const MAX_TABLES: usize = 1 + 512 + 512 * 512;

/// The number of virtual pages: virtual addresses stay below `MAXVA`.
pub open spec fn vpn_limit() -> int {
    0x4000000
}

impl PageTable {
    /// The top-level index field of `vpn`.
    pub open spec fn idx2(vpn: int) -> int {
        vpn / 0x40000 % 512
    }

    /// The middle index field of `vpn`.
    pub open spec fn idx1(vpn: int) -> int {
        vpn / 0x200 % 512
    }

    /// The bottom index field of `vpn`.
    pub open spec fn idx0(vpn: int) -> int {
        vpn % 512
    }

    /// The shape of the arena is sound: the root sits at position 0 with
    /// level 2, every table has 512 entries, branch entries point down one
    /// level inside the arena, leaf entries appear only at level 0, and no
    /// two branch entries name the same child.
    pub open spec fn wf(self) -> bool {
        &&& self.tables@.len() >= 1
        &&& self.tables@[0].level == 2
        &&& forall|t: int|
            0 <= t < self.tables@.len() ==> (#[trigger] self.tables@[t]).e@.len() == 512
        &&& forall|t: int, i: int|
            0 <= t < self.tables@.len() && 0 <= i < 512 ==> match #[trigger] self.tables@[t].e@[i] {
                PageTableEntry::Invalid => true,
                PageTableEntry::Branch(c) => self.tables@[t].level >= 1 && 0 < c
                    < self.tables@.len() && self.tables@[c as int].level == self.tables@[t].level
                    - 1,
                PageTableEntry::Leaf(_, _) => self.tables@[t].level == 0,
            }
        &&& forall|t: int, i: int, s: int, j: int|
            0 <= t < self.tables@.len() && 0 <= i < 512 && 0 <= s < self.tables@.len() && 0 <= j
                < 512 && (#[trigger] self.tables@[t].e@[i]) == (#[trigger] self.tables@[s].e@[j])
                && self.tables@[t].e@[i] is Branch ==> t == s && i == j
    }

    /// The frames backing the tables of this arena.
    pub open spec fn node_set(self) -> Set<u64> {
        Set::new(|p: u64| exists|t: int| 0 <= t < self.tables@.len() && (#[trigger] self.tables@[t]).ppn == p)
    }

    /// The backing frames are mutually distinct and all live in `mem`.
    pub open spec fn nodes_ok(self, mem: PhysMem) -> bool {
        &&& forall|t: int, s: int|
            0 <= t < self.tables@.len() && 0 <= s < self.tables@.len() && (
            #[trigger] self.tables@[t]).ppn == (#[trigger] self.tables@[s]).ppn ==> t == s
        &&& forall|t: int|
            0 <= t < self.tables@.len() ==> mem.live_set().contains(
                (#[trigger] self.tables@[t]).ppn,
            )
    }

    /// The whole invariant: sound shape and sound backing frames.
    pub open spec fn inv(self, mem: PhysMem) -> bool {
        self.wf() && self.nodes_ok(mem)
    }

    /// The mapping this page table gives to virtual page `vpn`: the leaf
    /// entry the three-level walk reaches, if every step of the path is
    /// present.
    #[verifier::opaque]
    pub open spec fn translate(self, vpn: int) -> Option<(u64, PteFlags)> {
        if 0 <= vpn < vpn_limit() {
            match self.tables@[0].e@[Self::idx2(vpn)] {
                PageTableEntry::Branch(m) => match self.tables@[m as int].e@[Self::idx1(vpn)] {
                    PageTableEntry::Branch(l) => match self.tables@[l as int].e@[Self::idx0(vpn)] {
                        PageTableEntry::Leaf(p, f) => Some((p, f)),
                        _ => None,
                    },
                    _ => None,
                },
                _ => None,
            }
        } else {
            None
        }
    }

    /// Whether `vpn` is mapped.
    pub open spec fn is_mapped(self, vpn: int) -> bool {
        self.translate(vpn) is Some
    }

    /// The root page, encoded for the SATP register with the Sv39 mode.
    pub fn as_satp(&self) -> (r: u64)
        requires
            self.wf(),
            self.tables@[0].ppn < 0x100000000000,
        ensures
            r == 0x8000000000000000u64 + self.tables@[0].ppn,
    {
        0x8000000000000000u64 + self.tables[0].ppn
    }

    /// Builds a page table holding only an empty root, backed by a fresh
    /// frame of `mem`.
    pub fn new_root(mem: &mut PhysMem) -> (r: Result<Self, ()>)
        requires
            old(mem).wf(),
        ensures
            final(mem).wf(),
            final(mem).allocator.start == old(mem).allocator.start,
            final(mem).allocator.end == old(mem).allocator.end,
            r is Err <==> old(mem).allocator.free_count() == 0,
            r is Err ==> final(mem).live_set() == old(mem).live_set() && final(mem).frames == old(mem).frames,
            r is Ok ==> final(mem).allocator.free_count() == old(mem).allocator.free_count() - 1,
            r matches Ok(pt) ==> {
                &&& pt.wf()
                &&& pt.inv(*final(mem))
                &&& pt.tables@.len() == 1
                &&& forall|vpn: int| pt.translate(vpn) is None
                &&& !old(mem).live_set().contains(pt.tables@[0].ppn)
                &&& final(mem).live_set() == old(mem).live_set().insert(pt.tables@[0].ppn)
                &&& final(mem).frames_unchanged_except(
                    *old(mem),
                    Set::<u64>::empty().insert(pt.tables@[0].ppn),
                )
            },
    {
        let pa = match mem.page_alloc() {
            Some(pa) => pa,
            None => { return Err(()); },
        };
        let root = RawTable { ppn: pa.0 / 4096, level: 2, e: empty_entries() };
        let mut tables: Vec<RawTable> = Vec::new();
        tables.push(root);
        let pt = PageTable { tables };
        proof {
            reveal(PageTable::translate);
            assert forall|vpn: int| pt.translate(vpn) is None by {
                if 0 <= vpn < vpn_limit() {
                    assert(pt.tables@[0].e@[Self::idx2(vpn)] == PageTableEntry::Invalid);
                }
            }
        }
        Ok(pt)
    }
}


/// The two page tables and the two memory states stand in the relation left
/// by an operation that may have grown the arena: the old tables are still
/// there, the fresh backing frames were free before and are live after, and
/// no other frame changed hands or contents.
#[verifier::opaque]
pub open spec fn node_growth(pt0: PageTable, pt1: PageTable, m0: PhysMem, m1: PhysMem) -> bool {
    &&& pt0.node_set().subset_of(pt1.node_set())
    &&& m1.live_set() == m0.live_set().union(pt1.node_set().difference(pt0.node_set()))
    &&& pt1.node_set().difference(pt0.node_set()).disjoint(m0.live_set())
    &&& m1.frames_unchanged_except(m0, pt1.node_set().difference(pt0.node_set()))
    &&& m1.allocator.start == m0.allocator.start
    &&& m1.allocator.end == m0.allocator.end
}

/// [`node_growth`] composes.
pub proof fn lemma_node_growth_trans(
    pt0: PageTable,
    pt1: PageTable,
    pt2: PageTable,
    m0: PhysMem,
    m1: PhysMem,
    m2: PhysMem,
)
    requires
        node_growth(pt0, pt1, m0, m1),
        node_growth(pt1, pt2, m1, m2),
    ensures
        node_growth(pt0, pt2, m0, m2),
{
    reveal(node_growth);
    let d01 = pt1.node_set().difference(pt0.node_set());
    let d12 = pt2.node_set().difference(pt1.node_set());
    let d02 = pt2.node_set().difference(pt0.node_set());
    assert(d02 =~= d01.union(d12));
    assert(m2.live_set() =~= m0.live_set().union(d02));
    assert(d02.disjoint(m0.live_set()));
    assert forall|p: u64| m0.managed(p) && !d02.contains(p) implies #[trigger] m2.frame(p)
        == m0.frame(p) by {
        assert(m1.frame(p) == m0.frame(p));
        assert(m1.managed(p));
        assert(m2.frame(p) == m1.frame(p));
    }
}

/// A virtual page number below the limit is exactly rebuilt from its three
/// index fields.
pub proof fn lemma_vpn_decomp(vpn: int)
    requires
        0 <= vpn < vpn_limit(),
    ensures
        vpn == PageTable::idx2(vpn) * 0x40000 + PageTable::idx1(vpn) * 0x200 + PageTable::idx0(
            vpn,
        ),
        0 <= PageTable::idx2(vpn) < 512,
        0 <= PageTable::idx1(vpn) < 512,
        0 <= PageTable::idx0(vpn) < 512,
{
    assert(vpn == (vpn / 0x40000) * 0x40000 + (vpn / 0x200 % 512) * 0x200 + vpn % 512 && 0 <= vpn
        / 0x40000 < 512 && 0 <= vpn / 0x200 % 512 < 512 && 0 <= vpn % 512 < 512) by (nonlinear_arith)
        requires
            0 <= vpn < 0x4000000,
    ;
    assert(vpn / 0x40000 % 512 == vpn / 0x40000) by (nonlinear_arith)
        requires
            0 <= vpn < 0x4000000,
    ;
}

/// Two virtual page numbers below the limit with the same three index
/// fields are the same page.
pub proof fn lemma_vpn_unique(a: int, b: int)
    requires
        0 <= a < vpn_limit(),
        0 <= b < vpn_limit(),
        PageTable::idx2(a) == PageTable::idx2(b),
        PageTable::idx1(a) == PageTable::idx1(b),
        PageTable::idx0(a) == PageTable::idx0(b),
    ensures
        a == b,
{
    lemma_vpn_decomp(a);
    lemma_vpn_decomp(b);
}


impl PageTable {
    /// Writes one entry of one table, leaving everything else in place.
    fn set_entry(&mut self, t: usize, i: usize, v: PageTableEntry)
        requires
            t < old(self).tables@.len(),
            i < 512,
            old(self).tables@[t as int].e@.len() == 512,
        ensures
            final(self).tables@.len() == old(self).tables@.len(),
            forall|s: int|
                0 <= s < old(self).tables@.len() && s != t ==> final(self).tables@[s] == old(self).tables@[s],
            final(self).tables@[t as int].ppn == old(self).tables@[t as int].ppn,
            final(self).tables@[t as int].level == old(self).tables@[t as int].level,
            final(self).tables@[t as int].e@ == old(self).tables@[t as int].e@.update(
                i as int,
                v,
            ),
    {
        let tb = &mut self.tables[t];
        tb.e[i] = v;
    }

    /// Appends a fresh table backed by `ppn`, returning its position.
    fn push_table(&mut self, ppn: u64, level: usize) -> (pos: usize)
        requires
            old(self).tables@.len() < usize::MAX,
        ensures
            pos == old(self).tables@.len(),
            final(self).tables@.len() == old(self).tables@.len() + 1,
            forall|s: int|
                0 <= s < old(self).tables@.len() ==> final(self).tables@[s] == old(self).tables@[s],
            final(self).tables@[pos as int].ppn == ppn,
            final(self).tables@[pos as int].level == level,
            final(self).tables@[pos as int].e@.len() == 512,
            forall|i: int|
                0 <= i < 512 ==> final(self).tables@[pos as int].e@[i] == PageTableEntry::Invalid,
    {
        let pos = self.tables.len();
        self.tables.push(RawTable { ppn, level, e: empty_entries() });
        pos
    }
}

/// The node sets of two arenas with the same backing frames, position by
/// position, are the same set.
proof fn lemma_node_set_same(pt0: PageTable, pt1: PageTable)
    requires
        pt1.tables@.len() == pt0.tables@.len(),
        forall|t: int|
            0 <= t < pt0.tables@.len() ==> (#[trigger] pt1.tables@[t]).ppn == pt0.tables@[t].ppn,
    ensures
        pt1.node_set() == pt0.node_set(),
{
    assert forall|p: u64| pt1.node_set().contains(p) <==> pt0.node_set().contains(p) by {
        if pt1.node_set().contains(p) {
            let t = choose|t: int| 0 <= t < pt1.tables@.len() && pt1.tables@[t].ppn == p;
            assert(pt0.tables@[t].ppn == p);
        }
        if pt0.node_set().contains(p) {
            let t = choose|t: int| 0 <= t < pt0.tables@.len() && pt0.tables@[t].ppn == p;
            assert(pt1.tables@[t].ppn == p);
        }
    }
    assert(pt1.node_set() =~= pt0.node_set());
}

/// Appending one table backed by `p` grows the node set by exactly `p`.
proof fn lemma_node_set_push(pt0: PageTable, pt1: PageTable, p: u64)
    requires
        pt1.tables@.len() == pt0.tables@.len() + 1,
        forall|t: int|
            0 <= t < pt0.tables@.len() ==> (#[trigger] pt1.tables@[t]).ppn == pt0.tables@[t].ppn,
        pt1.tables@[pt0.tables@.len() as int].ppn == p,
    ensures
        pt1.node_set() == pt0.node_set().insert(p),
{
    assert forall|q: u64| pt1.node_set().contains(q) <==> pt0.node_set().insert(p).contains(
        q,
    ) by {
        if pt1.node_set().contains(q) {
            let t = choose|t: int| 0 <= t < pt1.tables@.len() && pt1.tables@[t].ppn == q;
            if t < pt0.tables@.len() {
                assert(pt0.tables@[t].ppn == q);
            }
        }
        if pt0.node_set().contains(q) {
            let t = choose|t: int| 0 <= t < pt0.tables@.len() && pt0.tables@[t].ppn == q;
            assert(pt1.tables@[t].ppn == q);
        }
        if q == p {
            assert(pt1.tables@[pt0.tables@.len() as int].ppn == q);
        }
    }
    assert(pt1.node_set() =~= pt0.node_set().insert(p));
}


/// `b` is `a` with entry `pi` of table `parent` turned from `Invalid` into
/// a branch to a fresh empty table appended at position `pos`.
pub open spec fn grown_by_one(a: PageTable, b: PageTable, parent: usize, pi: usize, pos: usize) -> bool {
    &&& parent < a.tables@.len()
    &&& pi < 512
    &&& a.tables@[parent as int].e@[pi as int] is Invalid
    &&& pos == a.tables@.len()
    &&& b.tables@.len() == a.tables@.len() + 1
    &&& forall|t: int| 0 <= t < a.tables@.len() && t != parent ==> b.tables@[t] == a.tables@[t]
    &&& b.tables@[parent as int].ppn == a.tables@[parent as int].ppn
    &&& b.tables@[parent as int].level == a.tables@[parent as int].level
    &&& b.tables@[parent as int].level >= 1
    &&& b.tables@[parent as int].e@ == a.tables@[parent as int].e@.update(
        pi as int,
        PageTableEntry::Branch(pos),
    )
    &&& b.tables@[pos as int].level == a.tables@[parent as int].level - 1
    &&& b.tables@[pos as int].e@.len() == 512
    &&& forall|i: int| 0 <= i < 512 ==> b.tables@[pos as int].e@[i] == PageTableEntry::Invalid
}

/// Growing the arena by one fresh table keeps the shape sound.
proof fn lemma_wf_grow(a: PageTable, b: PageTable, parent: usize, pi: usize, pos: usize)
    requires
        a.wf(),
        grown_by_one(a, b, parent, pi, pos),
    ensures
        b.wf(),
{
    assert forall|t: int, i: int|
        0 <= t < b.tables@.len() && 0 <= i < 512 implies match #[trigger] b.tables@[t].e@[i] {
        PageTableEntry::Invalid => true,
        PageTableEntry::Branch(c) => b.tables@[t].level >= 1 && 0 < c < b.tables@.len()
            && b.tables@[c as int].level == b.tables@[t].level - 1,
        PageTableEntry::Leaf(_, _) => b.tables@[t].level == 0,
    } by {
        if t < a.tables@.len() && !(t == parent && i == pi) {
            assert(b.tables@[t].e@[i] == a.tables@[t].e@[i]);
        }
    }
    assert forall|t: int, i: int, u: int, j: int|
        0 <= t < b.tables@.len() && 0 <= i < 512 && 0 <= u < b.tables@.len() && 0 <= j < 512 && (
        #[trigger] b.tables@[t].e@[i]) == (#[trigger] b.tables@[u].e@[j])
            && b.tables@[t].e@[i] is Branch implies t == u && i == j by {
        if t < a.tables@.len() && !(t == parent && i == pi) {
            assert(b.tables@[t].e@[i] == a.tables@[t].e@[i]);
        }
        if u < a.tables@.len() && !(u == parent && j == pi) {
            assert(b.tables@[u].e@[j] == a.tables@[u].e@[j]);
        }
    }
}

/// Growing the arena by one fresh empty table maps no page differently.
proof fn lemma_translate_grow(a: PageTable, b: PageTable, parent: usize, pi: usize, pos: usize)
    requires
        a.wf(),
        grown_by_one(a, b, parent, pi, pos),
    ensures
        forall|v: int| b.translate(v) == a.translate(v),
{
    reveal(PageTable::translate);
    assert forall|v: int| b.translate(v) == a.translate(v) by {
        if 0 <= v < vpn_limit() {
            lemma_vpn_decomp(v);
            let i2 = PageTable::idx2(v);
            let i1 = PageTable::idx1(v);
            if parent == 0 {
                if i2 == pi {
                    assert(a.tables@[0].e@[i2] is Invalid);
                    assert(b.tables@[0].e@[i2] == PageTableEntry::Branch(pos));
                    assert(b.tables@[pos as int].e@[i1] == PageTableEntry::Invalid);
                } else {
                    assert(b.tables@[0].e@[i2] == a.tables@[0].e@[i2]);
                    match a.tables@[0].e@[i2] {
                        PageTableEntry::Branch(m) => {
                            assert(b.tables@[m as int] == a.tables@[m as int]);
                            match a.tables@[m as int].e@[i1] {
                                PageTableEntry::Branch(l) => {
                                    assert(b.tables@[l as int] == a.tables@[l as int]);
                                },
                                _ => {},
                            }
                        },
                        _ => {},
                    }
                }
            } else {
                assert(b.tables@[0].e@[i2] == a.tables@[0].e@[i2]);
                match a.tables@[0].e@[i2] {
                    PageTableEntry::Branch(m) => {
                        if m == parent {
                            if i1 == pi {
                                assert(a.tables@[m as int].e@[i1] is Invalid);
                                assert(b.tables@[m as int].e@[i1] == PageTableEntry::Branch(
                                    pos,
                                ));
                                assert(b.tables@[pos as int].e@[PageTable::idx0(v)]
                                    == PageTableEntry::Invalid);
                            } else {
                                assert(b.tables@[m as int].e@[i1] == a.tables@[m as int].e@[i1]);
                                match a.tables@[m as int].e@[i1] {
                                    PageTableEntry::Branch(l) => {
                                        assert(a.tables@[l as int].level == 0);
                                        assert(b.tables@[l as int] == a.tables@[l as int]);
                                    },
                                    _ => {},
                                }
                            }
                        } else {
                            assert(b.tables@[m as int] == a.tables@[m as int]);
                            match a.tables@[m as int].e@[i1] {
                                PageTableEntry::Branch(l) => {
                                    assert(a.tables@[l as int].level == 0);
                                    assert(b.tables@[l as int] == a.tables@[l as int]);
                                },
                                _ => {},
                            }
                        }
                    },
                    _ => {},
                }
            }
        }
    }
}

/// `d` is `c` with the entry `i0` of the level-0 table `l` replaced.
/// Only the page whose path runs through that entry reads differently.
proof fn lemma_leaf_write(
    c: PageTable,
    d: PageTable,
    m: usize,
    l: usize,
    vpn: int,
    entry: PageTableEntry,
)
    requires
        c.wf(),
        0 <= vpn < vpn_limit(),
        0 < m < c.tables@.len(),
        0 < l < c.tables@.len(),
        c.tables@[0].e@[PageTable::idx2(vpn)] == PageTableEntry::Branch(m),
        c.tables@[m as int].e@[PageTable::idx1(vpn)] == PageTableEntry::Branch(l),
        c.tables@[l as int].level == 0,
        !(entry is Branch),
        d.tables@.len() == c.tables@.len(),
        forall|t: int| 0 <= t < c.tables@.len() && t != l ==> d.tables@[t] == c.tables@[t],
        d.tables@[l as int].ppn == c.tables@[l as int].ppn,
        d.tables@[l as int].level == c.tables@[l as int].level,
        d.tables@[l as int].e@ == c.tables@[l as int].e@.update(PageTable::idx0(vpn), entry),
    ensures
        d.wf(),
        d.translate(vpn) == (match entry {
            PageTableEntry::Leaf(p, f) => Some((p, f)),
            _ => None::<(u64, PteFlags)>,
        }),
        forall|v: int| v != vpn ==> d.translate(v) == c.translate(v),
{
    reveal(PageTable::translate);
    lemma_vpn_decomp(vpn);
    let i2 = PageTable::idx2(vpn);
    let i1 = PageTable::idx1(vpn);
    let i0 = PageTable::idx0(vpn);
    assert(l as int != 0);
    assert(m != l);
    assert forall|t: int, i: int|
        0 <= t < d.tables@.len() && 0 <= i < 512 implies match #[trigger] d.tables@[t].e@[i] {
        PageTableEntry::Invalid => true,
        PageTableEntry::Branch(cc) => d.tables@[t].level >= 1 && 0 < cc < d.tables@.len()
            && d.tables@[cc as int].level == d.tables@[t].level - 1,
        PageTableEntry::Leaf(_, _) => d.tables@[t].level == 0,
    } by {
        if !(t == l && i == i0) {
            assert(d.tables@[t].e@[i] == c.tables@[t].e@[i]);
        }
    }
    assert forall|t: int, i: int, u: int, j: int|
        0 <= t < d.tables@.len() && 0 <= i < 512 && 0 <= u < d.tables@.len() && 0 <= j < 512 && (
        #[trigger] d.tables@[t].e@[i]) == (#[trigger] d.tables@[u].e@[j])
            && d.tables@[t].e@[i] is Branch implies t == u && i == j by {
        if !(t == l && i == i0) {
            assert(d.tables@[t].e@[i] == c.tables@[t].e@[i]);
        }
        if !(u == l && j == i0) {
            assert(d.tables@[u].e@[j] == c.tables@[u].e@[j]);
        }
    }
    assert(d.tables@[0].e@[i2] == PageTableEntry::Branch(m));
    assert(d.tables@[m as int].e@[i1] == PageTableEntry::Branch(l));
    assert(d.tables@[l as int].e@[i0] == entry);
    assert forall|v: int| v != vpn implies d.translate(v) == c.translate(v) by {
        if 0 <= v < vpn_limit() {
            lemma_vpn_decomp(v);
            let j2 = PageTable::idx2(v);
            let j1 = PageTable::idx1(v);
            let j0 = PageTable::idx0(v);
            assert(d.tables@[0].e@[j2] == c.tables@[0].e@[j2]);
            match c.tables@[0].e@[j2] {
                PageTableEntry::Branch(mm) => {
                    assert(mm != l) by {
                        if mm == l {
                            assert(c.tables@[l as int].level == 0);
                        }
                    }
                    assert(d.tables@[mm as int] == c.tables@[mm as int]);
                    match c.tables@[mm as int].e@[j1] {
                        PageTableEntry::Branch(ll) => {
                            if ll == l {
                                assert(c.tables@[mm as int].e@[j1] == c.tables@[m as int].e@[i1]);
                                assert(mm == m && j1 == i1);
                                assert(c.tables@[0].e@[j2] == c.tables@[0].e@[i2]);
                                assert(j2 == i2);
                                assert(j0 != i0) by {
                                    if j0 == i0 {
                                        lemma_vpn_unique(v, vpn);
                                    }
                                }
                                assert(d.tables@[l as int].e@[j0] == c.tables@[l as int].e@[j0]);
                            } else {
                                assert(d.tables@[ll as int] == c.tables@[ll as int]);
                            }
                        },
                        _ => {},
                    }
                },
                _ => {},
            }
        }
    }
}

impl PageTable {
    /// Finds the child table under entry `pi` of table `parent`, building
    /// it from a fresh frame when the entry is still invalid.
    fn ensure_child(&mut self, mem: &mut PhysMem, parent: usize, pi: usize) -> (r: Result<
        usize,
        (),
    >)
        requires
            old(self).inv(*old(mem)),
            old(mem).wf(),
            parent < old(self).tables@.len(),
            pi < 512,
            old(self).tables@[parent as int].level >= 1,
        ensures
            final(mem).wf(),
            final(self).inv(*final(mem)),
            node_growth(*old(self), *final(self), *old(mem), *final(mem)),
            forall|v: int| final(self).translate(v) == old(self).translate(v),
            final(self).tables@.len() >= old(self).tables@.len(),
            forall|t: int|
                0 <= t < old(self).tables@.len() && t != parent ==> final(self).tables@[t] == old(self).tables@[t],
            final(self).tables@[parent as int].ppn == old(self).tables@[parent as int].ppn,
            final(self).tables@[parent as int].level == old(self).tables@[parent as int].level,
            final(self).tables@.len() <= old(self).tables@.len() + 1,
            final(mem).allocator.free_count() >= old(mem).allocator.free_count() - 1,
            r matches Ok(c) ==> {
                &&& 0 < c < final(self).tables@.len()
                &&& final(self).tables@[c as int].level == old(self).tables@[parent as int].level
                    - 1
                &&& final(self).tables@[parent as int].e@[pi as int] == PageTableEntry::Branch(c)
            },
            r is Err ==> *final(self) == *old(self),
            r is Err ==> final(mem).allocator.free_count() == 0 || final(self).tables@.len()
                >= MAX_TABLES,
            old(mem).allocator.free_count() >= 1 && old(self).tables@.len() < MAX_TABLES ==> r
                is Ok,
    {
        let e = self.tables[parent].e[pi];
        match e {
            PageTableEntry::Branch(c) => {
                proof {
                    reveal(node_growth);
                    assert(self.node_set().difference(old(self).node_set())
                        =~= Set::<u64>::empty());
                    assert(mem.live_set() =~= old(mem).live_set().union(Set::<u64>::empty()));
                }
                Ok(c)
            },
            PageTableEntry::Leaf(_, _) => {
                proof {
                    assert(false);
                }
                Err(())
            },
            PageTableEntry::Invalid => {
                let pa_opt = if self.tables.len() >= MAX_TABLES {
                    None
                } else {
                    mem.page_alloc()
                };
                let pa = match pa_opt {
                    Some(pa) => pa,
                    None => {
                        proof {
                            reveal(node_growth);
                            assert(self.node_set().difference(old(self).node_set())
                                =~= Set::<u64>::empty());
                            assert(mem.live_set() =~= old(mem).live_set().union(
                                Set::<u64>::empty(),
                            ));
                        }
                        return Err(());
                    },
                };
                let ghost mem_b = *mem;
                let child_level = self.tables[parent].level - 1;
                let pos = self.push_table(pa.0 / 4096, child_level);
                self.set_entry(parent, pi, PageTableEntry::Branch(pos));
                proof {
                    reveal(node_growth);
                    let pt_a = *old(self);
                    let pt_b = *self;
                    assert(grown_by_one(pt_a, pt_b, parent, pi, pos));
                    lemma_wf_grow(pt_a, pt_b, parent, pi, pos);
                    lemma_translate_grow(pt_a, pt_b, parent, pi, pos);
                    lemma_node_set_push(pt_a, pt_b, pa.0 / 4096);
                    assert(pt_b.node_set().difference(pt_a.node_set())
                        =~= Set::<u64>::empty().insert(pa.0 / 4096));
                    assert(mem.live_set() =~= old(mem).live_set().union(
                        pt_b.node_set().difference(pt_a.node_set()),
                    ));
                }
                Ok(pos)
            },
        }
    }

    /// Installs the leaf mapping `vpn -> (ppn, flags)`, allocating missing
    /// tables of the path from `mem`.  Fails only when memory is exhausted,
    /// and then changes no mapping.
    fn map_one(&mut self, mem: &mut PhysMem, vpn: u64, ppn: u64, flags: PteFlags) -> (r: Result<
        (),
        (),
    >)
        requires
            old(self).inv(*old(mem)),
            old(mem).wf(),
            vpn < 0x4000000,
            old(self).translate(vpn as int) is None,
        ensures
            final(mem).wf(),
            final(self).inv(*final(mem)),
            node_growth(*old(self), *final(self), *old(mem), *final(mem)),
            final(self).tables@.len() <= old(self).tables@.len() + 2,
            final(mem).allocator.free_count() >= old(mem).allocator.free_count() - 2,
            r is Ok ==> final(self).translate(vpn as int) == Some((ppn, flags)),
            r is Ok ==> forall|v: int|
                v != vpn ==> final(self).translate(v) == old(self).translate(v),
            r is Err ==> forall|v: int| final(self).translate(v) == old(self).translate(v),
            r is Err ==> final(mem).allocator.free_count() == 0 || final(self).tables@.len()
                >= MAX_TABLES,
            old(mem).allocator.free_count() >= 2 && old(self).tables@.len() + 2 <= MAX_TABLES
                ==> r is Ok,
    {
        let ghost pt_a = *old(self);
        let ghost mem_a = *old(mem);
        let i2: usize = ((vpn / 0x40000) % 512) as usize;
        let i1: usize = ((vpn / 0x200) % 512) as usize;
        let i0: usize = (vpn % 512) as usize;
        proof {
            lemma_vpn_decomp(vpn as int);
        }
        let m = match self.ensure_child(mem, 0, i2) {
            Ok(m) => m,
            Err(_) => { return Err(()); },
        };
        let ghost pt_b = *self;
        let ghost mem_b = *mem;
        let l = match self.ensure_child(mem, m, i1) {
            Ok(l) => l,
            Err(_) => {
                proof {
                    lemma_node_growth_trans(pt_a, pt_b, *self, mem_a, mem_b, *mem);
                }
                return Err(());
            },
        };
        let ghost pt_c = *self;
        let ghost mem_c = *mem;
        proof {
            reveal(PageTable::translate);
            lemma_node_growth_trans(pt_a, pt_b, pt_c, mem_a, mem_b, mem_c);
            assert(pt_c.tables@[0].e@[i2 as int] == PageTableEntry::Branch(m)) by {
                if m as int != 0 {
                    assert(pt_c.tables@[0] == pt_b.tables@[0]);
                }
            }
            assert(pt_c.tables@[m as int].e@[i1 as int] == PageTableEntry::Branch(l));
            assert(pt_c.tables@[l as int].level == 0);
            assert(pt_c.translate(vpn as int) is None);
            assert(pt_c.tables@[l as int].e@[i0 as int] == PageTableEntry::Invalid) by {
                match pt_c.tables@[l as int].e@[i0 as int] {
                    PageTableEntry::Invalid => {},
                    PageTableEntry::Branch(_) => {
                        assert(pt_c.tables@[l as int].level == 0);
                    },
                    PageTableEntry::Leaf(_, _) => {
                        assert(pt_c.translate(vpn as int) is Some);
                    },
                }
            }
        }
        self.set_entry(l, i0, PageTableEntry::Leaf(ppn, flags));
        proof {
            let pt_d = *self;
            lemma_leaf_write(pt_c, pt_d, m, l, vpn as int, PageTableEntry::Leaf(ppn, flags));
            reveal(node_growth);
            lemma_node_set_same(pt_c, pt_d);
            assert(node_growth(pt_a, pt_d, mem_a, mem_c));
        }
        Ok(())
    }

    /// Takes the `count` mappings starting at `vpn0` out again, returning
    /// the table to the readings of `pt0`, from which it differs only on
    /// that window.
    fn unmap_rollback(&mut self, vpn0: u64, count: u64, Ghost(pt0): Ghost<PageTable>)
        requires
            old(self).wf(),
            vpn0 + count <= 0x4000000,
            forall|j: int|
                0 <= j < count ==> (#[trigger] old(self).translate(vpn0 + j)) is Some,
            forall|v: int| !(vpn0 <= v < vpn0 + count) ==> old(self).translate(v) == pt0.translate(
                v,
            ),
            forall|j: int| 0 <= j < count ==> (#[trigger] pt0.translate(vpn0 + j)) is None,
        ensures
            final(self).wf(),
            final(self).node_set() == old(self).node_set(),
            final(self).tables@.len() == old(self).tables@.len(),
            forall|t: int|
                0 <= t < old(self).tables@.len() ==> (#[trigger] final(self).tables@[t]).ppn == old(self).tables@[t].ppn && final(self).tables@[t].level == old(self).tables@[t].level,
            forall|v: int| final(self).translate(v) == pt0.translate(v),
    {
        let ghost pt_f = *old(self);
        let mut j: u64 = 0;
        while j < count
            invariant
                self.wf(),
                j <= count,
                vpn0 + count <= 0x4000000,
                self.node_set() == pt_f.node_set(),
                self.tables@.len() == pt_f.tables@.len(),
                forall|t: int|
                    0 <= t < pt_f.tables@.len() ==> (#[trigger] self.tables@[t]).ppn
                        == pt_f.tables@[t].ppn && self.tables@[t].level == pt_f.tables@[t].level,
                forall|jj: int|
                    j <= jj < count ==> (#[trigger] self.translate(vpn0 + jj)) is Some,
                forall|v: int|
                    !(vpn0 + j <= v < vpn0 + count) ==> self.translate(v) == pt0.translate(v),
                forall|jj: int| 0 <= jj < count ==> (#[trigger] pt0.translate(vpn0 + jj)) is None,
            decreases count - j,
        {
            self.unmap_one(vpn0 + j);
            proof {
                assert(self.translate((vpn0 + j) as int) is None);
                assert(pt0.translate((vpn0 + j) as int) is None);
            }
            j = j + 1;
        }
    }

    /// Clears the leaf mapping of `vpn`; the rest of the table reads as
    /// before, and no table is given up.
    fn unmap_one(&mut self, vpn: u64)
        requires
            old(self).wf(),
            vpn < 0x4000000,
            old(self).translate(vpn as int) is Some,
        ensures
            final(self).wf(),
            final(self).node_set() == old(self).node_set(),
            final(self).tables@.len() == old(self).tables@.len(),
            forall|t: int|
                0 <= t < old(self).tables@.len() ==> (#[trigger] final(self).tables@[t]).ppn == old(self).tables@[t].ppn && final(self).tables@[t].level == old(self).tables@[t].level,
            final(self).translate(vpn as int) is None,
            forall|v: int| v != vpn ==> final(self).translate(v) == old(self).translate(v),
    {
        let i2: usize = ((vpn / 0x40000) % 512) as usize;
        let i1: usize = ((vpn / 0x200) % 512) as usize;
        let i0: usize = (vpn % 512) as usize;
        proof {
            reveal(PageTable::translate);
            lemma_vpn_decomp(vpn as int);
        }
        let m: usize = match self.tables[0].e[i2] {
            PageTableEntry::Branch(c) => c,
            _ => {
                proof {
                    assert(false);
                }
                0
            },
        };
        let l: usize = match self.tables[m].e[i1] {
            PageTableEntry::Branch(c) => c,
            _ => {
                proof {
                    assert(false);
                }
                0
            },
        };
        self.set_entry(l, i0, PageTableEntry::Invalid);
        proof {
            lemma_leaf_write(*old(self), *self, m, l, vpn as int, PageTableEntry::Invalid);
            lemma_node_set_same(*old(self), *self);
        }
    }
}

impl PageTable {
    /// Whether some page of `[vpn0, vpn0 + n)` maps to the frame `q`.
    pub open spec fn range_leaf(self, vpn0: int, n: int, q: u64) -> bool {
        exists|k: int|
            0 <= k < n && ((#[trigger] self.translate(vpn0 + k)) matches Some(pf) && pf.0 == q)
    }

    /// Looks the leaf mapping of `va` up without changing anything.
    pub fn walk(&self, va: VirtAddr) -> (r: Option<(u64, PteFlags)>)
        requires
            self.wf(),
            va.0 < 0x4000000000,
        ensures
            r == self.translate(va.0 as int / 4096),
    {
        let vpn: u64 = va.0 / 4096;
        let i2: usize = ((vpn / 0x40000) % 512) as usize;
        let i1: usize = ((vpn / 0x200) % 512) as usize;
        let i0: usize = (vpn % 512) as usize;
        proof {
            reveal(PageTable::translate);
            lemma_vpn_decomp(vpn as int);
        }
        let m: usize = match self.tables[0].e[i2] {
            PageTableEntry::Branch(c) => c,
            _ => { return None; },
        };
        let l: usize = match self.tables[m].e[i1] {
            PageTableEntry::Branch(c) => c,
            _ => { return None; },
        };
        match self.tables[l].e[i0] {
            PageTableEntry::Leaf(p, f) => Some((p, f)),
            _ => None,
        }
    }

    /// Maps the pages of `[va, va + size)` to the frames of
    /// `[pa, pa + size)` with the given flags.  Every page of the range
    /// must still be unmapped.  When the tables cannot all be built, every
    /// page mapped so far is taken back out, so that failure changes no
    /// mapping.
    #[verifier::rlimit(100)]
    #[verifier::loop_isolation(false)]
    pub fn map_pages(
        &mut self,
        mem: &mut PhysMem,
        va: VirtAddr,
        size: u64,
        pa: PhysAddr,
        flags: PteFlags,
    ) -> (r: Result<(), ()>)
        requires
            old(self).inv(*old(mem)),
            old(mem).wf(),
            va.0 % 4096 == 0,
            pa.0 % 4096 == 0,
            size % 4096 == 0,
            va.0 + size <= 0x4000000000,
            pa.0 + size <= 0x10000000000000,
            flags.r || flags.w || flags.x,
            forall|k: int|
                0 <= k < size / 4096 ==> (#[trigger] old(self).translate(va.0 / 4096 + k)) is None,
        ensures
            final(mem).wf(),
            final(self).inv(*final(mem)),
            node_growth(*old(self), *final(self), *old(mem), *final(mem)),
            r is Ok ==> forall|k: int|
                0 <= k < size / 4096 ==> (#[trigger] final(self).translate(va.0 / 4096 + k))
                    == Some(((pa.0 / 4096 + k) as u64, flags)),
            r is Ok ==> forall|v: int|
                !(va.0 / 4096 <= v < va.0 / 4096 + size / 4096) ==> final(self).translate(v) == old(self).translate(v),
            r is Err ==> forall|v: int| final(self).translate(v) == old(self).translate(v),
            r is Err ==> final(mem).allocator.free_count() == 0 || final(self).tables@.len()
                >= MAX_TABLES,
            final(self).tables@.len() <= old(self).tables@.len() + 2 * (size / 4096),
            final(mem).allocator.free_count() >= old(mem).allocator.free_count() - 2 * (size
                / 4096),
            old(mem).allocator.free_count() >= 2 * (size / 4096) && old(self).tables@.len() + 2
                * (size / 4096) <= MAX_TABLES ==> r is Ok,
    {
        let ghost pt0 = *old(self);
        let ghost mem0 = *old(mem);
        let vpn0: u64 = va.0 / 4096;
        let ppn0: u64 = pa.0 / 4096;
        let n: u64 = size / 4096;
        let mut k: u64 = 0;
        proof {
            reveal(node_growth);
            assert(self.node_set().difference(pt0.node_set()) =~= Set::<u64>::empty());
            assert(mem.live_set() =~= mem0.live_set().union(Set::<u64>::empty()));
        }
        while k < n
            invariant
                self.inv(*mem),
                mem.wf(),
                k <= n,
                vpn0 == va.0 / 4096,
                ppn0 == pa.0 / 4096,
                n == size / 4096,
                va.0 + size <= 0x4000000000,
                pa.0 + size <= 0x10000000000000,
                node_growth(pt0, *self, mem0, *mem),
                self.tables@.len() <= pt0.tables@.len() + 2 * k,
                mem.allocator.free_count() >= mem0.allocator.free_count() - 2 * k,
                forall|j: int|
                    0 <= j < k ==> (#[trigger] self.translate(vpn0 + j)) == Some(
                        ((ppn0 + j) as u64, flags),
                    ),
                forall|v: int| !(vpn0 <= v < vpn0 + k) ==> self.translate(v) == pt0.translate(v),
                forall|j: int| 0 <= j < n ==> (#[trigger] pt0.translate(vpn0 + j)) is None,
            decreases n - k,
        {
            let ghost pt_i = *self;
            let ghost mem_i = *mem;
            proof {
                assert(self.translate((vpn0 + k) as int) == pt0.translate((vpn0 + k) as int));
            }
            match self.map_one(mem, vpn0 + k, ppn0 + k, flags) {
                Ok(_) => {
                    proof {
                        lemma_node_growth_trans(pt0, pt_i, *self, mem0, mem_i, *mem);
                    }
                },
                Err(_) => {
                    proof {
                        lemma_node_growth_trans(pt0, pt_i, *self, mem0, mem_i, *mem);
                        if mem0.allocator.free_count() >= 2 * n as int && pt0.tables@.len() + 2
                            * n as int <= MAX_TABLES {
                            assert(mem_i.allocator.free_count() >= 2);
                            assert(pt_i.tables@.len() + 2 <= MAX_TABLES);
                            assert(false);
                        }
                    }
                    let ghost pt_f = *self;
                    self.unmap_rollback(vpn0, k, Ghost(pt0));
                    proof {
                        reveal(node_growth);
                        lemma_node_set_same(pt_f, *self);
                        assert(node_growth(pt0, *self, mem0, *mem));
                        assert(self.nodes_ok(*mem)) by {
                            assert(forall|t: int|
                                0 <= t < self.tables@.len() ==> (#[trigger] self.tables@[t]).ppn
                                    == pt_f.tables@[t].ppn);
                        }
                    }
                    return Err(());
                },
            }
            k = k + 1;
        }
        Ok(())
    }

    /// Takes the `npages` mappings starting at `va` out of the table.
    /// Every page of the range must be mapped.  With `free_phys` the
    /// backing frames, which must then be live, mutually distinct and no
    /// table frames, go back to the allocator; without it they stay put.
    pub fn unmap_pages(&mut self, mem: &mut PhysMem, va: VirtAddr, npages: u64, free_phys: bool)
        requires
            old(self).inv(*old(mem)),
            old(mem).wf(),
            va.0 % 4096 == 0,
            va.0 / 4096 + npages <= 0x4000000,
            forall|k: int|
                0 <= k < npages ==> (#[trigger] old(self).translate(va.0 / 4096 + k)) is Some,
            free_phys ==> forall|k: int, j: int|
                0 <= k < npages && 0 <= j < npages && k != j ==> (((#[trigger] old(self).translate(va.0 / 4096 + k)), (#[trigger] old(self).translate(va.0 / 4096 + j)))
                    matches (Some(pk), Some(pj)) && pk.0 != pj.0),
            free_phys ==> forall|k: int|
                0 <= k < npages ==> ((#[trigger] old(self).translate(va.0 / 4096 + k))
                    matches Some(pk) && old(mem).live_set().contains(pk.0) && !old(self).node_set().contains(pk.0)),
        ensures
            final(mem).wf(),
            final(self).inv(*final(mem)),
            final(self).node_set() == old(self).node_set(),
            final(self).tables@.len() == old(self).tables@.len(),
            final(mem).allocator.start == old(mem).allocator.start,
            final(mem).allocator.end == old(mem).allocator.end,
            final(mem).allocator.free_count() >= old(mem).allocator.free_count(),
            final(mem).frames == old(mem).frames,
            forall|k: int|
                0 <= k < npages ==> (#[trigger] final(self).translate(va.0 / 4096 + k)) is None,
            forall|v: int|
                !(va.0 / 4096 <= v < va.0 / 4096 + npages) ==> final(self).translate(v) == old(self).translate(v),
            !free_phys ==> *final(mem) == *old(mem),
            free_phys ==> forall|q: u64|
                final(mem).live_set().contains(q) <==> old(mem).live_set().contains(q) && !old(self).range_leaf(va.0 as int / 4096, npages as int, q),
    {
        let ghost pt0 = *old(self);
        let ghost mem0 = *old(mem);
        let vpn0: u64 = va.0 / 4096;
        let mut k: u64 = 0;
        proof {
            if free_phys {
                assert forall|q: u64|
                    mem.live_set().contains(q) <==> mem0.live_set().contains(q)
                        && !pt0.range_leaf(vpn0 as int, 0, q) by {}
            }
        }
        while k < npages
            invariant
                self.wf(),
                mem.wf(),
                k <= npages,
                vpn0 == va.0 / 4096,
                vpn0 + npages <= 0x4000000,
                self.tables@.len() == pt0.tables@.len(),
                forall|t: int|
                    0 <= t < pt0.tables@.len() ==> (#[trigger] self.tables@[t]).ppn
                        == pt0.tables@[t].ppn && self.tables@[t].level == pt0.tables@[t].level,
                pt0.inv(mem0),
                mem.allocator.start == mem0.allocator.start,
                mem.allocator.end == mem0.allocator.end,
                mem.allocator.free_count() >= mem0.allocator.free_count(),
                mem.frames == mem0.frames,
                forall|j: int|
                    k <= j < npages ==> (#[trigger] self.translate(vpn0 + j)) == pt0.translate(
                        vpn0 + j,
                    ),
                forall|j: int| 0 <= j < k ==> (#[trigger] self.translate(vpn0 + j)) is None,
                forall|v: int|
                    !(vpn0 <= v < vpn0 + npages) ==> self.translate(v) == pt0.translate(v),
                forall|j: int| 0 <= j < npages ==> (#[trigger] pt0.translate(vpn0 + j)) is Some,
                free_phys ==> forall|kk: int, j: int|
                    0 <= kk < npages && 0 <= j < npages && kk != j ==> (((
                    #[trigger] pt0.translate(vpn0 + kk)), (#[trigger] pt0.translate(vpn0 + j)))
                        matches (Some(pk), Some(pj)) && pk.0 != pj.0),
                free_phys ==> forall|j: int|
                    0 <= j < npages ==> ((#[trigger] pt0.translate(vpn0 + j)) matches Some(pk)
                        && mem0.live_set().contains(pk.0) && !pt0.node_set().contains(pk.0)),
                !free_phys ==> *mem == mem0,
                free_phys ==> forall|q: u64|
                    mem.live_set().contains(q) <==> mem0.live_set().contains(q)
                        && !pt0.range_leaf(vpn0 as int, k as int, q),
            decreases npages - k,
        {
            let va_k = VirtAddr((vpn0 + k) * 4096);
            proof {
                assert((vpn0 + k) * 4096 < 0x4000000 * 4096) by (nonlinear_arith)
                    requires
                        vpn0 + k < 0x4000000,
                ;
                assert((vpn0 + k) * 4096 / 4096 == vpn0 + k) by (nonlinear_arith);
            }
            let leaf = self.walk(va_k);
            let pk: u64 = match leaf {
                Some((p, _)) => p,
                None => {
                    proof {
                        assert(false);
                    }
                    0
                },
            };
            self.unmap_one(vpn0 + k);
            if free_phys {
                proof {
                    assert(pt0.translate((vpn0 + k) as int) matches Some(pf) && pf.0 == pk);
                    assert(!pt0.range_leaf(vpn0 as int, k as int, pk)) by {
                        if pt0.range_leaf(vpn0 as int, k as int, pk) {
                            let j = choose|j: int|
                                0 <= j < k && ((#[trigger] pt0.translate(vpn0 as int + j))
                                    matches Some(pf) && pf.0 == pk);
                            assert(pt0.translate(vpn0 + j) is Some);
                        }
                    }
                    assert(mem.live_set().contains(pk));
                }
                let ghost mem_i = *mem;
                mem.dealloc_ppn(crate::addr::PhysPageNum(pk));
                proof {
                    assert forall|q: u64|
                        mem.live_set().contains(q) <==> mem0.live_set().contains(q)
                            && !pt0.range_leaf(vpn0 as int, (k + 1) as int, q) by {
                        assert(pt0.range_leaf(vpn0 as int, (k + 1) as int, q) <==> (
                        pt0.range_leaf(vpn0 as int, k as int, q) || q == pk)) by {
                            if pt0.range_leaf(vpn0 as int, (k + 1) as int, q) {
                                let j = choose|j: int|
                                    0 <= j < k + 1 && ((#[trigger] pt0.translate(
                                        vpn0 as int + j,
                                    )) matches Some(pf) && pf.0 == q);
                                if j < k {
                                    assert(pt0.range_leaf(vpn0 as int, k as int, q));
                                } else {
                                    assert(q == pk);
                                }
                            }
                            if pt0.range_leaf(vpn0 as int, k as int, q) {
                                let j = choose|j: int|
                                    0 <= j < k && ((#[trigger] pt0.translate(vpn0 as int + j))
                                        matches Some(pf) && pf.0 == q);
                                assert(pt0.translate(vpn0 as int + j) matches Some(pf) && pf.0
                                    == q);
                            }
                            if q == pk {
                                assert(pt0.translate(vpn0 as int + k) matches Some(pf) && pf.0
                                    == q);
                            }
                        }
                    }
                }
            }
            proof {
                assert(self.nodes_ok(*mem)) by {
                    assert forall|t: int| 0 <= t < self.tables@.len() implies mem.live_set()
                        .contains((#[trigger] self.tables@[t]).ppn) by {
                        assert(mem0.live_set().contains(pt0.tables@[t].ppn));
                        if free_phys {
                            assert(!pt0.range_leaf(vpn0 as int, (k + 1) as int, pt0.tables@[t].ppn))
                                by {
                                if pt0.range_leaf(
                                    vpn0 as int,
                                    (k + 1) as int,
                                    pt0.tables@[t].ppn,
                                ) {
                                    let j = choose|j: int|
                                        0 <= j < k + 1 && ((#[trigger] pt0.translate(
                                            vpn0 as int + j,
                                        )) matches Some(pf) && pf.0 == pt0.tables@[t].ppn);
                                    assert(pt0.translate(vpn0 + j) matches Some(pf)
                                        && !pt0.node_set().contains(pf.0));
                                }
                            }
                        }
                    }
                }
            }
            k = k + 1;
        }
        proof {
            lemma_node_set_same(pt0, *self);
        }
    }
}

impl PageTable {
    /// The byte a physical read through this table returns for virtual
    /// address `va`, if `va` is mapped to a managed frame.
    pub open spec fn mem_byte(self, mem: PhysMem, va: int) -> Option<u8> {
        match self.translate(va / 4096) {
            Some(pf) => if mem.managed(pf.0) {
                Some(mem.frame(pf.0)[va % 4096])
            } else {
                None
            },
            None => None,
        }
    }

    /// Whether user code may read the byte at `va`.
    pub open spec fn user_readable(self, mem: PhysMem, va: int) -> bool {
        self.translate(va / 4096) matches Some(pf) && pf.1.u && pf.1.r && mem.managed(pf.0)
    }

    /// Whether user code may write the byte at `va`.
    pub open spec fn user_writable(self, mem: PhysMem, va: int) -> bool {
        self.translate(va / 4096) matches Some(pf) && pf.1.u && pf.1.w && mem.managed(pf.0)
    }

    /// The frames that back some byte of `[va, va + n)`.
    pub open spec fn backing_set(self, va: int, n: int) -> Set<u64> {
        Set::new(
            |q: u64|
                exists|j: int|
                    0 <= j < n && ((#[trigger] self.translate((va + j) / 4096)) matches Some(pf)
                        && pf.0 == q),
        )
    }

    /// No two distinct mapped pages of `[lo, hi)` share a backing frame.
    pub open spec fn range_no_alias(self, lo: int, hi: int) -> bool {
        forall|pj: int, pk: int|
            lo <= pj < pk < hi ==> !((#[trigger] self.translate(pj)) is Some && (
            #[trigger] self.translate(pk)) is Some && self.translate(pj)->Some_0.0
                == self.translate(pk)->Some_0.0)
    }

    /// The bytes of `[va, va + n)` read through this table, if every one
    /// of them is mapped.
    pub open spec fn read_bytes(self, mem: PhysMem, va: int, n: int) -> Option<Seq<u8>> {
        if forall|j: int| 0 <= j < n ==> (#[trigger] self.mem_byte(mem, va + j)) is Some {
            Some(Seq::new(n as nat, |j: int| self.mem_byte(mem, va + j)->Some_0))
        } else {
            None
        }
    }

    /// Copies the bytes of `data` to the user range `[dst, dst + len)`.
    /// Succeeds exactly when every byte of the range sits on a page mapped
    /// writable for user mode; failure writes nothing.
    #[verifier::loop_isolation(false)]
    #[verifier::rlimit(80)]
    pub fn copy_out(&self, mem: &mut PhysMem, data: &Vec<u8>, dst: u64) -> (r: Result<(), ()>)
        requires
            self.wf(),
            old(mem).wf(),
            dst + data@.len() <= 0x4000000000,
            self.range_no_alias(dst as int / 4096, (dst + data@.len() + 4095) as int / 4096),
        ensures
            final(mem).wf(),
            final(mem).allocator == old(mem).allocator,
            r is Ok <==> forall|j: int|
                0 <= j < data@.len() ==> #[trigger] self.user_writable(*old(mem), dst + j),
            r is Err ==> *final(mem) == *old(mem),
            r is Ok ==> forall|j: int|
                0 <= j < data@.len() ==> (#[trigger] self.mem_byte(*final(mem), dst + j)) == Some(
                    data@[j],
                ),
            r is Ok ==> final(mem).frames_unchanged_except(
                *old(mem),
                self.backing_set(dst as int, data@.len() as int),
            ),
            r is Ok ==> forall|va: int|
                !(dst <= va < dst + data@.len()) && !self.backing_set(
                    dst as int,
                    data@.len() as int,
                ).contains(self.translate(va / 4096)->Some_0.0) ==> self.mem_byte(*final(mem), va)
                    == self.mem_byte(*old(mem), va),
    {
        let n: usize = data.len();
        // First pass: every byte of the range must be writable.
        let mut j: usize = 0;
        while j < n
            invariant
                self.wf(),
                mem.wf(),
                j <= n,
                n == data@.len(),
                dst + n <= 0x4000000000,
                *mem == *old(mem),
                forall|i: int| 0 <= i < j ==> #[trigger] self.user_writable(*mem, dst + i),
            decreases n - j,
        {
            let va = VirtAddr(dst + j as u64);
            match self.walk(va) {
                Some((p, f)) => {
                    if !(f.u && f.w) || p < mem.allocator.start || p >= mem.allocator.end {
                        proof {
                            assert(!self.user_writable(*mem, dst + j as u64));
                        }
                        return Err(());
                    }
                },
                None => {
                    proof {
                        assert(!self.user_writable(*mem, dst + j as u64));
                    }
                    return Err(());
                },
            }
            proof {
                assert(self.user_writable(*mem, dst + j as u64));
            }
            j = j + 1;
        }
        // Second pass: write the bytes.
        let mut j: usize = 0;
        while j < n
            invariant
                self.wf(),
                mem.wf(),
                j <= n,
                n == data@.len(),
                dst + n <= 0x4000000000,
                mem.allocator == old(mem).allocator,
                forall|i: int|
                    0 <= i < n ==> #[trigger] self.user_writable(*old(mem), dst + i),
                forall|i: int| 0 <= i < n ==> #[trigger] self.user_writable(*mem, dst + i),
                forall|i: int|
                    0 <= i < j ==> (#[trigger] self.mem_byte(*mem, dst + i)) == Some(data@[i]),
                mem.frames_unchanged_except(
                    *old(mem),
                    self.backing_set(dst as int, n as int),
                ),
                forall|va: int|
                    !(dst <= va < dst + n) && !self.backing_set(dst as int, n as int).contains(
                        self.translate(va / 4096)->Some_0.0,
                    ) ==> self.mem_byte(*mem, va) == self.mem_byte(*old(mem), va),
            decreases n - j,
        {
            let va = VirtAddr(dst + j as u64);
            proof {
                assert(self.user_writable(*mem, dst + j as u64));
            }
            let (p, _f) = match self.walk(va) {
                Some(pf) => pf,
                None => {
                    proof {
                        assert(false);
                    }
                    (0, PteFlags::new(false, false, false, false))
                },
            };
            let off: usize = (va.0 % 4096) as usize;
            let ghost mem_i = *mem;
            mem.write_byte(p, off, data[j]);
            proof {
                assert(self.backing_set(dst as int, n as int).contains(p)) by {
                    assert((#[trigger] self.translate((dst + j) / 4096)) matches Some(pf)
                        && pf.0 == p);
                }
                assert forall|i: int| 0 <= i < n implies #[trigger] self.user_writable(
                    *mem,
                    dst + i,
                ) by {
                    assert(self.user_writable(mem_i, dst + i));
                }
                assert(self.mem_byte(*mem, dst + j) == Some(data@[j as int])) by {
                    assert(mem.frame(p) == mem_i.frame(p).update(off as int, data@[j as int]));
                    assert((dst + j) % 4096 == off);
                    assert(self.translate((dst + j) / 4096)->Some_0.0 == p);
                }
                assert forall|i: int|
                    0 <= i < j + 1 implies (#[trigger] self.mem_byte(*mem, dst + i)) == Some(
                    data@[i],
                ) by {
                    if i < j {
                        assert(self.user_writable(mem_i, dst + i));
                        let q = self.translate((dst + i) / 4096)->Some_0.0;
                        assert(mem_i.managed(q));
                        if q != p {
                            assert(mem.frame(q) == mem_i.frame(q));
                            assert(self.mem_byte(*mem, dst + i) == self.mem_byte(mem_i, dst + i));
                        } else {
                            assert((dst + i) / 4096 == (dst + j) / 4096) by {
                                if (dst + i) / 4096 != (dst + j) / 4096 {
                                    assert(dst as int / 4096 <= (dst + i) / 4096 < (dst + n + 4095)
                                        as int / 4096);
                                    assert(dst as int / 4096 <= (dst + j) / 4096 < (dst + n + 4095)
                                        as int / 4096);
                                }
                            }
                            assert((dst + i) % 4096 != (dst + j) % 4096) by {
                                assert((dst + i) / 4096 * 4096 + (dst + i) % 4096 == dst + i);
                                assert((dst + j) / 4096 * 4096 + (dst + j) % 4096 == dst + j);
                            }
                            assert((dst + i) % 4096 != off);
                            assert(mem.frame(p) == mem_i.frame(p).update(
                                off as int,
                                data@[j as int],
                            ));
                            assert(mem.frame(q)[(dst + i) % 4096] == mem_i.frame(q)[(dst + i)
                                % 4096]);
                            assert(self.mem_byte(*mem, dst + i) == self.mem_byte(mem_i, dst + i));
                        }
                    } else {
                        assert(i == j as int);
                        assert(dst + i == dst + j);
                    }
                }
                assert forall|va2: int|
                    !(dst <= va2 < dst + n) && !self.backing_set(dst as int, n as int).contains(
                        self.translate(va2 / 4096)->Some_0.0,
                    ) implies self.mem_byte(*mem, va2) == self.mem_byte(*old(mem), va2) by {
                    match self.translate(va2 / 4096) {
                        Some(pf) => {
                            if mem.managed(pf.0) {
                                assert(pf.0 != p);
                                assert(mem.frame(pf.0) == mem_i.frame(pf.0));
                            }
                        },
                        None => {},
                    }
                }
            }
            j = j + 1;
        }
        Ok(())
    }

    /// Reads `n` bytes from the user range `[src, src + n)`.  Succeeds
    /// exactly when every byte of the range sits on a page mapped readable
    /// for user mode.
    #[verifier::loop_isolation(false)]
    pub fn copy_in(&self, mem: &PhysMem, src: u64, n: usize) -> (r: Result<Vec<u8>, ()>)
        requires
            self.wf(),
            mem.wf(),
            src + n <= 0x4000000000,
        ensures
            r is Ok <==> forall|j: int|
                0 <= j < n ==> #[trigger] self.user_readable(*mem, src + j),
            r matches Ok(v) ==> v@.len() == n && forall|j: int|
                0 <= j < n ==> Some(#[trigger] v@[j]) == self.mem_byte(*mem, src + j),
    {
        let mut v: Vec<u8> = Vec::new();
        let mut j: usize = 0;
        while j < n
            invariant
                self.wf(),
                mem.wf(),
                j <= n,
                src + n <= 0x4000000000,
                v@.len() == j,
                forall|i: int| 0 <= i < j ==> #[trigger] self.user_readable(*mem, src + i),
                forall|i: int| 0 <= i < j ==> Some(#[trigger] v@[i]) == self.mem_byte(*mem, src + i),
            decreases n - j,
        {
            let va = VirtAddr(src + j as u64);
            match self.walk(va) {
                Some((p, f)) => {
                    if !(f.u && f.r) || p < mem.allocator.start || p >= mem.allocator.end {
                        proof {
                            assert(!self.user_readable(*mem, src + j as u64));
                        }
                        return Err(());
                    }
                    let off: usize = (va.0 % 4096) as usize;
                    let b = mem.read_byte(p, off);
                    v.push(b);
                    proof {
                        assert(self.user_readable(*mem, src + j as u64));
                    }
                },
                None => {
                    proof {
                        assert(!self.user_readable(*mem, src + j as u64));
                    }
                    return Err(());
                },
            }
            j = j + 1;
        }
        Ok(v)
    }
}

/// The flags of a user data page: readable, writable, executable, user.
pub open spec fn user_flags() -> PteFlags {
    PteFlags { r: true, w: true, x: true, u: true, g: false, a: false, d: false }
}

impl PageTable {
    /// Shrinks a user address space from `oldsz` to `newsz` bytes: the
    /// pages of `[ceil(newsz), ceil(oldsz))` are unmapped and their frames
    /// go back to the allocator.
    pub fn uvm_dealloc(&mut self, mem: &mut PhysMem, oldsz: u64, newsz: u64) -> (r: u64)
        requires
            old(self).inv(*old(mem)),
            old(mem).wf(),
            newsz <= oldsz,
            oldsz <= 0x4000000000,
            forall|k: int|
                0 <= k < (oldsz + 4095) / 4096 - (newsz + 4095) / 4096 ==> (#[trigger] old(self).translate((newsz + 4095) / 4096 + k)) is Some,
            forall|k: int, j: int|
                0 <= k < (oldsz + 4095) / 4096 - (newsz + 4095) / 4096 && 0 <= j < (oldsz + 4095)
                    / 4096 - (newsz + 4095) / 4096 && k != j ==> (((#[trigger] old(self).translate(
                    (newsz + 4095) / 4096 + k,
                )), (#[trigger] old(self).translate((newsz + 4095) / 4096 + j))) matches (
                Some(pk),
                Some(pj),
                ) && pk.0 != pj.0),
            forall|k: int|
                0 <= k < (oldsz + 4095) / 4096 - (newsz + 4095) / 4096 ==> ((#[trigger] old(self).translate((newsz + 4095) / 4096 + k)) matches Some(pk) && old(mem).live_set().contains(pk.0) && !old(self).node_set().contains(pk.0)),
        ensures
            r == newsz,
            final(mem).wf(),
            final(self).inv(*final(mem)),
            final(self).node_set() == old(self).node_set(),
            final(mem).allocator.start == old(mem).allocator.start,
            final(mem).allocator.end == old(mem).allocator.end,
            final(mem).frames == old(mem).frames,
            forall|k: int|
                0 <= k < (oldsz + 4095) / 4096 - (newsz + 4095) / 4096 ==> (#[trigger] final(self).translate((newsz + 4095) / 4096 + k)) is None,
            forall|v: int|
                !((newsz + 4095) / 4096 <= v < (oldsz + 4095) / 4096) ==> final(self).translate(v)
                    == old(self).translate(v),
            forall|q: u64|
                final(mem).live_set().contains(q) <==> old(mem).live_set().contains(q) && !old(self).range_leaf((newsz as int + 4095) / 4096, (oldsz as int + 4095) / 4096 - (newsz
                    as int + 4095) / 4096, q),
    {
        let lo: u64 = (newsz + 4095) / 4096;
        let hi: u64 = (oldsz + 4095) / 4096;
        proof {
            assert(lo * 4096 % 4096 == 0) by (nonlinear_arith);
            assert(lo * 4096 / 4096 == lo) by (nonlinear_arith);
            assert(lo <= 0x4000000);
        }
        self.unmap_pages(mem, VirtAddr(lo * 4096), hi - lo, true);
        newsz
    }

    /// Grows a user address space from `oldsz` to `newsz` bytes: every page
    /// of `[ceil(oldsz), ceil(newsz))` is mapped to a fresh zeroed frame
    /// with user read/write/execute rights.  On exhaustion everything
    /// allocated so far is given back and no mapping changes.
    #[verifier::rlimit(100)]
    #[verifier::loop_isolation(false)]
    pub fn uvm_alloc(&mut self, mem: &mut PhysMem, oldsz: u64, newsz: u64) -> (r: Result<u64, ()>)
        requires
            old(self).inv(*old(mem)),
            old(mem).wf(),
            oldsz <= newsz,
            newsz <= 0x4000000000,
            forall|k: int|
                (oldsz + 4095) / 4096 <= k < (newsz + 4095) / 4096 ==> (#[trigger] old(self).translate(k)) is None,
        ensures
            final(mem).wf(),
            final(self).inv(*final(mem)),
            final(mem).allocator.start == old(mem).allocator.start,
            final(mem).allocator.end == old(mem).allocator.end,
            old(self).node_set().subset_of(final(self).node_set()),
            final(self).node_set().difference(old(self).node_set()).disjoint(
                old(mem).live_set(),
            ),
            final(mem).frames_unchanged_except(
                *old(mem),
                Set::new(|q: u64| !old(mem).live_set().contains(q)),
            ),
            r is Err ==> forall|v: int| final(self).translate(v) == old(self).translate(v),
            r is Err ==> forall|q: u64|
                final(mem).live_set().contains(q) <==> old(mem).live_set().contains(q) || final(self).node_set().difference(old(self).node_set()).contains(q),
            old(mem).allocator.free_count() >= 3 * ((newsz + 4095) / 4096 - (oldsz + 4095)
                / 4096) && old(self).tables@.len() + 2 * ((newsz + 4095) / 4096 - (oldsz + 4095)
                / 4096) <= MAX_TABLES ==> r is Ok,
            (newsz + 4095) / 4096 == (oldsz + 4095) / 4096 ==> r is Ok && final(self).tables@
                == old(self).tables@ && final(mem).live_set() == old(mem).live_set() && final(mem).frames == old(mem).frames && final(mem).allocator.free_count() == old(mem).allocator.free_count(),
            final(self).tables@.len() <= old(self).tables@.len() + 2 * ((newsz + 4095) / 4096 - (
            oldsz + 4095) / 4096),
            final(mem).allocator.free_count() >= old(mem).allocator.free_count() - 3 * ((newsz
                + 4095) / 4096 - (oldsz + 4095) / 4096),
            r matches Ok(sz) ==> {
                &&& sz == newsz
                &&& forall|k: int|
                    (oldsz + 4095) / 4096 <= k < (newsz + 4095) / 4096 ==> ((
                    #[trigger] final(self).translate(k)) matches Some(pf) && pf.1 == user_flags()
                        && !old(mem).live_set().contains(pf.0) && !final(self).node_set().contains(pf.0) && final(mem).managed(pf.0) && final(mem).live_set().contains(pf.0))
                &&& forall|k: int, j: int|
                    (oldsz + 4095) / 4096 <= k < (newsz + 4095) / 4096 && (oldsz + 4095) / 4096
                        <= j < (newsz + 4095) / 4096 && k != j ==> (#[trigger] final(self).translate(k))->Some_0.0 != (#[trigger] final(self).translate(j))->Some_0.0
                &&& forall|k: int, x: int|
                    (oldsz + 4095) / 4096 <= k < (newsz + 4095) / 4096 && 0 <= x < 4096
                        ==> #[trigger] final(mem).frame(final(self).translate(k)->Some_0.0)[x]
                        == 0u8
                &&& forall|v: int|
                    !((oldsz + 4095) / 4096 <= v < (newsz + 4095) / 4096) ==> final(self).translate(v) == old(self).translate(v)
                &&& forall|q: u64|
                    final(mem).live_set().contains(q) <==> old(mem).live_set().contains(q)
                        || final(self).node_set().difference(old(self).node_set()).contains(q)
                        || final(self).range_leaf(
                        (oldsz as int + 4095) / 4096,
                        (newsz as int + 4095) / 4096 - (oldsz as int + 4095) / 4096,
                        q,
                    )
            },
    {
        let ghost pt0 = *old(self);
        let ghost mem0 = *old(mem);
        let lo: u64 = (oldsz + 4095) / 4096;
        let hi: u64 = (newsz + 4095) / 4096;
        let n: u64 = hi - lo;
        let mut k: u64 = 0;
        proof {
            assert forall|q: u64|
                mem.live_set().contains(q) <==> mem0.live_set().contains(q)
                    || self.node_set().difference(pt0.node_set()).contains(q)
                    || self.range_leaf(lo as int, 0, q) by {}
        }
        while k < n
            invariant
                self.inv(*mem),
                mem.wf(),
                k <= n,
                mem.allocator.start == mem0.allocator.start,
                mem.allocator.end == mem0.allocator.end,
                pt0.node_set().subset_of(self.node_set()),
                self.node_set().difference(pt0.node_set()).disjoint(mem0.live_set()),
                self.tables@.len() <= pt0.tables@.len() + 2 * k,
                mem.allocator.free_count() >= mem0.allocator.free_count() - 3 * k,
                k == 0 ==> self.tables@ == pt0.tables@ && *mem == mem0,
                mem.frames_unchanged_except(
                    mem0,
                    Set::new(|q: u64| !mem0.live_set().contains(q)),
                ),
                forall|j: int|
                    0 <= j < k ==> ((#[trigger] self.translate(lo + j)) matches Some(pf) && pf.1
                        == user_flags() && !mem0.live_set().contains(pf.0) && !self.node_set()
                        .contains(pf.0) && mem.managed(pf.0) && mem.live_set().contains(pf.0)),
                forall|j: int, i: int|
                    0 <= j < k && 0 <= i < k && j != i ==> (#[trigger] self.translate(
                        lo + j,
                    ))->Some_0.0 != (#[trigger] self.translate(lo + i))->Some_0.0,
                forall|j: int, x: int|
                    0 <= j < k && 0 <= x < 4096 ==> #[trigger] mem.frame(
                        self.translate(lo + j)->Some_0.0,
                    )[x] == 0u8,
                forall|v: int| !(lo <= v < lo + k) ==> self.translate(v) == pt0.translate(v),
                forall|q: u64|
                    mem.live_set().contains(q) <==> mem0.live_set().contains(q)
                        || self.node_set().difference(pt0.node_set()).contains(q)
                        || self.range_leaf(lo as int, k as int, q),
            decreases n - k,
        {
            let ghost pt_i = *self;
            let ghost mem_i = *mem;
            let pa = match mem.page_alloc() {
                Some(pa) => pa,
                None => {
                    proof {
                        assert(mem.live_set() =~= mem_i.live_set());
                        assert forall|q: u64| mem0.managed(q) && mem0.live_set().contains(q)
                            implies #[trigger] mem.frame(q) == mem0.frame(q) by {
                            assert(mem.frame(q) == mem_i.frame(q));
                        }
                        assert(mem_i.allocator.free_count() == 0);
                        assert(!(mem0.allocator.free_count() >= 3 * n as int));
                    }
                    self.rollback_range(mem, lo, k, Ghost(pt0), Ghost(mem0));
                    proof {
                        assert(self.tables@.len() <= pt0.tables@.len() + 2 * (n as int));
                        assert(n >= 1);
                    }
                    return Err(());
                },
            };
            let q: u64 = pa.0 / 4096;
            let ghost mem_a = *mem;
            proof {
                assert(self.translate((lo + k) as int) == pt0.translate((lo + k) as int));
                assert(pt0.translate((lo + k) as int) is None);
            }
            match self.map_one(mem, lo + k, q, PteFlags::new(true, true, true, true)) {
                Ok(_) => {
                    proof {
                        reveal(node_growth);
                        let ghost d_i = pt_i.node_set().difference(pt0.node_set());
                        let ghost d = self.node_set().difference(pt0.node_set());
                        assert(self.translate((lo + k) as int) == Some((q, user_flags())));
                        assert forall|qq: u64|
                            mem.live_set().contains(qq) <==> mem0.live_set().contains(qq)
                                || d.contains(qq) || self.range_leaf(
                                lo as int,
                                (k + 1) as int,
                                qq,
                            ) by {
                            assert(self.range_leaf(lo as int, (k + 1) as int, qq) <==> (
                            self.range_leaf(lo as int, k as int, qq) || qq == q)) by {
                                if self.range_leaf(lo as int, (k + 1) as int, qq) {
                                    let j = choose|j: int|
                                        0 <= j < k + 1 && ((#[trigger] self.translate(
                                            lo as int + j,
                                        )) matches Some(pf) && pf.0 == qq);
                                    if j < k {
                                        assert(self.translate(lo as int + j) == pt_i.translate(
                                            lo as int + j,
                                        ));
                                        assert(self.range_leaf(lo as int, k as int, qq));
                                    }
                                }
                                if self.range_leaf(lo as int, k as int, qq) {
                                    let j = choose|j: int|
                                        0 <= j < k && ((#[trigger] self.translate(lo as int + j))
                                            matches Some(pf) && pf.0 == qq);
                                }
                                if qq == q {
                                    assert((#[trigger] self.translate(lo as int + k))
                                        matches Some(pf) && pf.0 == qq);
                                }
                            }
                            assert(self.range_leaf(lo as int, k as int, qq) <==> pt_i.range_leaf(
                                lo as int,
                                k as int,
                                qq,
                            )) by {
                                if self.range_leaf(lo as int, k as int, qq) {
                                    let j = choose|j: int|
                                        0 <= j < k && ((#[trigger] self.translate(lo as int + j))
                                            matches Some(pf) && pf.0 == qq);
                                    assert(pt_i.translate(lo as int + j) == self.translate(
                                        lo as int + j,
                                    ));
                                    assert(pt_i.range_leaf(lo as int, k as int, qq));
                                }
                                if pt_i.range_leaf(lo as int, k as int, qq) {
                                    let j = choose|j: int|
                                        0 <= j < k && ((#[trigger] pt_i.translate(lo as int + j))
                                            matches Some(pf) && pf.0 == qq);
                                    assert(self.translate(lo as int + j) == pt_i.translate(
                                        lo as int + j,
                                    ));
                                    assert(self.range_leaf(lo as int, k as int, qq));
                                }
                            }
                        }
                    }
                },
                Err(_) => {
                    let ghost mem_b = *mem;
                    proof {
                        reveal(node_growth);
                        assert(mem.live_set().contains(q));
                        if mem0.allocator.free_count() >= 3 * n as int && pt0.tables@.len() + 2
                            * n as int <= MAX_TABLES {
                            assert(mem_a.allocator.free_count() >= 2);
                            assert(pt_i.tables@.len() + 2 <= MAX_TABLES);
                            assert(false);
                        }
                    }
                    mem.dealloc_ppn(crate::addr::PhysPageNum(q));
                    proof {
                        reveal(node_growth);
                        assert forall|p: u64| mem0.managed(p) && mem0.live_set().contains(p)
                            implies #[trigger] mem.frame(p) == mem0.frame(p) by {
                            assert(p != q);
                            assert(mem_i.frame(p) == mem0.frame(p));
                            assert(mem_a.frame(p) == mem_i.frame(p));
                            assert(!self.node_set().difference(pt_i.node_set()).contains(p));
                            assert(mem_b.frame(p) == mem_a.frame(p));
                            assert(mem.frame(p) == mem_b.frame(p));
                        }
                    }
                    proof {
                        reveal(node_growth);
                        assert forall|qq: u64|
                            mem.live_set().contains(qq) <==> mem0.live_set().contains(qq)
                                || self.node_set().difference(pt0.node_set()).contains(qq)
                                || self.range_leaf(lo as int, k as int, qq) by {
                            assert(self.range_leaf(lo as int, k as int, qq) <==> pt_i.range_leaf(
                                lo as int,
                                k as int,
                                qq,
                            )) by {
                                if self.range_leaf(lo as int, k as int, qq) {
                                    let j = choose|j: int|
                                        0 <= j < k && ((#[trigger] self.translate(lo as int + j))
                                            matches Some(pf) && pf.0 == qq);
                                    assert(pt_i.translate(lo as int + j) == self.translate(
                                        lo as int + j,
                                    ));
                                    assert(pt_i.range_leaf(lo as int, k as int, qq));
                                }
                                if pt_i.range_leaf(lo as int, k as int, qq) {
                                    let j = choose|j: int|
                                        0 <= j < k && ((#[trigger] pt_i.translate(lo as int + j))
                                            matches Some(pf) && pf.0 == qq);
                                    assert(self.translate(lo as int + j) == pt_i.translate(
                                        lo as int + j,
                                    ));
                                    assert(self.range_leaf(lo as int, k as int, qq));
                                }
                            }
                        }
                    }
                    self.rollback_range(mem, lo, k, Ghost(pt0), Ghost(mem0));
                    proof {
                        assert(self.tables@.len() <= pt0.tables@.len() + 2 * (n as int));
                        assert(n >= 1);
                    }
                    return Err(());
                },
            }
            k = k + 1;
        }
        proof {
            assert forall|kk: int| lo <= kk < hi implies ((#[trigger] self.translate(kk))
                matches Some(pf) && pf.1 == user_flags() && !mem0.live_set().contains(pf.0)
                && !self.node_set().contains(pf.0) && mem.managed(pf.0) && mem.live_set().contains(
                pf.0,
            )) by {
                let j = kk - lo;
                assert(self.translate(lo + j) is Some);
            }
            assert forall|kk: int, jj: int|
                lo <= kk < hi && lo <= jj < hi && kk != jj implies (#[trigger] self.translate(
                kk,
            ))->Some_0.0 != (#[trigger] self.translate(jj))->Some_0.0 by {
                assert((#[trigger] self.translate(lo + (kk - lo)))->Some_0.0 != (
                #[trigger] self.translate(lo + (jj - lo)))->Some_0.0);
            }
            assert forall|kk: int, x: int|
                lo <= kk < hi && 0 <= x < 4096 implies #[trigger] mem.frame(
                self.translate(kk)->Some_0.0,
            )[x] == 0u8 by {
                assert(mem.frame(self.translate(lo + (kk - lo))->Some_0.0)[x] == 0u8);
            }
        }
        Ok(newsz)
    }

    /// Unmaps and frees the `count` fresh pages starting at page `lo`,
    /// restoring the readings of `pt0` and the balance of `mem0`.
    fn rollback_range(
        &mut self,
        mem: &mut PhysMem,
        lo: u64,
        count: u64,
        Ghost(pt0): Ghost<PageTable>,
        Ghost(mem0): Ghost<PhysMem>,
    )
        requires
            old(self).inv(*old(mem)),
            old(mem).wf(),
            lo + count <= 0x4000000,
            old(mem).allocator.start == mem0.allocator.start,
            old(mem).allocator.end == mem0.allocator.end,
            pt0.node_set().subset_of(old(self).node_set()),
            old(self).node_set().difference(pt0.node_set()).disjoint(mem0.live_set()),
            old(mem).frames_unchanged_except(
                mem0,
                Set::new(|q: u64| !mem0.live_set().contains(q)),
            ),
            forall|j: int|
                0 <= j < count ==> ((#[trigger] old(self).translate(lo + j)) matches Some(pf)
                    && !mem0.live_set().contains(pf.0) && !old(self).node_set().contains(pf.0)
                    && old(mem).live_set().contains(pf.0)),
            forall|j: int, i: int|
                0 <= j < count && 0 <= i < count && j != i ==> (#[trigger] old(self).translate(
                    lo + j,
                ))->Some_0.0 != (#[trigger] old(self).translate(lo + i))->Some_0.0,
            forall|v: int| !(lo <= v < lo + count) ==> old(self).translate(v) == pt0.translate(v),
            forall|j: int| 0 <= j < count ==> (#[trigger] pt0.translate(lo + j)) is None,
            forall|q: u64|
                old(mem).live_set().contains(q) <==> mem0.live_set().contains(q) || old(self).node_set().difference(pt0.node_set()).contains(q) || old(self).range_leaf(
                    lo as int,
                    count as int,
                    q,
                ),
        ensures
            final(mem).wf(),
            final(self).inv(*final(mem)),
            final(mem).allocator.start == mem0.allocator.start,
            final(mem).allocator.end == mem0.allocator.end,
            final(self).node_set() == old(self).node_set(),
            final(self).tables@.len() == old(self).tables@.len(),
            final(mem).allocator.free_count() >= old(mem).allocator.free_count(),
            final(mem).frames_unchanged_except(
                mem0,
                Set::new(|q: u64| !mem0.live_set().contains(q)),
            ),
            forall|v: int| final(self).translate(v) == pt0.translate(v),
            forall|q: u64|
                final(mem).live_set().contains(q) <==> mem0.live_set().contains(q) || final(self).node_set().difference(pt0.node_set()).contains(q),
    {
        proof {
            assert(lo * 4096 % 4096 == 0) by (nonlinear_arith);
            assert(lo * 4096 / 4096 == lo) by (nonlinear_arith);
        }
        let ghost pt_e = *old(self);
        let ghost mem_e = *old(mem);
        self.unmap_pages(mem, VirtAddr(lo * 4096), count, true);
        proof {
            assert forall|v: int| self.translate(v) == pt0.translate(v) by {
                if lo <= v < lo + count {
                    assert(self.translate(lo + (v - lo)) is None);
                    assert(pt0.translate(lo + (v - lo)) is None);
                }
            }
            assert forall|q: u64|
                mem.live_set().contains(q) <==> mem0.live_set().contains(q) || self.node_set()
                    .difference(pt0.node_set()).contains(q) by {
                if mem0.live_set().contains(q) {
                    assert(!pt_e.range_leaf(lo as int, count as int, q)) by {
                        if pt_e.range_leaf(lo as int, count as int, q) {
                            let j = choose|j: int|
                                0 <= j < count && ((#[trigger] pt_e.translate(lo as int + j))
                                    matches Some(pf) && pf.0 == q);
                            assert(pt_e.translate(lo + j) matches Some(pf) && !mem0.live_set()
                                .contains(pf.0));
                        }
                    }
                }
            }
            assert forall|q: u64| mem0.managed(q) && !(!mem0.live_set().contains(q))
                implies #[trigger] mem.frame(q) == mem0.frame(q) by {
                assert(mem.frame(q) == mem_e.frame(q));
            }
        }
    }
}

impl PageTable {
    /// Loads the first user program: maps one fresh frame at address 0
    /// with user read/write/execute rights and copies `code` onto it.
    pub fn uvm_init(&mut self, mem: &mut PhysMem, code: &Vec<u8>) -> (r: Result<(), ()>)
        requires
            old(self).inv(*old(mem)),
            old(mem).wf(),
            code@.len() <= 4096,
            old(self).translate(0) is None,
        ensures
            final(mem).wf(),
            final(self).inv(*final(mem)),
            final(mem).allocator.start == old(mem).allocator.start,
            final(mem).allocator.end == old(mem).allocator.end,
            r is Err ==> forall|v: int| final(self).translate(v) == old(self).translate(v),
            old(mem).allocator.free_count() >= 3 && old(self).tables@.len() + 2 <= MAX_TABLES
                ==> r is Ok,
            r is Ok ==> {
                &&& (final(self).translate(0) matches Some(pf) && pf.1 == user_flags() && !old(mem).live_set().contains(pf.0) && final(mem).managed(pf.0))
                &&& forall|v: int| v != 0 ==> final(self).translate(v) == old(self).translate(v)
                &&& forall|j: int|
                    0 <= j < code@.len() ==> final(self).mem_byte(*final(mem), j) == Some(
                        code@[j],
                    )
                &&& forall|j: int|
                    code@.len() <= j < 4096 ==> final(self).mem_byte(*final(mem), j) == Some(0u8)
            },
    {
        let pa = match mem.page_alloc() {
            Some(pa) => pa,
            None => { return Err(()); },
        };
        let q: u64 = pa.0 / 4096;
        let ghost mem_a = *mem;
        let mut j: usize = 0;
        let n: usize = code.len();
        while j < n
            invariant
                mem.wf(),
                j <= n,
                n == code@.len() <= 4096,
                mem.managed(q),
                mem.allocator == mem_a.allocator,
                forall|i: int| 0 <= i < j ==> mem.frame(q)[i] == code@[i],
                forall|i: int| j <= i < 4096 ==> mem.frame(q)[i] == mem_a.frame(q)[i],
                mem.frames_unchanged_except(mem_a, Set::<u64>::empty().insert(q)),
            decreases n - j,
        {
            mem.write_byte(q, j, code[j]);
            j = j + 1;
        }
        let ghost pt_b = *self;
        let ghost mem_b = *mem;
        match self.map_one(mem, 0, q, PteFlags::new(true, true, true, true)) {
            Ok(_) => {
                proof {
                    reveal(node_growth);
                    assert(self.translate(0) == Some((q, user_flags())));
                    assert forall|i: int|
                        0 <= i < code@.len() implies self.mem_byte(*mem, i) == Some(
                        code@[i],
                    ) by {
                        assert(i / 4096 == 0 && i % 4096 == i);
                        assert(mem.frame(q) == mem_b.frame(q));
                    }
                    assert forall|i: int|
                        code@.len() <= i < 4096 implies self.mem_byte(*mem, i) == Some(0u8) by {
                        assert(i / 4096 == 0 && i % 4096 == i);
                        assert(mem.frame(q) == mem_b.frame(q));
                        assert(mem_a.frame(q)[i] == 0u8);
                    }
                }
                Ok(())
            },
            Err(_) => {
                proof {
                    reveal(node_growth);
                    assert(mem.live_set().contains(q));
                }
                mem.dealloc_ppn(crate::addr::PhysPageNum(q));
                Err(())
            },
        }
    }

    /// Duplicates the mappings of `[0, sz)` into `other`: each page of the
    /// range gets a fresh frame holding a copy of the source bytes, under
    /// the source page's flags.  On exhaustion `other` is restored whole.
    #[verifier::rlimit(100)]
    #[verifier::loop_isolation(false)]
    pub fn uvm_copy(&self, other: &mut PageTable, mem: &mut PhysMem, sz: u64) -> (r: Result<
        (),
        (),
    >)
        requires
            self.wf(),
            old(other).inv(*old(mem)),
            old(mem).wf(),
            sz <= 0x4000000000,
            forall|k: int|
                0 <= k < (sz + 4095) / 4096 ==> ((#[trigger] self.translate(k)) matches Some(pf)
                    && old(mem).live_set().contains(pf.0) && old(mem).managed(pf.0)),
            forall|k: int|
                0 <= k < (sz + 4095) / 4096 ==> (#[trigger] old(other).translate(k)) is None,
        ensures
            final(mem).wf(),
            final(other).inv(*final(mem)),
            final(mem).allocator.start == old(mem).allocator.start,
            final(mem).allocator.end == old(mem).allocator.end,
            old(other).node_set().subset_of(final(other).node_set()),
            final(other).node_set().difference(old(other).node_set()).disjoint(
                old(mem).live_set(),
            ),
            final(mem).frames_unchanged_except(
                *old(mem),
                Set::new(|q: u64| !old(mem).live_set().contains(q)),
            ),
            r is Err ==> forall|v: int| final(other).translate(v) == old(other).translate(v),
            r is Err ==> forall|q: u64|
                final(mem).live_set().contains(q) <==> old(mem).live_set().contains(q) || final(other).node_set().difference(old(other).node_set()).contains(q),
            old(mem).allocator.free_count() >= 3 * ((sz + 4095) / 4096) && old(
                other,
            ).tables@.len() + 2 * ((sz + 4095) / 4096) <= MAX_TABLES ==> r is Ok,
            final(other).tables@.len() <= old(other).tables@.len() + 2 * ((sz + 4095) / 4096),
            final(mem).allocator.free_count() >= old(mem).allocator.free_count() - 3 * ((sz
                + 4095) / 4096),
            r is Ok ==> {
                &&& forall|k: int|
                    0 <= k < (sz + 4095) / 4096 ==> ((#[trigger] final(other).translate(k))
                        matches Some(qf) && qf.1 == self.translate(k)->Some_0.1 && !old(mem).live_set().contains(qf.0) && !final(other).node_set().contains(qf.0)
                        && final(mem).managed(qf.0) && final(mem).live_set().contains(qf.0))
                &&& forall|k: int, j: int|
                    0 <= k < (sz + 4095) / 4096 && 0 <= j < (sz + 4095) / 4096 && k != j ==> (
                    #[trigger] final(other).translate(k))->Some_0.0 != (#[trigger] final(other).translate(j))->Some_0.0
                &&& forall|k: int, x: int|
                    0 <= k < (sz + 4095) / 4096 && 0 <= x < 4096 ==> #[trigger] final(mem).frame(
                        final(other).translate(k)->Some_0.0,
                    )[x] == old(mem).frame(self.translate(k)->Some_0.0)[x]
                &&& forall|v: int|
                    !(0 <= v < (sz + 4095) / 4096) ==> final(other).translate(v) == old(other).translate(v)
                &&& forall|q: u64|
                    final(mem).live_set().contains(q) <==> old(mem).live_set().contains(q)
                        || final(other).node_set().difference(old(other).node_set()).contains(q)
                        || final(other).range_leaf(0, (sz as int + 4095) / 4096, q)
            },
    {
        let ghost pt0 = *old(other);
        let ghost mem0 = *old(mem);
        let n: u64 = (sz + 4095) / 4096;
        let mut k: u64 = 0;
        proof {
            assert forall|q: u64|
                mem.live_set().contains(q) <==> mem0.live_set().contains(q)
                    || other.node_set().difference(pt0.node_set()).contains(q)
                    || other.range_leaf(0, 0, q) by {}
        }
        while k < n
            invariant
                self.wf(),
                other.inv(*mem),
                mem.wf(),
                k <= n,
                mem.allocator.start == mem0.allocator.start,
                mem.allocator.end == mem0.allocator.end,
                pt0.node_set().subset_of(other.node_set()),
                other.node_set().difference(pt0.node_set()).disjoint(mem0.live_set()),
                other.tables@.len() <= pt0.tables@.len() + 2 * k,
                mem.allocator.free_count() >= mem0.allocator.free_count() - 3 * k,
                mem.frames_unchanged_except(
                    mem0,
                    Set::new(|q: u64| !mem0.live_set().contains(q)),
                ),
                forall|j: int|
                    0 <= j < k ==> ((#[trigger] other.translate(j)) matches Some(qf) && qf.1
                        == self.translate(j)->Some_0.1 && !mem0.live_set().contains(qf.0)
                        && !other.node_set().contains(qf.0) && mem.managed(qf.0) && mem.live_set()
                        .contains(qf.0)),
                forall|j: int, i: int|
                    0 <= j < k && 0 <= i < k && j != i ==> (#[trigger] other.translate(
                        j,
                    ))->Some_0.0 != (#[trigger] other.translate(i))->Some_0.0,
                forall|j: int, x: int|
                    0 <= j < k && 0 <= x < 4096 ==> #[trigger] mem.frame(
                        other.translate(j)->Some_0.0,
                    )[x] == mem0.frame(self.translate(j)->Some_0.0)[x],
                forall|v: int| !(0 <= v < k) ==> other.translate(v) == pt0.translate(v),
                forall|q: u64|
                    mem.live_set().contains(q) <==> mem0.live_set().contains(q)
                        || other.node_set().difference(pt0.node_set()).contains(q)
                        || other.range_leaf(0, k as int, q),
            decreases n - k,
        {
            let ghost pt_i = *other;
            let ghost mem_i = *mem;
            let src = match self.walk(VirtAddr(k * 4096)) {
                Some((p, f)) => (p, f),
                None => {
                    proof {
                        assert((k * 4096) as int / 4096 == k as int) by (nonlinear_arith);
                        assert(false);
                    }
                    (0u64, PteFlags::new(false, false, false, false))
                },
            };
            proof {
                assert((k * 4096) as int / 4096 == k as int) by (nonlinear_arith);
            }
            let pa = match mem.page_alloc() {
                Some(pa) => pa,
                None => {
                    proof {
                        assert(mem.live_set() =~= mem_i.live_set());
                        assert forall|q: u64| mem0.managed(q) && mem0.live_set().contains(q)
                            implies #[trigger] mem.frame(q) == mem0.frame(q) by {
                            assert(mem.frame(q) == mem_i.frame(q));
                        }
                        assert(mem_i.allocator.free_count() == 0);
                        assert(!(mem0.allocator.free_count() >= 3 * n as int));
                    }
                    other.rollback_range(mem, 0, k, Ghost(pt0), Ghost(mem0));
                    proof {
                        assert(other.tables@.len() <= pt0.tables@.len() + 2 * (n as int));
                        assert(n >= 1);
                    }
                    return Err(());
                },
            };
            let q: u64 = pa.0 / 4096;
            let ghost mem_a = *mem;
            mem.copy_frame(src.0, q);
            let ghost mem_c = *mem;
            proof {
                assert(other.translate(k as int) == pt0.translate(k as int));
                assert(pt0.translate(k as int) is None);
            }
            match other.map_one(mem, k, q, src.1) {
                Ok(_) => {
                    proof {
                        reveal(node_growth);
                        let ghost d = other.node_set().difference(pt0.node_set());
                        assert(other.translate(k as int) == Some((q, src.1)));
                        assert forall|qq: u64|
                            mem.live_set().contains(qq) <==> mem0.live_set().contains(qq)
                                || d.contains(qq) || other.range_leaf(0, (k + 1) as int, qq) by {
                            assert(other.range_leaf(0, (k + 1) as int, qq) <==> (
                            other.range_leaf(0, k as int, qq) || qq == q)) by {
                                if other.range_leaf(0, (k + 1) as int, qq) {
                                    let j = choose|j: int|
                                        0 <= j < k + 1 && ((#[trigger] other.translate(j))
                                            matches Some(pf) && pf.0 == qq);
                                    if j < k {
                                        assert(other.translate(j) == pt_i.translate(j));
                                        assert(other.range_leaf(0, k as int, qq));
                                    }
                                }
                                if other.range_leaf(0, k as int, qq) {
                                    let j = choose|j: int|
                                        0 <= j < k && ((#[trigger] other.translate(j))
                                            matches Some(pf) && pf.0 == qq);
                                }
                                if qq == q {
                                    assert((#[trigger] other.translate(0 + k as int))
                                        matches Some(pf) && pf.0 == qq);
                                }
                            }
                            assert(other.range_leaf(0, k as int, qq) <==> pt_i.range_leaf(
                                0,
                                k as int,
                                qq,
                            )) by {
                                if other.range_leaf(0, k as int, qq) {
                                    let j = choose|j: int|
                                        0 <= j < k && ((#[trigger] other.translate(j))
                                            matches Some(pf) && pf.0 == qq);
                                    assert(pt_i.translate(j) == other.translate(j));
                                    assert(pt_i.range_leaf(0, k as int, qq));
                                }
                                if pt_i.range_leaf(0, k as int, qq) {
                                    let j = choose|j: int|
                                        0 <= j < k && ((#[trigger] pt_i.translate(j))
                                            matches Some(pf) && pf.0 == qq);
                                    assert(other.translate(j) == pt_i.translate(j));
                                    assert(other.range_leaf(0, k as int, qq));
                                }
                            }
                        }
                        assert forall|j: int, x: int|
                            0 <= j < k + 1 && 0 <= x < 4096 implies #[trigger] mem.frame(
                            other.translate(j)->Some_0.0,
                        )[x] == mem0.frame(self.translate(j)->Some_0.0)[x] by {
                            if j < k {
                                let qq = pt_i.translate(j)->Some_0.0;
                                assert(other.translate(j) == pt_i.translate(j));
                                assert(mem_i.frame(qq)[x] == mem0.frame(
                                    self.translate(j)->Some_0.0,
                                )[x]);
                                assert(qq != q);
                                assert(mem_a.frame(qq) == mem_i.frame(qq));
                                assert(mem_c.frame(qq) == mem_a.frame(qq));
                                assert(mem.frame(qq) == mem_c.frame(qq));
                            } else {
                                assert(mem_c.frame(q) == mem_a.frame(src.0));
                                assert(mem_a.frame(src.0) == mem_i.frame(src.0));
                                assert(mem_i.frame(src.0) == mem0.frame(src.0));
                                assert(mem.frame(q) == mem_c.frame(q));
                            }
                        }
                    }
                },
                Err(_) => {
                    let ghost mem_b = *mem;
                    proof {
                        reveal(node_growth);
                        assert(mem.live_set().contains(q));
                        if mem0.allocator.free_count() >= 3 * n as int && pt0.tables@.len() + 2
                            * n as int <= MAX_TABLES {
                            assert(mem_c.allocator.free_count() >= 2);
                            assert(pt_i.tables@.len() + 2 <= MAX_TABLES);
                            assert(false);
                        }
                    }
                    mem.dealloc_ppn(crate::addr::PhysPageNum(q));
                    proof {
                        reveal(node_growth);
                        assert forall|p: u64| mem0.managed(p) && mem0.live_set().contains(p)
                            implies #[trigger] mem.frame(p) == mem0.frame(p) by {
                            assert(p != q);
                            assert(mem_i.frame(p) == mem0.frame(p));
                            assert(mem_a.frame(p) == mem_i.frame(p));
                            assert(mem_c.frame(p) == mem_a.frame(p));
                            assert(!other.node_set().difference(pt_i.node_set()).contains(p));
                            assert(mem_b.frame(p) == mem_c.frame(p));
                            assert(mem.frame(p) == mem_b.frame(p));
                        }
                        assert forall|qq: u64|
                            mem.live_set().contains(qq) <==> mem0.live_set().contains(qq)
                                || other.node_set().difference(pt0.node_set()).contains(qq)
                                || other.range_leaf(0, k as int, qq) by {
                            assert(other.range_leaf(0, k as int, qq) <==> pt_i.range_leaf(
                                0,
                                k as int,
                                qq,
                            )) by {
                                if other.range_leaf(0, k as int, qq) {
                                    let j = choose|j: int|
                                        0 <= j < k && ((#[trigger] other.translate(j))
                                            matches Some(pf) && pf.0 == qq);
                                    assert(pt_i.translate(j) == other.translate(j));
                                    assert(pt_i.range_leaf(0, k as int, qq));
                                }
                                if pt_i.range_leaf(0, k as int, qq) {
                                    let j = choose|j: int|
                                        0 <= j < k && ((#[trigger] pt_i.translate(j))
                                            matches Some(pf) && pf.0 == qq);
                                    assert(other.translate(j) == pt_i.translate(j));
                                    assert(other.range_leaf(0, k as int, qq));
                                }
                            }
                        }
                    }
                    other.rollback_range(mem, 0, k, Ghost(pt0), Ghost(mem0));
                    proof {
                        assert(other.tables@.len() <= pt0.tables@.len() + 2 * (n as int));
                        assert(n >= 1);
                    }
                    return Err(());
                },
            }
            k = k + 1;
        }
        proof {
            assert(n == (sz + 4095) / 4096);
        }
        Ok(())
    }
}

impl PageTable {
    /// Reads a NUL-terminated string out of user memory, at most `max`
    /// bytes including the terminator.  Succeeds exactly when a NUL byte
    /// sits on readable user pages within that bound; the result holds the
    /// bytes before the NUL.
    #[verifier::loop_isolation(false)]
    pub fn copy_in_str(&self, mem: &PhysMem, src: u64, max: usize) -> (r: Result<Vec<u8>, ()>)
        requires
            self.wf(),
            mem.wf(),
            src + max <= 0x4000000000,
        ensures
            r is Ok <==> exists|ln: int|
                0 <= ln < max && (forall|j: int|
                    0 <= j <= ln ==> #[trigger] self.user_readable(*mem, src + j)) && (forall|
                    j: int,
                |
                    0 <= j < ln ==> (#[trigger] self.mem_byte(*mem, src + j)) != Some(0u8)) && (
                #[trigger] self.mem_byte(*mem, src + ln)) == Some(0u8),
            r matches Ok(v) ==> {
                &&& v@.len() < max
                &&& forall|j: int|
                    0 <= j < v@.len() ==> Some(#[trigger] v@[j]) == self.mem_byte(*mem, src + j)
                &&& forall|j: int| 0 <= j < v@.len() ==> v@[j] != 0u8
                &&& self.mem_byte(*mem, src + v@.len()) == Some(0u8)
            },
    {
        let mut v: Vec<u8> = Vec::new();
        let mut j: usize = 0;
        while j < max
            invariant
                j <= max,
                v@.len() == j,
                forall|i: int| 0 <= i < j ==> #[trigger] self.user_readable(*mem, src + i),
                forall|i: int| 0 <= i < j ==> Some(#[trigger] v@[i]) == self.mem_byte(*mem, src + i),
                forall|i: int| 0 <= i < j ==> (#[trigger] self.mem_byte(*mem, src + i)) != Some(0u8),
            decreases max - j,
        {
            let va = VirtAddr(src + j as u64);
            match self.walk(va) {
                Some((p, f)) => {
                    if !(f.u && f.r) || p < mem.allocator.start || p >= mem.allocator.end {
                        proof {
                            assert(!self.user_readable(*mem, src + j as u64));
                            assert forall|ln: int|
                                !(0 <= ln < max && (forall|i: int|
                                    0 <= i <= ln ==> #[trigger] self.user_readable(*mem, src + i))
                                    && (forall|i: int|
                                    0 <= i < ln ==> (#[trigger] self.mem_byte(*mem, src + i))
                                        != Some(0u8)) && (#[trigger] self.mem_byte(
                                    *mem,
                                    src + ln,
                                )) == Some(0u8)) by {
                                if 0 <= ln < max {
                                    if ln >= j {
                                        assert(!(forall|i: int|
                                            0 <= i <= ln ==> #[trigger] self.user_readable(
                                                *mem,
                                                src + i,
                                            )));
                                    }
                                }
                            }
                        }
                        return Err(());
                    }
                    let off: usize = (va.0 % 4096) as usize;
                    let b = mem.read_byte(p, off);
                    proof {
                        assert(self.user_readable(*mem, src + j as u64));
                        assert(self.mem_byte(*mem, src + j as u64) == Some(b));
                    }
                    if b == 0 {
                        proof {
                            let ghost ln = j as int;
                            assert(0 <= ln < max);
                            assert(forall|i: int|
                                0 <= i <= ln ==> #[trigger] self.user_readable(*mem, src + i));
                            assert(forall|i: int|
                                0 <= i < ln ==> (#[trigger] self.mem_byte(*mem, src + i)) != Some(
                                    0u8,
                                ));
                            assert(self.mem_byte(*mem, src + ln) == Some(0u8));
                        }
                        return Ok(v);
                    }
                    v.push(b);
                },
                None => {
                    proof {
                        assert(!self.user_readable(*mem, src + j as u64));
                        assert forall|ln: int|
                            !(0 <= ln < max && (forall|i: int|
                                0 <= i <= ln ==> #[trigger] self.user_readable(*mem, src + i)) && (
                            forall|i: int|
                                0 <= i < ln ==> (#[trigger] self.mem_byte(*mem, src + i)) != Some(
                                    0u8,
                                )) && (#[trigger] self.mem_byte(*mem, src + ln)) == Some(
                                0u8,
                            )) by {
                            if 0 <= ln < max {
                                if ln >= j {
                                    assert(!(forall|i: int|
                                        0 <= i <= ln ==> #[trigger] self.user_readable(
                                            *mem,
                                            src + i,
                                        )));
                                }
                            }
                        }
                    }
                    return Err(());
                },
            }
            j = j + 1;
        }
        proof {
            assert forall|ln: int|
                !(0 <= ln < max && (forall|i: int|
                    0 <= i <= ln ==> #[trigger] self.user_readable(*mem, src + i)) && (forall|
                    i: int,
                |
                    0 <= i < ln ==> (#[trigger] self.mem_byte(*mem, src + i)) != Some(0u8)) && (
                #[trigger] self.mem_byte(*mem, src + ln)) == Some(0u8)) by {}
        }
        Err(())
    }

    /// Gives every table of the arena back to the allocator, consuming the
    /// page table.
    pub fn free_all_tables(self, mem: &mut PhysMem)
        requires
            self.inv(*old(mem)),
            old(mem).wf(),
        ensures
            final(mem).wf(),
            final(mem).allocator.start == old(mem).allocator.start,
            final(mem).allocator.end == old(mem).allocator.end,
            final(mem).frames == old(mem).frames,
            forall|q: u64|
                (#[trigger] final(mem).live_set().contains(q)) <==> old(mem).live_set().contains(
                    q,
                ) && !self.node_set().contains(q),
    {
        let ghost pt0 = self;
        let ghost mem0 = *old(mem);
        let mut tables = self.tables;
        proof {
            assert forall|q: u64|
                mem.live_set().contains(q) <==> mem0.live_set().contains(q) && !(exists|t: int|
                    tables@.len() <= t < pt0.tables@.len() && (#[trigger] pt0.tables@[t]).ppn
                        == q) by {}
        }
        while tables.len() > 0
            invariant
                mem.wf(),
                mem.allocator.start == mem0.allocator.start,
                mem.allocator.end == mem0.allocator.end,
                mem.frames == mem0.frames,
                tables@.len() <= pt0.tables@.len(),
                forall|t: int| 0 <= t < tables@.len() ==> tables@[t] == pt0.tables@[t],
                forall|t: int, u: int|
                    0 <= t < pt0.tables@.len() && 0 <= u < pt0.tables@.len() && (
                    #[trigger] pt0.tables@[t]).ppn == (#[trigger] pt0.tables@[u]).ppn ==> t == u,
                forall|t: int|
                    0 <= t < tables@.len() ==> mem.live_set().contains(
                        (#[trigger] tables@[t]).ppn,
                    ),
                forall|q: u64|
                    mem.live_set().contains(q) <==> mem0.live_set().contains(q) && !(exists|
                        t: int,
                    |
                        tables@.len() <= t < pt0.tables@.len() && (#[trigger] pt0.tables@[t]).ppn
                            == q),
            decreases tables@.len(),
        {
            let ghost len_i = tables@.len() as int;
            let ghost mem_i = *mem;
            let t = match tables.pop() {
                Some(t) => t,
                None => {
                    proof {
                        assert(false);
                    }
                    return ;
                },
            };
            mem.dealloc_ppn(crate::addr::PhysPageNum(t.ppn));
            proof {
                assert(t.ppn == pt0.tables@[len_i - 1].ppn);
                assert forall|q: u64|
                    mem.live_set().contains(q) <==> mem0.live_set().contains(q) && !(exists|
                        t2: int,
                    |
                        tables@.len() <= t2 < pt0.tables@.len() && (#[trigger] pt0.tables@[t2]).ppn
                            == q) by {
                    if q == t.ppn {
                        assert((#[trigger] pt0.tables@[len_i - 1]).ppn == q);
                    } else {
                        if exists|t2: int|
                            len_i <= t2 < pt0.tables@.len() && (#[trigger] pt0.tables@[t2]).ppn
                                == q {
                            let t2 = choose|t2: int|
                                len_i <= t2 < pt0.tables@.len() && (#[trigger] pt0.tables@[t2]).ppn
                                    == q;
                            assert(tables@.len() <= t2 < pt0.tables@.len());
                        }
                        if exists|t2: int|
                            tables@.len() <= t2 < pt0.tables@.len() && (
                            #[trigger] pt0.tables@[t2]).ppn == q {
                            let t2 = choose|t2: int|
                                tables@.len() <= t2 < pt0.tables@.len() && (
                                #[trigger] pt0.tables@[t2]).ppn == q;
                            assert(t2 != len_i - 1);
                            assert(len_i <= t2 < pt0.tables@.len());
                        }
                    }
                }
            }
        }
        proof {
            assert forall|q: u64|
                mem.live_set().contains(q) <==> mem0.live_set().contains(q)
                    && !pt0.node_set().contains(q) by {
                if pt0.node_set().contains(q) {
                    let t = choose|t: int|
                        0 <= t < pt0.tables@.len() && pt0.tables@[t].ppn == q;
                    assert(tables@.len() <= t < pt0.tables@.len() && (
                    #[trigger] pt0.tables@[t]).ppn == q);
                }
                if exists|t: int|
                    tables@.len() <= t < pt0.tables@.len() && (#[trigger] pt0.tables@[t]).ppn
                        == q {
                    let t = choose|t: int|
                        tables@.len() <= t < pt0.tables@.len() && (#[trigger] pt0.tables@[t]).ppn
                            == q;
                    assert(pt0.node_set().contains(q));
                }
            }
        }
    }
}

impl PageTable {
    /// Builds the fixed skeleton of a process address space: a fresh root,
    /// the shared trampoline page mapped read-execute on the last virtual
    /// page, and the task's trapframe page mapped read-write at `tf_va`.
    pub fn alloc_proc_pagetable(
        mem: &mut PhysMem,
        trampoline_pa: PhysAddr,
        trapframe_pa: PhysAddr,
        tf_va: VirtAddr,
    ) -> (r: Result<PageTable, ()>)
        requires
            old(mem).wf(),
            trampoline_pa.0 % 4096 == 0,
            trampoline_pa.0 + 4096 <= 0x10000000000000,
            trapframe_pa.0 % 4096 == 0,
            trapframe_pa.0 + 4096 <= 0x10000000000000,
            tf_va.0 % 4096 == 0,
            tf_va.0 + 4096 < 0x3FFFFFF000,
        ensures
            final(mem).wf(),
            final(mem).allocator.start == old(mem).allocator.start,
            final(mem).allocator.end == old(mem).allocator.end,
            final(mem).frames_unchanged_except(
                *old(mem),
                Set::new(|q: u64| !old(mem).live_set().contains(q)),
            ),
            r is Err ==> forall|q: u64|
                final(mem).live_set().contains(q) <==> old(mem).live_set().contains(q),
            old(mem).allocator.free_count() >= 5 ==> r is Ok,
            r is Ok ==> final(mem).allocator.free_count() >= old(mem).allocator.free_count()
                - 5,
            r matches Ok(pt) ==> pt.tables@.len() <= 5,
            r matches Ok(pt) ==> {
                &&& pt.inv(*final(mem))
                &&& pt.translate(0x3FFFFFF) == Some(
                    (trampoline_pa.0 / 4096, PteFlags { r: true, w: false, x: true, u: false, g: false, a: false, d: false }),
                )
                &&& pt.translate(tf_va.0 as int / 4096) == Some(
                    (trapframe_pa.0 / 4096, PteFlags { r: true, w: true, x: false, u: false, g: false, a: false, d: false }),
                )
                &&& forall|v: int|
                    v != 0x3FFFFFF && v != tf_va.0 as int / 4096 ==> pt.translate(v) is None
                &&& pt.node_set().disjoint(old(mem).live_set())
                &&& forall|q: u64|
                    final(mem).live_set().contains(q) <==> old(mem).live_set().contains(q)
                        || pt.node_set().contains(q)
            },
    {
        let ghost mem0 = *old(mem);
        let mut pt = match Self::new_root(mem) {
            Ok(pt) => pt,
            Err(_) => {
                proof {
                    assert forall|q: u64|
                        mem.live_set().contains(q) <==> mem0.live_set().contains(q) by {}
                    assert(mem0.allocator.free_count() == 0);
                }
                return Err(());
            },
        };
        let ghost pt1 = pt;
        let ghost mem1 = *mem;
        proof {
            assert(pt1.node_set() =~= Set::<u64>::empty().insert(pt1.tables@[0].ppn)) by {
                assert forall|q: u64|
                    pt1.node_set().contains(q) <==> q == pt1.tables@[0].ppn by {
                    if pt1.node_set().contains(q) {
                        let t = choose|t: int|
                            0 <= t < pt1.tables@.len() && pt1.tables@[t].ppn == q;
                        assert(t == 0);
                    }
                    if q == pt1.tables@[0].ppn {
                        assert((#[trigger] pt1.tables@[0]).ppn == q);
                    }
                }
            }
        }
        match pt.map_pages(
            mem,
            VirtAddr(0x3FFFFFF000),
            4096,
            trampoline_pa,
            PteFlags::new(true, false, true, false),
        ) {
            Ok(_) => {},
            Err(_) => {
                let ghost pt2 = pt;
                let ghost mem2 = *mem;
                proof {
                    reveal(node_growth);
                    if mem0.allocator.free_count() >= 5 {
                        assert(mem1.allocator.free_count() >= 2);
                        assert(pt1.tables@.len() + 2 <= MAX_TABLES);
                        assert(false);
                    }
                }
                pt.free_all_tables(mem);
                proof {
                    reveal(node_growth);
                    assert forall|q: u64|
                        mem.live_set().contains(q) <==> mem0.live_set().contains(q) by {
                        assert(mem.live_set().contains(q) <==> mem2.live_set().contains(q)
                            && !pt2.node_set().contains(q));
                        if mem0.live_set().contains(q) {
                            assert(!pt2.node_set().contains(q)) by {
                                if pt1.node_set().contains(q) {
                                    assert(q == pt1.tables@[0].ppn);
                                } else {
                                    if pt2.node_set().contains(q) {
                                        assert(pt2.node_set().difference(pt1.node_set()).contains(
                                            q,
                                        ));
                                        assert(!mem1.live_set().contains(q));
                                    }
                                }
                            }
                            assert(mem1.live_set().contains(q));
                            assert(mem2.live_set().contains(q));
                        }
                        if mem.live_set().contains(q) {
                            assert(mem2.live_set().contains(q) && !pt2.node_set().contains(q));
                            if !mem0.live_set().contains(q) {
                                if mem1.live_set().contains(q) {
                                    assert(q == pt1.tables@[0].ppn);
                                    assert((#[trigger] pt1.tables@[0]).ppn == q);
                                    assert(pt1.node_set().contains(q));
                                    assert(pt1.node_set().subset_of(pt2.node_set()));
                                } else {
                                    assert(pt2.node_set().difference(pt1.node_set()).contains(q));
                                }
                            }
                        }
                    }
                    assert forall|q: u64| mem0.managed(q) && mem0.live_set().contains(q)
                        implies #[trigger] mem.frame(q) == mem0.frame(q) by {
                        assert(mem1.frame(q) == mem0.frame(q));
                        assert(!pt2.node_set().difference(pt1.node_set()).contains(q));
                        assert(mem2.frame(q) == mem1.frame(q));
                        assert(mem.frame(q) == mem2.frame(q));
                    }
                }
                return Err(());
            },
        }
        let ghost pt2 = pt;
        let ghost mem2 = *mem;
        proof {
            reveal(node_growth);
            assert(pt.translate(0x3FFFFFF) == Some(
                (trampoline_pa.0 / 4096, PteFlags { r: true, w: false, x: true, u: false, g: false, a: false, d: false }),
            )) by {
                assert(0x3FFFFFF000u64 / 4096 == 0x3FFFFFF);
                assert(pt.translate(0x3FFFFFF000u64 as int / 4096 + 0) == Some(
                    (
                        (trampoline_pa.0 / 4096 + 0) as u64,
                        PteFlags { r: true, w: false, x: true, u: false, g: false, a: false, d: false },
                    ),
                ));
            }
            assert(pt.translate(tf_va.0 as int / 4096) is None);
        }
        match pt.map_pages(
            mem,
            tf_va,
            4096,
            trapframe_pa,
            PteFlags::new(true, true, false, false),
        ) {
            Ok(_) => {},
            Err(_) => {
                let ghost pt3 = pt;
                let ghost mem3 = *mem;
                proof {
                    reveal(node_growth);
                    if mem0.allocator.free_count() >= 5 {
                        assert(mem2.allocator.free_count() >= 2);
                        assert(pt2.tables@.len() + 2 <= MAX_TABLES);
                        assert(false);
                    }
                }
                pt.free_all_tables(mem);
                proof {
                    reveal(node_growth);
                    assert forall|q: u64|
                        mem.live_set().contains(q) <==> mem0.live_set().contains(q) by {
                        assert(mem.live_set().contains(q) <==> mem3.live_set().contains(q)
                            && !pt3.node_set().contains(q));
                        if mem0.live_set().contains(q) {
                            assert(!pt3.node_set().contains(q)) by {
                                if pt2.node_set().contains(q) {
                                    if pt1.node_set().contains(q) {
                                        assert(q == pt1.tables@[0].ppn);
                                    } else {
                                        assert(pt2.node_set().difference(
                                            pt1.node_set(),
                                        ).contains(q));
                                    }
                                } else {
                                    if pt3.node_set().contains(q) {
                                        assert(pt3.node_set().difference(
                                            pt2.node_set(),
                                        ).contains(q));
                                        assert(!mem2.live_set().contains(q));
                                    }
                                }
                            }
                            assert(mem1.live_set().contains(q));
                            assert(mem2.live_set().contains(q));
                            assert(mem3.live_set().contains(q));
                        }
                        if mem.live_set().contains(q) {
                            assert(mem3.live_set().contains(q));
                            if !mem0.live_set().contains(q) {
                                if mem1.live_set().contains(q) {
                                    assert(q == pt1.tables@[0].ppn);
                                    assert((#[trigger] pt1.tables@[0]).ppn == q);
                                    assert(pt1.node_set().contains(q));
                                    assert(pt1.node_set().subset_of(pt2.node_set()));
                                    assert(pt2.node_set().subset_of(pt3.node_set()));
                                } else if mem2.live_set().contains(q) {
                                    assert(pt2.node_set().difference(pt1.node_set()).contains(q));
                                    assert(pt2.node_set().subset_of(pt3.node_set()));
                                } else {
                                    assert(pt3.node_set().difference(pt2.node_set()).contains(q));
                                }
                            }
                        }
                    }
                    assert forall|q: u64| mem0.managed(q) && mem0.live_set().contains(q)
                        implies #[trigger] mem.frame(q) == mem0.frame(q) by {
                        assert(mem1.frame(q) == mem0.frame(q));
                        assert(!pt2.node_set().difference(pt1.node_set()).contains(q));
                        assert(mem2.frame(q) == mem1.frame(q));
                        assert(!pt3.node_set().difference(pt2.node_set()).contains(q));
                        assert(mem3.frame(q) == mem2.frame(q));
                        assert(mem.frame(q) == mem3.frame(q));
                    }
                }
                return Err(());
            },
        }
        proof {
            reveal(node_growth);
            assert(pt.translate(tf_va.0 as int / 4096) == Some(
                (trapframe_pa.0 / 4096, PteFlags { r: true, w: true, x: false, u: false, g: false, a: false, d: false }),
            )) by {
                assert(tf_va.0 as int / 4096 == tf_va.0 as int / 4096 + 0);
                assert(pt.translate(tf_va.0 as int / 4096 + 0) == Some(
                    (
                        (trapframe_pa.0 / 4096 + 0) as u64,
                        PteFlags { r: true, w: true, x: false, u: false, g: false, a: false, d: false },
                    ),
                ));
            }
            assert(pt.translate(0x3FFFFFF) == Some(
                (trampoline_pa.0 / 4096, PteFlags { r: true, w: false, x: true, u: false, g: false, a: false, d: false }),
            ));
            assert forall|v: int|
                v != 0x3FFFFFF && v != tf_va.0 as int / 4096 implies pt.translate(v) is None by {
                assert(pt.translate(v) == pt2.translate(v));
                assert(pt2.translate(v) == pt1.translate(v));
            }
            assert forall|q: u64|
                mem.live_set().contains(q) <==> mem0.live_set().contains(q)
                    || pt.node_set().contains(q) by {
                if mem.live_set().contains(q) && !mem0.live_set().contains(q) {
                    if mem2.live_set().contains(q) {
                        if mem1.live_set().contains(q) {
                            assert(q == pt1.tables@[0].ppn);
                            assert((#[trigger] pt1.tables@[0]).ppn == q);
                            assert(pt1.node_set().contains(q));
                            assert(pt1.node_set().subset_of(pt2.node_set()));
                            assert(pt2.node_set().subset_of(pt.node_set()));
                        } else {
                            assert(pt2.node_set().contains(q));
                        }
                    } else {
                        assert(pt.node_set().contains(q));
                    }
                }
                if pt.node_set().contains(q) && !mem0.live_set().contains(q) {
                    assert(mem.live_set().contains(q)) by {
                        let t = choose|t: int|
                            0 <= t < pt.tables@.len() && pt.tables@[t].ppn == q;
                        assert((#[trigger] pt.tables@[t]).ppn == q);
                    }
                }
            }
            assert(pt.node_set().disjoint(mem0.live_set())) by {
                assert forall|q: u64|
                    pt.node_set().contains(q) implies !mem0.live_set().contains(q) by {
                    if mem0.live_set().contains(q) {
                        assert(pt1.node_set().subset_of(pt.node_set()));
                        if pt2.node_set().contains(q) {
                            if pt1.node_set().contains(q) {
                                assert(q == pt1.tables@[0].ppn);
                                assert(!mem0.live_set().contains(pt1.tables@[0].ppn));
                            } else {
                                assert(pt2.node_set().difference(pt1.node_set()).contains(q));
                            }
                        } else {
                            assert(pt.node_set().difference(pt2.node_set()).contains(q));
                        }
                    }
                }
            }
            assert forall|q: u64| mem0.managed(q) && mem0.live_set().contains(q)
                implies #[trigger] mem.frame(q) == mem0.frame(q) by {
                assert(mem1.frame(q) == mem0.frame(q));
                assert(!pt2.node_set().difference(pt1.node_set()).contains(q));
                assert(mem2.frame(q) == mem1.frame(q));
                assert(!pt.node_set().difference(pt2.node_set()).contains(q));
                assert(mem.frame(q) == mem2.frame(q));
            }
        }
        Ok(pt)
    }

    /// Tears a process address space down: unmaps the trampoline without
    /// freeing its shared frame, unmaps and frees the trapframe page at
    /// `tf_va`, frees the `sz` bytes of user memory, and finally gives
    /// every table frame back.
    pub fn dealloc_proc_pagetable(self, mem: &mut PhysMem, sz: u64, tf_va: VirtAddr)
        requires
            self.inv(*old(mem)),
            old(mem).wf(),
            tf_va.0 % 4096 == 0,
            sz <= tf_va.0,
            tf_va.0 + 4096 < 0x3FFFFFF000,
            self.translate(0x3FFFFFF) is Some,
            (self.translate(tf_va.0 as int / 4096) matches Some(pk) && old(mem).live_set().contains(pk.0) && !self.node_set().contains(pk.0)),
            forall|k: int|
                0 <= k < (sz + 4095) / 4096 ==> ((#[trigger] self.translate(k)) matches Some(pk)
                    && old(mem).live_set().contains(pk.0) && !self.node_set().contains(pk.0)
                    && pk.0 != self.translate(tf_va.0 as int / 4096)->Some_0.0),
            forall|k: int, j: int|
                0 <= k < (sz + 4095) / 4096 && 0 <= j < (sz + 4095) / 4096 && k != j ==> (
                #[trigger] self.translate(k))->Some_0.0 != (#[trigger] self.translate(
                    j,
                ))->Some_0.0,
        ensures
            final(mem).wf(),
            final(mem).allocator.start == old(mem).allocator.start,
            final(mem).allocator.end == old(mem).allocator.end,
            final(mem).frames == old(mem).frames,
            forall|q: u64|
                final(mem).live_set().contains(q) <==> old(mem).live_set().contains(q) && !(q
                    == self.translate(tf_va.0 as int / 4096)->Some_0.0 || self.range_leaf(
                    0,
                    (sz as int + 4095) / 4096,
                    q,
                ) || self.node_set().contains(q)),
    {
        let ghost pt0 = self;
        let ghost mem0 = *old(mem);
        let mut pt = self;
        pt.unmap_pages(mem, VirtAddr(0x3FFFFFF000), 1, false);
        proof {
            assert(0x3FFFFFF000u64 / 4096 == 0x3FFFFFF);
            assert(pt.translate(tf_va.0 as int / 4096) == pt0.translate(tf_va.0 as int / 4096));
        }
        let ghost pt1 = pt;
        let ghost tfp = pt0.translate(tf_va.0 as int / 4096)->Some_0.0;
        pt.unmap_pages(mem, tf_va, 1, true);
        let ghost pt2 = pt;
        let ghost mem2 = *mem;
        proof {
            assert forall|q: u64|
                mem2.live_set().contains(q) <==> mem0.live_set().contains(q) && q != tfp by {
                assert(pt1.range_leaf(tf_va.0 as int / 4096, 1, q) <==> q == tfp) by {
                    if pt1.range_leaf(tf_va.0 as int / 4096, 1, q) {
                        let j = choose|j: int|
                            0 <= j < 1 && ((#[trigger] pt1.translate(tf_va.0 as int / 4096 + j))
                                matches Some(pf) && pf.0 == q);
                        assert(j == 0);
                    }
                    if q == tfp {
                        assert((#[trigger] pt1.translate(tf_va.0 as int / 4096 + 0))
                            matches Some(pf) && pf.0 == q);
                    }
                }
            }
            assert forall|k: int|
                0 <= k < (sz + 4095) / 4096 implies ((#[trigger] pt2.translate(k))
                matches Some(pk) && mem2.live_set().contains(pk.0) && !pt2.node_set().contains(
                pk.0,
            )) by {
                assert(pt2.translate(k) == pt0.translate(k));
            }
        }
        pt.uvm_dealloc(mem, sz, 0);
        let ghost pt3 = pt;
        let ghost mem3 = *mem;
        proof {
            assert forall|q: u64|
                mem3.live_set().contains(q) <==> mem0.live_set().contains(q) && q != tfp
                    && !pt0.range_leaf(0, (sz as int + 4095) / 4096, q) by {
                assert(pt2.range_leaf(0, (sz as int + 4095) / 4096, q) <==> pt0.range_leaf(
                    0,
                    (sz as int + 4095) / 4096,
                    q,
                )) by {
                    if pt2.range_leaf(0, (sz as int + 4095) / 4096, q) {
                        let j = choose|j: int|
                            0 <= j < (sz as int + 4095) / 4096 && ((#[trigger] pt2.translate(0 + j))
                                matches Some(pf) && pf.0 == q);
                        assert(pt0.translate(0 + j) == pt2.translate(0 + j));
                        assert(pt0.range_leaf(0, (sz as int + 4095) / 4096, q));
                    }
                    if pt0.range_leaf(0, (sz as int + 4095) / 4096, q) {
                        let j = choose|j: int|
                            0 <= j < (sz as int + 4095) / 4096 && ((#[trigger] pt0.translate(0 + j))
                                matches Some(pf) && pf.0 == q);
                        assert(pt2.translate(0 + j) == pt0.translate(0 + j));
                        assert(pt2.range_leaf(0, (sz as int + 4095) / 4096, q));
                    }
                }
            }
            assert(pt3.node_set() == pt0.node_set());
        }
        pt.free_all_tables(mem);
        proof {
            assert forall|q: u64|
                mem.live_set().contains(q) <==> mem0.live_set().contains(q) && !(q == tfp
                    || pt0.range_leaf(0, (sz as int + 4095) / 4096, q) || pt0.node_set().contains(
                    q,
                )) by {
                assert(mem.live_set().contains(q) <==> mem3.live_set().contains(q)
                    && !pt3.node_set().contains(q));
                assert(pt3.node_set() == pt0.node_set());
                assert(mem3.live_set().contains(q) <==> mem0.live_set().contains(q) && q != tfp
                    && !pt0.range_leaf(0, (sz as int + 4095) / 4096, q));
            }
        }
    }
}


/// Reading back a range just written through the same table yields the
/// written bytes: when every byte of `[dst, dst + |data|)` reads as its
/// counterpart in `data`, the whole range reads as `data`.
pub proof fn lemma_copy_round_trip(pt: PageTable, mem: PhysMem, data: Seq<u8>, dst: int)
    requires
        forall|j: int|
            0 <= j < data.len() ==> (#[trigger] pt.mem_byte(mem, dst + j)) == Some(data[j]),
    ensures
        pt.read_bytes(mem, dst, data.len() as int) == Some(data),
{
    assert(forall|j: int|
        0 <= j < data.len() ==> (#[trigger] pt.mem_byte(mem, dst + j)) is Some);
    let r = Seq::new(data.len(), |j: int| pt.mem_byte(mem, dst + j)->Some_0);
    assert(r =~= data);
}

/// Mapping caller-owned frames and then unmapping them with freeing is in
/// balance: every one of those frames leaves the live set, and what
/// remains live is what was live before, less those frames, plus the
/// table frames the mapping had to build.
pub proof fn lemma_map_unmap_balance(
    live0: Set<u64>,
    live1: Set<u64>,
    live2: Set<u64>,
    fresh_nodes: Set<u64>,
    leaves: Set<u64>,
)
    requires
        forall|q: u64|
            #[trigger] live1.contains(q) <==> live0.contains(q) || fresh_nodes.contains(q),
        fresh_nodes.disjoint(live0),
        leaves.subset_of(live0),
        leaves.disjoint(fresh_nodes),
        forall|q: u64| #[trigger] live2.contains(q) <==> live1.contains(q) && !leaves.contains(q),
    ensures
        live2 == live0.difference(leaves).union(fresh_nodes),
        live2.disjoint(leaves),
        forall|q: u64| #[trigger] leaves.contains(q) ==> !live2.contains(q) && live0.contains(q),
{
    assert(live2 =~= live0.difference(leaves).union(fresh_nodes));
}

/// After an address space has been copied, the copy is carried by frames
/// of its own: writing through the copy touches none of the frames behind
/// the source, so reads through the source do not change.
pub proof fn lemma_copy_isolation(
    src: PageTable,
    dst: PageTable,
    m1: PhysMem,
    m2: PhysMem,
    n: int,
    va: int,
)
    requires
        forall|k: int|
            0 <= k < n ==> (#[trigger] src.translate(k)) is Some && m1.managed(
                src.translate(k)->Some_0.0,
            ),
        forall|k: int, j: int|
            0 <= k < n && 0 <= j < n ==> (#[trigger] src.translate(k))->Some_0.0 != (
            #[trigger] dst.translate(j))->Some_0.0,
        forall|k: int| 0 <= k < n ==> (#[trigger] dst.translate(k)) is Some,
        m2.frames_unchanged_except(m1, dst.backing_set(0, n * 4096)),
        m2.allocator.start == m1.allocator.start,
        m2.allocator.end == m1.allocator.end,
        0 <= va < n * 4096,
    ensures
        src.mem_byte(m2, va) == src.mem_byte(m1, va),
{
    assert(0 <= va / 4096 < n) by (nonlinear_arith)
        requires
            0 <= va < n * 4096,
    ;
    let p = src.translate(va / 4096)->Some_0.0;
    assert(src.translate(va / 4096) is Some);
    assert(!dst.backing_set(0, n * 4096).contains(p)) by {
        if dst.backing_set(0, n * 4096).contains(p) {
            let j = choose|j: int|
                0 <= j < n * 4096 && ((#[trigger] dst.translate((0 + j) / 4096)) matches Some(pf)
                    && pf.0 == p);
            assert(0 <= j / 4096 < n) by (nonlinear_arith)
                requires
                    0 <= j < n * 4096,
            ;
            assert(dst.translate(j / 4096)->Some_0.0 == p);
            assert(src.translate(va / 4096)->Some_0.0 != dst.translate(j / 4096)->Some_0.0);
        }
    }
    assert(m2.frame(p) == m1.frame(p));
}

/// Building a process address space and tearing it down leaks nothing:
/// the trapframe frame, the user frames, and every table frame the
/// skeleton and the growth allocated go back, so the live set returns to
/// what it was before the trapframe frame was taken.
pub proof fn lemma_space_teardown_balance(
    live_a: Set<u64>,
    live_b: Set<u64>,
    live_c: Set<u64>,
    live_d: Set<u64>,
    live_e: Set<u64>,
    tf: u64,
    skel_nodes: Set<u64>,
    grown_nodes: Set<u64>,
    user_leaves: Set<u64>,
)
    requires
        !live_a.contains(tf),
        forall|q: u64| #[trigger] live_b.contains(q) <==> live_a.contains(q) || q == tf,
        forall|q: u64|
            #[trigger] live_c.contains(q) <==> live_b.contains(q) || skel_nodes.contains(q),
        skel_nodes.disjoint(live_b),
        forall|q: u64|
            #[trigger] live_d.contains(q) <==> live_c.contains(q) || grown_nodes.contains(q)
                || user_leaves.contains(q),
        grown_nodes.disjoint(live_c),
        user_leaves.disjoint(live_c),
        forall|q: u64|
            #[trigger] live_e.contains(q) <==> live_d.contains(q) && !(q == tf
                || user_leaves.contains(q) || skel_nodes.contains(q) || grown_nodes.contains(q)),
    ensures
        live_e == live_a,
{
    assert forall|q: u64| live_e.contains(q) <==> live_a.contains(q) by {
        if live_a.contains(q) {
            assert(live_b.contains(q));
            assert(live_c.contains(q));
            assert(live_d.contains(q));
            assert(q != tf);
            assert(!skel_nodes.contains(q));
            assert(!grown_nodes.contains(q));
            assert(!user_leaves.contains(q));
        }
    }
    assert(live_e =~= live_a);
}


/// One step of a map/unmap workload on some virtual page.
#[derive(Clone, Copy, PartialEq, Eq, Structural, Debug)]
pub enum MapOp {
    /// The page was mapped to the frame with the flags.
    Install(u64, u64, PteFlags),
    /// The page was unmapped.
    Clear(u64),
}

/// What the last operation touching `vpn` left there: nothing when no
/// operation touched it, otherwise the reading it installed.
pub open spec fn last_effect(ops: Seq<MapOp>, vpn: u64) -> Option<Option<(u64, PteFlags)>>
    decreases ops.len(),
{
    if ops.len() == 0 {
        None
    } else {
        match ops.last() {
            MapOp::Install(v, p, f) => if v == vpn {
                Some(Some((p, f)))
            } else {
                last_effect(ops.drop_last(), vpn)
            },
            MapOp::Clear(v) => if v == vpn {
                Some(None)
            } else {
                last_effect(ops.drop_last(), vpn)
            },
        }
    }
}

/// The table states `pts` arise from the workload `ops`: each map
/// operation installs its reading at its page and changes no other page,
/// each unmap clears its page and changes no other page.
pub open spec fn runs(pts: Seq<PageTable>, ops: Seq<MapOp>) -> bool {
    &&& pts.len() == ops.len() + 1
    &&& forall|k: int|
        0 <= k < ops.len() ==> match #[trigger] ops[k] {
            MapOp::Install(v, p, f) => pts[k + 1].translate(v as int) == Some((p, f)) && forall|
                w: int,
            |
                w != v ==> #[trigger] pts[k + 1].translate(w) == pts[k].translate(w),
            MapOp::Clear(v) => pts[k + 1].translate(v as int) is None && forall|w: int|
                w != v ==> #[trigger] pts[k + 1].translate(w) == pts[k].translate(w),
        }
}

/// The most recent mapping wins: after any workload of map and unmap
/// operations, a page reads as whatever the last operation touching it
/// installed, and an untouched page reads as it did at the start.
pub proof fn lemma_last_mapping_wins(pts: Seq<PageTable>, ops: Seq<MapOp>, vpn: u64)
    requires
        runs(pts, ops),
    ensures
        match last_effect(ops, vpn) {
            Some(reading) => pts.last().translate(vpn as int) == reading,
            None => pts.last().translate(vpn as int) == pts[0].translate(vpn as int),
        },
    decreases ops.len(),
{
    if ops.len() > 0 {
        let k = ops.len() - 1;
        assert(runs(pts.drop_last(), ops.drop_last())) by {
            assert(pts.drop_last().len() == ops.drop_last().len() + 1);
            assert forall|j: int| 0 <= j < ops.drop_last().len() implies match #[trigger] ops.drop_last()[j] {
                MapOp::Install(v, p, f) => pts.drop_last()[j + 1].translate(v as int) == Some((p, f))
                    && forall|w: int|
                    w != v ==> #[trigger] pts.drop_last()[j + 1].translate(w)
                        == pts.drop_last()[j].translate(w),
                MapOp::Clear(v) => pts.drop_last()[j + 1].translate(v as int) is None && forall|
                    w: int,
                |
                    w != v ==> #[trigger] pts.drop_last()[j + 1].translate(w)
                        == pts.drop_last()[j].translate(w),
            } by {
                assert(ops.drop_last()[j] == ops[j]);
                assert(pts.drop_last()[j + 1] == pts[j + 1]);
                assert(pts.drop_last()[j] == pts[j]);
                match ops[j] {
                    MapOp::Install(v, p, f) => {
                        assert(forall|w: int|
                            w != v ==> #[trigger] pts[j + 1].translate(w) == pts[j].translate(w));
                    },
                    MapOp::Clear(v) => {
                        assert(forall|w: int|
                            w != v ==> #[trigger] pts[j + 1].translate(w) == pts[j].translate(w));
                    },
                }
            }
        }
        lemma_last_mapping_wins(pts.drop_last(), ops.drop_last(), vpn);
        assert(pts.drop_last().last() == pts[k as int]);
        match ops[k as int] {
            MapOp::Install(v, p, f) => {
                if v != vpn {
                    assert(pts[k as int + 1].translate(vpn as int) == pts[k as int].translate(
                        vpn as int,
                    ));
                }
            },
            MapOp::Clear(v) => {
                if v != vpn {
                    assert(pts[k as int + 1].translate(vpn as int) == pts[k as int].translate(
                        vpn as int,
                    ));
                }
            },
        }
        assert(pts.last() == pts[k as int + 1]);
        assert(ops.last() == ops[k as int]);
    }
}

/// Builds 512 invalid entries.
fn empty_entries() -> (r: Vec<PageTableEntry>)
    ensures
        r@.len() == 512,
        forall|i: int| 0 <= i < 512 ==> r@[i] == PageTableEntry::Invalid,
{
    let mut v: Vec<PageTableEntry> = Vec::new();
    let mut i: usize = 0;
    while i < 512
        invariant
            i <= 512,
            v@.len() == i,
            forall|j: int| 0 <= j < i ==> v@[j] == PageTableEntry::Invalid,
        decreases 512 - i,
    {
        v.push(PageTableEntry::Invalid);
        i = i + 1;
    }
    v
}

} // verus!

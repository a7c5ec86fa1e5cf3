//! Physical and virtual addresses of the Sv39 scheme: page rounding,
//! alignment queries, page numbers, and the split of a virtual page number
//! into its three 9-bit index fields.

use vstd::prelude::*;

use crate::params::{MAXVA, PHYSTOP};

verus! {

/// Rounds `a` down to a page boundary.
pub open spec fn spec_round_down(a: int) -> int {
    (a / 4096) * 4096
}

/// Rounds `a` up to a page boundary.
pub open spec fn spec_round_up(a: int) -> int {
    ((a + 4095) / 4096) * 4096
}

/// Common interface of the two address kinds: the raw machine word,
/// page rounding, and stepping by one page.
pub trait Addr: Sized {
    /// The raw machine word held by the address.
    spec fn addr_val(&self) -> u64;

    /// Hands the raw machine word out.
    fn as_raw(&self) -> (r: u64)
        ensures
            r == self.addr_val(),
    ;

    /// Rounds the address up to a page boundary.
    fn pg_round_up(&mut self)
        requires
            old(self).addr_val() + 4095 <= u64::MAX,
        ensures
            final(self).addr_val() == spec_round_up(old(self).addr_val() as int),
    ;

    /// Rounds the address down to a page boundary.
    fn pg_round_down(&mut self)
        ensures
            final(self).addr_val() == spec_round_down(old(self).addr_val() as int),
    ;

    /// Moves the address one page up.
    fn add_page(&mut self)
        requires
            old(self).addr_val() + 4096 <= u64::MAX,
        ensures
            final(self).addr_val() == old(self).addr_val() + 4096,
    ;
}

/// A 56-bit physical address.
#[derive(Clone, Copy, PartialEq, Eq, Structural, Debug)]
pub struct PhysAddr(pub u64);

/// A 39-bit virtual address, kept one bit below the Sv39 maximum so that
/// valid addresses never sign-extend.
#[derive(Clone, Copy, PartialEq, Eq, Structural, Debug)]
pub struct VirtAddr(pub u64);

/// The number of a physical page.
#[derive(Clone, Copy, PartialEq, Eq, Structural, Debug)]
pub struct PhysPageNum(pub u64);

/// The number of a virtual page.
#[derive(Clone, Copy, PartialEq, Eq, Structural, Debug)]
pub struct VirtPageNum(pub u64);

impl PhysAddr {
    /// Wraps a raw machine word as a physical address.
    pub fn from_raw(raw: u64) -> (r: Self)
        ensures
            r.0 == raw,
    {
        PhysAddr(raw)
    }

    /// Hands the raw machine word back.
    pub fn into_raw(self) -> (r: u64)
        ensures
            r == self.0,
    {
        self.0
    }

    /// Checks that a raw word is page-aligned and inside physical RAM
    /// before wrapping it.
    pub fn try_from(raw: u64) -> (r: Result<Self, &'static str>)
        ensures
            raw % 4096 == 0 && raw <= PHYSTOP <==> r == Ok::<Self, &'static str>(PhysAddr(raw)),
            r is Err <==> raw % 4096 != 0 || raw > PHYSTOP,
    {
        if raw % 4096 != 0 {
            Err("physical address not page-aligned")
        } else if raw > PHYSTOP {
            Err("physical address beyond the top of RAM")
        } else {
            Ok(PhysAddr(raw))
        }
    }

    /// The page this address lies on.
    pub fn floor(&self) -> (r: PhysPageNum)
        ensures
            r.0 == self.0 / 4096,
    {
        PhysPageNum(self.0 / 4096)
    }

    /// The first page boundary at or above this address, as a page number.
    pub fn ceil(&self) -> (r: PhysPageNum)
        requires
            self.0 + 4095 <= u64::MAX,
        ensures
            r.0 == (self.0 + 4095) / 4096,
    {
        if self.0 == 0 {
            PhysPageNum(0)
        } else {
            PhysPageNum((self.0 - 1 + 4096) / 4096)
        }
    }

    /// The offset of this address inside its page.
    pub fn page_offset(&self) -> (r: u64)
        ensures
            r == self.0 % 4096,
    {
        self.0 % 4096
    }

    /// Whether this address sits exactly on a page boundary.
    pub fn aligned(&self) -> (r: bool)
        ensures
            r == (self.0 % 4096 == 0),
    {
        self.0 % 4096 == 0
    }
}

impl Addr for PhysAddr {
    open spec fn addr_val(&self) -> u64 {
        self.0
    }

    fn as_raw(&self) -> (r: u64) {
        self.0
    }

    fn pg_round_up(&mut self) {
        self.0 = ((self.0 + 4095) / 4096) * 4096;
    }

    fn pg_round_down(&mut self) {
        self.0 = (self.0 / 4096) * 4096;
    }

    fn add_page(&mut self) {
        self.0 = self.0 + 4096;
    }
}

impl VirtAddr {
    /// Wraps a raw machine word as a virtual address.
    pub fn from_raw(raw: u64) -> (r: Self)
        ensures
            r.0 == raw,
    {
        VirtAddr(raw)
    }

    /// Hands the raw machine word back.
    pub fn into_raw(self) -> (r: u64)
        ensures
            r == self.0,
    {
        self.0
    }

    /// Checks that a raw word lies below `MAXVA` before wrapping it.
    pub fn try_from(raw: u64) -> (r: Result<Self, &'static str>)
        ensures
            raw <= MAXVA <==> r == Ok::<Self, &'static str>(VirtAddr(raw)),
            r is Err <==> raw > MAXVA,
    {
        if raw > MAXVA {
            Err("virtual address above the top of the user range")
        } else {
            Ok(VirtAddr(raw))
        }
    }

    /// The virtual page number field of the given level: bits
    /// `[12 + 9 * level, 12 + 9 * (level + 1))` of the address.
    pub fn page_num(&self, level: usize) -> (r: u64)
        requires
            level <= 2,
        ensures
            level == 0 ==> r == (self.0 / 0x1000) % 512,
            level == 1 ==> r == (self.0 / 0x200000) % 512,
            level == 2 ==> r == (self.0 / 0x40000000) % 512,
    {
        let divisor: u64 = if level == 0 {
            0x1000
        } else if level == 1 {
            0x200000
        } else {
            0x40000000
        };
        (self.0 / divisor) % 512
    }

    /// The page this address lies on.
    pub fn floor(&self) -> (r: VirtPageNum)
        ensures
            r.0 == self.0 / 4096,
    {
        VirtPageNum(self.0 / 4096)
    }

    /// The first page boundary at or above this address, as a page number.
    pub fn ceil(&self) -> (r: VirtPageNum)
        requires
            self.0 + 4095 <= u64::MAX,
        ensures
            r.0 == (self.0 + 4095) / 4096,
    {
        if self.0 == 0 {
            VirtPageNum(0)
        } else {
            VirtPageNum((self.0 - 1 + 4096) / 4096)
        }
    }

    /// The offset of this address inside its page.
    pub fn page_offset(&self) -> (r: u64)
        ensures
            r == self.0 % 4096,
    {
        self.0 % 4096
    }

    /// Whether this address sits exactly on a page boundary.
    pub fn aligned(&self) -> (r: bool)
        ensures
            r == (self.0 % 4096 == 0),
    {
        self.0 % 4096 == 0
    }

    /// The address as a full 64-bit machine word: virtual addresses in the
    /// upper half of the 39-bit range sign-extend.
    pub fn to_machine_word(&self) -> (r: u64)
        ensures
            self.0 < 0x4000000000 ==> r == self.0,
            self.0 >= 0x4000000000 ==> r == self.0 | 0xFFFFFF8000000000u64,
    {
        if self.0 >= 0x4000000000 {
            self.0 | 0xFFFFFF8000000000u64
        } else {
            self.0
        }
    }
}

impl Addr for VirtAddr {
    open spec fn addr_val(&self) -> u64 {
        self.0
    }

    fn as_raw(&self) -> (r: u64) {
        self.0
    }

    fn pg_round_up(&mut self) {
        self.0 = ((self.0 + 4095) / 4096) * 4096;
    }

    fn pg_round_down(&mut self) {
        self.0 = (self.0 / 4096) * 4096;
    }

    fn add_page(&mut self) {
        self.0 = self.0 + 4096;
    }
}

impl VirtPageNum {
    /// Splits the virtual page number into its three 9-bit fields,
    /// highest level first, as the three-level walk consumes them.
    pub fn indexes(&self) -> (r: (usize, usize, usize))
        ensures
            r.0 == (self.0 / 0x40000) % 512,
            r.1 == (self.0 / 0x200) % 512,
            r.2 == self.0 % 512,
            r.0 < 512 && r.1 < 512 && r.2 < 512,
    {
        let i2: u64 = (self.0 / 0x40000) % 512;
        let i1: u64 = (self.0 / 0x200) % 512;
        let i0: u64 = self.0 % 512;
        (i2 as usize, i1 as usize, i0 as usize)
    }

    /// The first address of this page.
    pub fn addr(&self) -> (r: VirtAddr)
        requires
            self.0 * 4096 <= u64::MAX,
        ensures
            r.0 == self.0 * 4096,
    {
        VirtAddr(self.0 * 4096)
    }
}

impl PhysPageNum {
    /// The first address of this page.
    pub fn addr(&self) -> (r: PhysAddr)
        requires
            self.0 * 4096 <= u64::MAX,
        ensures
            r.0 == self.0 * 4096,
    {
        PhysAddr(self.0 * 4096)
    }
}

/// Stepping a page number to its successor, shared by the two kinds of
/// page number so that page ranges can walk either.
pub trait StepByOne: Sized {
    /// The raw value held by the item.
    spec fn step_val(&self) -> u64;

    /// Moves to the next value.
    fn step(&mut self)
        requires
            old(self).step_val() < u64::MAX,
        ensures
            final(self).step_val() == old(self).step_val() + 1,
    ;

    /// Whether two items hold the same value.
    fn same(&self, other: &Self) -> (r: bool)
        ensures
            r == (self.step_val() == other.step_val()),
    ;
}

impl StepByOne for VirtPageNum {
    open spec fn step_val(&self) -> u64 {
        self.0
    }

    fn step(&mut self) {
        self.0 = self.0 + 1;
    }

    fn same(&self, other: &Self) -> (r: bool) {
        self.0 == other.0
    }
}

impl StepByOne for PhysPageNum {
    open spec fn step_val(&self) -> u64 {
        self.0
    }

    fn step(&mut self) {
        self.0 = self.0 + 1;
    }

    fn same(&self, other: &Self) -> (r: bool) {
        self.0 == other.0
    }
}

/// A half-open range `[l, r)` of page numbers.
#[derive(Clone, Copy)]
pub struct SimpleRange<T: StepByOne + Copy> {
    pub l: T,
    pub r: T,
}

impl<T: StepByOne + Copy> SimpleRange<T> {
    /// Builds the range; the start may not lie above the end.
    pub fn new(start: T, end: T) -> (rng: Self)
        requires
            start.step_val() <= end.step_val(),
        ensures
            rng.l == start,
            rng.r == end,
    {
        SimpleRange { l: start, r: end }
    }

    /// The first item of the range.
    pub fn get_start(&self) -> (r: T)
        ensures
            r == self.l,
    {
        self.l
    }

    /// The item one beyond the last of the range.
    pub fn get_end(&self) -> (r: T)
        ensures
            r == self.r,
    {
        self.r
    }

    /// An iterator over the range.
    pub fn iter(&self) -> (it: SimpleRangeIterator<T>)
        ensures
            it.current == self.l,
            it.end == self.r,
    {
        SimpleRangeIterator { current: self.l, end: self.r }
    }
}

/// Walks a [`SimpleRange`] from its start to its end.
pub struct SimpleRangeIterator<T: StepByOne + Copy> {
    pub current: T,
    pub end: T,
}

impl<T: StepByOne + Copy> SimpleRangeIterator<T> {
    /// Builds an iterator that walks `[l, r)`.
    pub fn new(l: T, r: T) -> (it: Self)
        ensures
            it.current == l,
            it.end == r,
    {
        SimpleRangeIterator { current: l, end: r }
    }

    /// Hands the next item out, or nothing once the end is reached.
    pub fn next(&mut self) -> (r: Option<T>)
        requires
            old(self).current.step_val() <= old(self).end.step_val(),
        ensures
            old(self).current.step_val() == old(self).end.step_val() ==> r is None
                && *final(self) == *old(self),
            old(self).current.step_val() < old(self).end.step_val() ==> r == Some(
                old(self).current,
            ) && final(self).current.step_val() == old(self).current.step_val() + 1
                && final(self).end == old(self).end,
    {
        if self.current.same(&self.end) {
            None
        } else {
            let t = self.current;
            self.current.step();
            Some(t)
        }
    }
}

} // verus!

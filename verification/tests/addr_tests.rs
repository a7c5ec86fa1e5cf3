//! Address arithmetic: rounding at page boundaries, index fields, and the
//! page-number ranges.

use rvcore::addr::{Addr, PhysAddr, SimpleRange, SimpleRangeIterator, StepByOne, VirtAddr, VirtPageNum};

#[test]
fn rounding_below_boundary() {
    // One byte below a page boundary rounds down to the previous page and
    // up to the boundary.
    let va = VirtAddr::from_raw(4095);
    assert_eq!(va.floor().0, 0);
    assert_eq!(va.ceil().0, 1);
    assert_eq!(va.page_offset(), 4095);
    assert!(!va.aligned());
}

#[test]
fn rounding_at_boundary() {
    // A page boundary is already aligned: floor and ceil agree.
    let va = VirtAddr::from_raw(4096);
    assert_eq!(va.floor().0, 1);
    assert_eq!(va.ceil().0, 1);
    assert_eq!(va.page_offset(), 0);
    assert!(va.aligned());
}

#[test]
fn rounding_zero() {
    let va = VirtAddr::from_raw(0);
    assert_eq!(va.floor().0, 0);
    assert_eq!(va.ceil().0, 0);
    assert!(va.aligned());
}

#[test]
fn mutating_round_trip() {
    let mut va = VirtAddr::from_raw(0x12345);
    va.pg_round_up();
    assert_eq!(va.as_raw(), 0x13000);
    let mut vb = VirtAddr::from_raw(0x12345);
    vb.pg_round_down();
    assert_eq!(vb.as_raw(), 0x12000);
    vb.add_page();
    assert_eq!(vb.as_raw(), 0x13000);
    let mut pa = PhysAddr::from_raw(0x80000001);
    pa.pg_round_up();
    assert_eq!(pa.as_raw(), 0x80001000);
}

#[test]
fn phys_addr_checks() {
    assert!(PhysAddr::try_from(0x80000000).is_ok());
    assert!(PhysAddr::try_from(0x80000001).is_err());
    assert!(PhysAddr::try_from(0x98000000).is_err());
    assert_eq!(PhysAddr::from_raw(0x80001000).into_raw(), 0x80001000);
    assert_eq!(PhysAddr::from_raw(0x80001000).floor().0, 0x80001);
    assert_eq!(PhysAddr::from_raw(0x80001001).ceil().0, 0x80002);
}

#[test]
fn virt_addr_checks() {
    assert!(VirtAddr::try_from(0x4000000000).is_ok());
    assert!(VirtAddr::try_from(0x4000000001).is_err());
    assert_eq!(VirtAddr::from_raw(0x2000).into_raw(), 0x2000);
}

#[test]
fn vpn_fields() {
    // 0x40201 = (1 << 18) | (1 << 9) | 1: one in each field.
    let vpn = VirtPageNum(0x40201);
    let (i2, i1, i0) = vpn.indexes();
    assert_eq!(i2, 1);
    assert_eq!(i1, 1);
    assert_eq!(i0, 1);
    let va = VirtAddr::from_raw(0x40201000);
    assert_eq!(va.page_num(0), 1);
    assert_eq!(va.page_num(1), 1);
    assert_eq!(va.page_num(2), 1);
}

#[test]
fn machine_word_sign_extension() {
    // Below the upper half the word is unchanged; in the upper half the
    // high bits extend.
    let low = VirtAddr::from_raw(0x1000);
    assert_eq!(low.to_machine_word(), 0x1000);
    let high = VirtAddr::from_raw(0x4000000000);
    assert_eq!(high.to_machine_word(), 0xFFFFFFC000000000);
}

#[test]
fn page_range_walks_in_order() {
    let range = SimpleRange::new(VirtPageNum(3), VirtPageNum(6));
    assert_eq!(range.get_start().0, 3);
    assert_eq!(range.get_end().0, 6);
    let mut it = range.iter();
    assert_eq!(it.next().unwrap().0, 3);
    assert_eq!(it.next().unwrap().0, 4);
    assert_eq!(it.next().unwrap().0, 5);
    assert!(it.next().is_none());
}

#[test]
fn empty_page_range() {
    let mut it = SimpleRangeIterator::new(VirtPageNum(7), VirtPageNum(7));
    assert!(it.next().is_none());
}

#[test]
fn step_by_one() {
    let mut p = VirtPageNum(9);
    p.step();
    assert_eq!(p.0, 10);
    assert!(p.same(&VirtPageNum(10)));
    assert!(!p.same(&VirtPageNum(11)));
}

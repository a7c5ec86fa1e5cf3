//! The frame allocator and the page-table engine: conservation of frames,
//! mapping and walking, the byte copies, and address-space build-up and
//! teardown.

use rvcore::addr::{PhysAddr, PhysPageNum, VirtAddr};
use rvcore::frames::{PageTracker, PhysMem, StackPageAllocator};
use rvcore::pagetable::{PageTable, PteFlags};

fn small_mem(nframes: u64) -> PhysMem {
    PhysMem::init(PhysPageNum(0x80000), PhysPageNum(0x80000 + nframes))
}

#[test]
fn allocator_reuses_returned_frames_lifo() {
    let mut a = StackPageAllocator::new();
    a.init(PhysPageNum(16), PhysPageNum(20));
    let p0 = a.alloc_page().unwrap();
    let p1 = a.alloc_page().unwrap();
    assert_eq!(p0.0, 16);
    assert_eq!(p1.0, 17);
    a.dealloc_page(p0);
    // The most recently returned frame is handed out first.
    let p2 = a.alloc_page().unwrap();
    assert_eq!(p2.0, 16);
}

#[test]
fn allocator_exhaustion() {
    let mut a = StackPageAllocator::new();
    a.init(PhysPageNum(16), PhysPageNum(18));
    assert!(a.alloc_page().is_some());
    assert!(a.alloc_page().is_some());
    assert!(a.alloc_page().is_none());
}

#[test]
fn allocator_balance_over_a_workload() {
    // Issued minus returned frames stay live: after returning everything,
    // the full range can be handed out again.
    let mut a = StackPageAllocator::new();
    a.init(PhysPageNum(0), PhysPageNum(4));
    let p0 = a.alloc_page().unwrap();
    let p1 = a.alloc_page().unwrap();
    let p2 = a.alloc_page().unwrap();
    a.dealloc_page(p1);
    a.dealloc_page(p0);
    a.dealloc_page(p2);
    let mut count = 0;
    while a.alloc_page().is_some() {
        count += 1;
    }
    assert_eq!(count, 4);
}

#[test]
fn page_alloc_zeroes() {
    let mut mem = small_mem(4);
    let pa = mem.page_alloc().unwrap();
    let ppn = pa.0 / 4096;
    mem.write_byte(ppn, 7, 0xAB);
    assert_eq!(mem.read_byte(ppn, 7), 0xAB);
    mem.page_dealloc(pa);
    // Handing the frame out again zeroes it.
    let pb = mem.page_alloc().unwrap();
    assert_eq!(pb.0, pa.0);
    assert_eq!(mem.read_byte(ppn, 7), 0);
}

#[test]
fn page_tracker_zeroes() {
    let mut mem = small_mem(2);
    let pa = mem.page_alloc().unwrap();
    let ppn = pa.0 / 4096;
    mem.write_byte(ppn, 100, 42);
    let t = PageTracker::new(&mut mem, PhysPageNum(ppn));
    assert_eq!(t.ppn.0, ppn);
    assert_eq!(mem.read_byte(ppn, 100), 0);
}

#[test]
fn copy_frame_copies() {
    let mut mem = small_mem(4);
    let a = mem.page_alloc().unwrap().0 / 4096;
    let b = mem.page_alloc().unwrap().0 / 4096;
    mem.write_byte(a, 0, 1);
    mem.write_byte(a, 4095, 2);
    mem.copy_frame(a, b);
    assert_eq!(mem.read_byte(b, 0), 1);
    assert_eq!(mem.read_byte(b, 4095), 2);
}

#[test]
fn walk_returns_most_recent_mapping() {
    // Mapping the same page, unmapping it and mapping it again: the walk
    // always reads the most recently installed frame, or nothing.
    let mut mem = small_mem(16);
    let mut pt = PageTable::new_root(&mut mem).unwrap();
    let va = VirtAddr(0x5000);
    assert!(pt.walk(va).is_none());
    pt.map_pages(&mut mem, va, 4096, PhysAddr(0x81000000), PteFlags::new(true, true, false, true))
        .unwrap();
    let (p1, f1) = pt.walk(va).unwrap();
    assert_eq!(p1, 0x81000);
    assert!(f1.r && f1.w && !f1.x && f1.u);
    pt.unmap_pages(&mut mem, va, 1, false);
    assert!(pt.walk(va).is_none());
    pt.map_pages(&mut mem, va, 4096, PhysAddr(0x82000000), PteFlags::new(true, false, false, true))
        .unwrap();
    let (p2, _) = pt.walk(va).unwrap();
    assert_eq!(p2, 0x82000);
}

#[test]
fn map_pages_size_zero_is_a_no_op() {
    let mut mem = small_mem(8);
    let mut pt = PageTable::new_root(&mut mem).unwrap();
    pt.map_pages(&mut mem, VirtAddr(0x3000), 0, PhysAddr(0x81000000), PteFlags::new(true, false, false, false))
        .unwrap();
    assert!(pt.walk(VirtAddr(0x3000)).is_none());
}

#[test]
fn map_then_unmap_returns_issued_frames() {
    // The frames freed by the unmap can all be handed out again.
    let mut mem = small_mem(8);
    let mut pt = PageTable::new_root(&mut mem).unwrap();
    let leaf_a = mem.page_alloc().unwrap();
    let leaf_b = mem.page_alloc().unwrap();
    assert_eq!(leaf_b.0, leaf_a.0 + 4096);
    pt.map_pages(&mut mem, VirtAddr(0x8000), 2 * 4096, leaf_a, PteFlags::new(true, true, false, true))
        .unwrap();
    pt.unmap_pages(&mut mem, VirtAddr(0x8000), 2, true);
    // Both leaf frames are free again; the most recently freed comes first.
    let r1 = mem.page_alloc().unwrap();
    let r2 = mem.page_alloc().unwrap();
    assert_eq!(r1.0, leaf_b.0);
    assert_eq!(r2.0, leaf_a.0);
}

#[test]
fn uvm_alloc_maps_zeroed_pages() {
    let mut mem = small_mem(16);
    let mut pt = PageTable::new_root(&mut mem).unwrap();
    pt.uvm_alloc(&mut mem, 0, 2 * 4096).unwrap();
    let (p, f) = pt.walk(VirtAddr(0)).unwrap();
    assert!(f.r && f.w && f.x && f.u);
    assert_eq!(mem.read_byte(p, 0), 0);
    assert_eq!(mem.read_byte(p, 4095), 0);
    assert!(pt.walk(VirtAddr(0x1000)).is_some());
    assert!(pt.walk(VirtAddr(0x2000)).is_none());
}

#[test]
fn copy_out_then_copy_in_round_trip() {
    let mut mem = small_mem(16);
    let mut pt = PageTable::new_root(&mut mem).unwrap();
    pt.uvm_alloc(&mut mem, 0, 2 * 4096).unwrap();
    // A range crossing the page boundary.
    let data: Vec<u8> = vec![10, 20, 30, 40, 50, 60];
    pt.copy_out(&mut mem, &data, 4093).unwrap();
    let back = pt.copy_in(&mem, 4093, 6).unwrap();
    assert_eq!(back, data);
}

#[test]
fn copy_out_refuses_unmapped_range() {
    let mut mem = small_mem(16);
    let mut pt = PageTable::new_root(&mut mem).unwrap();
    pt.uvm_alloc(&mut mem, 0, 4096).unwrap();
    let data: Vec<u8> = vec![1, 2, 3];
    // The tail of the range falls off the mapped page.
    assert!(pt.copy_out(&mut mem, &data, 4095).is_err());
    assert!(pt.copy_in(&mem, 4095, 3).is_err());
}

#[test]
fn copy_in_str_stops_at_nul() {
    let mut mem = small_mem(16);
    let mut pt = PageTable::new_root(&mut mem).unwrap();
    pt.uvm_alloc(&mut mem, 0, 4096).unwrap();
    let data: Vec<u8> = vec![b'i', b'n', b'i', b't', 0, b'x'];
    pt.copy_out(&mut mem, &data, 64).unwrap();
    let s = pt.copy_in_str(&mem, 64, 32).unwrap();
    assert_eq!(s, b"init".to_vec());
    // Without a terminator inside the bound the read fails.
    assert!(pt.copy_in_str(&mem, 64, 4).is_err());
}

#[test]
fn uvm_init_loads_code() {
    let mut mem = small_mem(16);
    let mut pt = PageTable::new_root(&mut mem).unwrap();
    let code: Vec<u8> = vec![0x13, 0x05, 0x05, 0x02];
    pt.uvm_init(&mut mem, &code).unwrap();
    let back = pt.copy_in(&mem, 0, 4).unwrap();
    assert_eq!(back, code);
    // The rest of the page reads as zeroes.
    let tail = pt.copy_in(&mem, 4, 4).unwrap();
    assert_eq!(tail, vec![0, 0, 0, 0]);
}

#[test]
fn uvm_copy_duplicates_and_isolates() {
    let mut mem = small_mem(32);
    let mut src = PageTable::new_root(&mut mem).unwrap();
    src.uvm_alloc(&mut mem, 0, 2 * 4096).unwrap();
    let data: Vec<u8> = vec![7, 8, 9];
    src.copy_out(&mut mem, &data, 100).unwrap();
    let mut dst = PageTable::new_root(&mut mem).unwrap();
    src.uvm_copy(&mut dst, &mut mem, 2 * 4096).unwrap();
    // Every copied byte reads the same through both tables.
    assert_eq!(dst.copy_in(&mem, 100, 3).unwrap(), data);
    assert_eq!(src.copy_in(&mem, 100, 3).unwrap(), data);
    // Writes through one side do not reach the other.
    let patch: Vec<u8> = vec![99];
    src.copy_out(&mut mem, &patch, 100).unwrap();
    assert_eq!(src.copy_in(&mem, 100, 1).unwrap(), vec![99]);
    assert_eq!(dst.copy_in(&mem, 100, 1).unwrap(), vec![7]);
    let patch2: Vec<u8> = vec![55];
    dst.copy_out(&mut mem, &patch2, 101).unwrap();
    assert_eq!(src.copy_in(&mem, 101, 1).unwrap(), vec![8]);
}

#[test]
fn uvm_dealloc_shrinks() {
    let mut mem = small_mem(16);
    let mut pt = PageTable::new_root(&mut mem).unwrap();
    pt.uvm_alloc(&mut mem, 0, 3 * 4096).unwrap();
    pt.uvm_dealloc(&mut mem, 3 * 4096, 4096);
    assert!(pt.walk(VirtAddr(0)).is_some());
    assert!(pt.walk(VirtAddr(0x1000)).is_none());
    assert!(pt.walk(VirtAddr(0x2000)).is_none());
}

#[test]
fn proc_pagetable_round_trip_leaks_nothing() {
    // Building a process address space, growing it, and tearing it down
    // hands every frame back: the whole pool can be allocated afterwards.
    let nframes = 24;
    let mut mem = small_mem(nframes);
    let trampoline = PhysAddr(0x86000000);
    let tf_frame = mem.page_alloc().unwrap();
    let tf_va = VirtAddr(rvcore::task::trapframe_from_tid(0));
    let mut pt =
        PageTable::alloc_proc_pagetable(&mut mem, trampoline, tf_frame, tf_va).unwrap();
    assert!(pt.walk(VirtAddr(0x3FFFFFF000)).is_some());
    assert!(pt.walk(tf_va).is_some());
    let sz = 2 * 4096;
    pt.uvm_alloc(&mut mem, 0, sz).unwrap();
    pt.dealloc_proc_pagetable(&mut mem, sz, tf_va);
    let mut count = 0;
    while mem.page_alloc().is_some() {
        count += 1;
    }
    assert_eq!(count, nframes);
}

use rcore_os::mm::{
    ceil, floor, map_permission_from_port, virt_addr, MemorySet, HEAP_PERM, MAP_PERM_R, MAP_PERM_U,
    MAP_PERM_W, MAP_PERM_X,
};
use rcore_os::trap_context::{TrapContext, SSTATUS_SPP};

#[test]
fn virtual_addresses_keep_39_bits() {
    assert_eq!(virt_addr(0x1234), 0x1234);
    assert_eq!(virt_addr(0x80_0000_1000), 0x1000);
    assert_eq!(virt_addr(u64::MAX), 0x7f_ffff_ffff);
}

#[test]
fn page_numbers_round_down_and_up() {
    assert_eq!(floor(0), 0);
    assert_eq!(floor(0x1fff), 1);
    assert_eq!(ceil(0), 0);
    assert_eq!(ceil(1), 1);
    assert_eq!(ceil(0x1000), 1);
    assert_eq!(ceil(0x1001), 2);
}

#[test]
fn permission_from_port() {
    assert_eq!(map_permission_from_port(1), MAP_PERM_R | MAP_PERM_U);
    assert_eq!(map_permission_from_port(2), MAP_PERM_W | MAP_PERM_U);
    assert_eq!(map_permission_from_port(4), MAP_PERM_X | MAP_PERM_U);
    assert_eq!(map_permission_from_port(7), 0x1e);
}

#[test]
fn memory_set_maps_and_unmaps() {
    let mut ms = MemorySet::new_bare();
    assert_eq!(ms.translate(3), None);
    ms.map_page(3, 0x12);
    assert_eq!(ms.translate(3), Some(0x12));
    let copy = MemorySet::from_existed_user(&ms);
    ms.unmap_page(3);
    assert_eq!(ms.translate(3), None);
    assert_eq!(copy.translate(3), Some(0x12));
    let mut other = MemorySet::from_existed_user(&copy);
    other.recycle_data_pages();
    assert_eq!(other.translate(3), None);
}

#[test]
fn trap_context_of_a_new_application() {
    let cx = TrapContext::app_init_context(0x1000, 0x7000, 5, 6, 7, 0x8000_0000_0000_0122);
    // SPP cleared, the other bits kept
    assert_eq!(cx.sstatus & SSTATUS_SPP, 0);
    assert_eq!(cx.sstatus, 0x8000_0000_0000_0022);
    assert_eq!(cx.sepc, 0x1000);
    assert_eq!(cx.x[2], 0x7000);
    assert!(cx.x.iter().enumerate().all(|(i, r)| i == 2 || *r == 0));
    assert_eq!((cx.kernel_satp, cx.kernel_sp, cx.trap_handler), (5, 6, 7));
    let cx2 = TrapContext::app_init_context(0, 0, 0, 0, 0, 0x100);
    assert_eq!(cx2.sstatus, 0);
    // bits outside the fields the riscv crate names stay as the hart has them
    let cx3 = TrapContext::app_init_context(0, 0, 0, 0, 0, 0x180_0122);
    assert_eq!(cx3.sstatus, 0x180_0022);
}

#[test]
fn heap_area_grows_and_shrinks() {
    let mut ms = MemorySet::new_bare();
    assert_eq!(ms.heap_area(), None);
    assert!(!ms.append_to(0x10000, 0x12000));
    ms.insert_heap_area(0x10000);
    assert_eq!(ms.heap_area(), Some((0x10, 0x10)));
    assert!(ms.append_to(0x10000, 0x11800));
    assert_eq!(ms.heap_area(), Some((0x10, 0x12)));
    assert_eq!(ms.translate(0x10), Some(HEAP_PERM));
    assert_eq!(ms.translate(0x11), Some(HEAP_PERM));
    assert_eq!(ms.translate(0x12), None);
    assert!(ms.shrink_to(0x10000, 0x10001));
    assert_eq!(ms.heap_area(), Some((0x10, 0x11)));
    assert_eq!(ms.translate(0x11), None);
    assert_eq!(ms.translate(0x10), Some(HEAP_PERM));
    // an area found only by its first page
    assert!(!ms.shrink_to(0x20000, 0x20000));
    // an unaligned start maps the page it falls in
    let mut ms2 = MemorySet::new_bare();
    ms2.insert_heap_area(0x30010);
    assert_eq!(ms2.heap_area(), Some((0x30, 0x31)));
    assert_eq!(ms2.translate(0x30), Some(HEAP_PERM));
    let mut ms3 = MemorySet::from_existed_user(&ms);
    ms3.recycle_data_pages();
    assert_eq!(ms3.heap_area(), None);
    assert_eq!(MemorySet::from_existed_user(&ms).heap_area(), Some((0x10, 0x11)));
}

#[test]
fn set_sp_writes_x2() {
    let mut cx = TrapContext::app_init_context(0x10, 0x20, 0, 0, 0, 0);
    cx.set_sp(0x99);
    assert_eq!(cx.x[2], 0x99);
    assert_eq!(cx.sepc, 0x10);
}

#[test]
fn mapped_pages_start_zeroed_and_hold_their_bytes() {
    let mut ms = MemorySet::new_bare();
    assert_eq!(ms.read_byte(3, 0), None);
    assert!(!ms.write_byte(3, 0, 1));
    ms.map_page(3, MAP_PERM_R | MAP_PERM_W | MAP_PERM_U);
    assert_eq!(ms.read_byte(3, 0), Some(0));
    assert_eq!(ms.read_byte(3, 4095), Some(0));
    assert_eq!(ms.read_byte(3, 4096), None);
    assert!(ms.write_byte(3, 7, 0x42));
    assert!(!ms.write_byte(3, 4096, 0x42));
    assert_eq!(ms.read_byte(3, 7), Some(0x42));
    assert_eq!(ms.translate(3), Some(MAP_PERM_R | MAP_PERM_W | MAP_PERM_U));
    // a page mapped again is a fresh, zeroed frame
    ms.unmap_page(3);
    ms.map_page(3, MAP_PERM_R | MAP_PERM_U);
    assert_eq!(ms.read_byte(3, 7), Some(0));
}

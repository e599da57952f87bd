use os::config::{MAX_SYSCALL_NUM, PAGE_SIZE};
use os::syscall::process::{
    sys_exit, sys_get_time, sys_mmap, sys_munmap, sys_sbrk, sys_task_info, sys_yield, TimeVal,
};
use os::task::info::TaskInfo;
use os::task::memory::{vpn_range, AddressSpace, TaskHeap};
use os::task::{TaskAction, TaskStatus};

#[test]
fn get_time_splits_microseconds() {
    let mut ts = TimeVal { sec: 0, usec: 0 };
    assert_eq!(sys_get_time(&mut ts, 0, 3_500_000), 0);
    assert_eq!((ts.sec, ts.usec), (3, 500_000));
    sys_get_time(&mut ts, 0, 999_999);
    assert_eq!((ts.sec, ts.usec), (0, 999_999));
    sys_get_time(&mut ts, 0, 1_000_000);
    assert_eq!((ts.sec, ts.usec), (1, 0));
}

#[test]
fn task_info_init_and_syscalled() {
    let mut info = TaskInfo::init();
    assert_eq!(info.status, TaskStatus::Running);
    assert!(info.syscall_times.iter().all(|&c| c == 0));
    assert_eq!(info.time, 0);
    assert_eq!(info.first_time, None);
    info.syscalled(64, 100);
    assert_eq!(info.first_time, Some(100));
    assert_eq!(info.time, 0);
    info.syscalled(64, 130);
    info.syscalled(169, 145);
    assert_eq!(info.syscall_times[64], 2);
    assert_eq!(info.syscall_times[169], 1);
    assert_eq!(info.syscall_times[MAX_SYSCALL_NUM - 1], 0);
    assert_eq!(info.first_time, Some(100));
    assert_eq!(info.time, 45);
}

#[test]
fn task_info_is_copied_out() {
    let mut current = TaskInfo::init();
    current.syscalled(93, 5);
    current.syscalled(93, 12);
    let mut out = TaskInfo::init();
    assert_eq!(sys_task_info(&mut out, &current), 0);
    assert_eq!(out.syscall_times[93], 2);
    assert_eq!(out.time, 7);
    assert_eq!(out.status, TaskStatus::Running);
}

#[test]
fn exit_and_yield_actions() {
    assert_eq!(sys_exit(-3), TaskAction::Exit(-3));
    assert_eq!(sys_yield(), (TaskAction::Suspend, 0));
}

#[test]
fn sbrk_moves_the_break() {
    let mut heap = TaskHeap { heap_bottom: 0x1_0000, program_brk: 0x1_0000 };
    assert_eq!(sys_sbrk(&mut heap, 4096), 0x1_0000);
    assert_eq!(heap.program_brk, 0x1_1000);
    assert_eq!(sys_sbrk(&mut heap, -8192), -1);
    assert_eq!(heap.program_brk, 0x1_1000);
    assert_eq!(sys_sbrk(&mut heap, -4096), 0x1_1000);
    assert_eq!(heap.program_brk, 0x1_0000);
    assert_eq!(heap.heap_bottom, 0x1_0000);
    assert_eq!(sys_sbrk(&mut heap, 0), 0x1_0000);
}

#[test]
fn vpn_range_rounds_outwards() {
    assert_eq!(vpn_range(0, 0), (0, 0));
    assert_eq!(vpn_range(0, 1), (0, 1));
    assert_eq!(vpn_range(PAGE_SIZE, PAGE_SIZE), (1, 2));
    assert_eq!(vpn_range(PAGE_SIZE, PAGE_SIZE + 1), (1, 3));
    assert_eq!(vpn_range(10, 10), (0, 1));
}

#[test]
fn mmap_rejects_bad_requests() {
    let mut space = AddressSpace::new();
    assert_eq!(sys_mmap(&mut space, 0x1001, 4096, 3), -1);
    assert_eq!(sys_mmap(&mut space, 0x1000, 4096, 0), -1);
    assert_eq!(sys_mmap(&mut space, 0x1000, 4096, 8), -1);
    assert_eq!(sys_mmap(&mut space, 0x1000, 4096, 0xf), -1);
    assert_eq!(space.translate(1), None);
}

#[test]
fn mmap_maps_and_refuses_overlap() {
    let mut space = AddressSpace::new();
    assert_eq!(sys_mmap(&mut space, 0x1000, 0x1800, 3), 0);
    assert_eq!(space.translate(0), None);
    assert_eq!(space.translate(1), Some(3));
    assert_eq!(space.translate(2), Some(3));
    assert_eq!(space.translate(3), None);
    assert_eq!(sys_mmap(&mut space, 0x2000, 0x2000, 1), -1);
    assert_eq!(space.translate(3), None);
    assert_eq!(sys_mmap(&mut space, 0x3000, 0x1000, 5), 0);
    assert_eq!(space.translate(3), Some(5));
}

#[test]
fn munmap_needs_every_page_mapped() {
    let mut space = AddressSpace::new();
    sys_mmap(&mut space, 0x4000, 0x2000, 7);
    assert_eq!(sys_munmap(&mut space, 0x4001, 0x1000), -1);
    assert_eq!(sys_munmap(&mut space, 0x4000, 0x3000), -1);
    assert_eq!(space.translate(4), Some(7));
    assert_eq!(sys_munmap(&mut space, 0x5000, 0x1000), 0);
    assert_eq!(space.translate(4), Some(7));
    assert_eq!(space.translate(5), None);
}

#[test]
fn mmap_then_munmap_restores() {
    let mut space = AddressSpace::new();
    sys_mmap(&mut space, 0x10000, 0x1000, 1);
    assert_eq!(sys_mmap(&mut space, 0x20000, 0x3000, 2), 0);
    assert_eq!(sys_munmap(&mut space, 0x20000, 0x3000), 0);
    for vpn in 0x18..0x28 {
        assert_eq!(space.translate(vpn), None);
    }
    assert_eq!(space.translate(0x10), Some(1));
}

//! Tests of the detection toggle, the fd-table entry points, and the
//! process-management entry points.

use kernel_sync::facade::sys_enable_deadlock_detect;
use kernel_sync::fs_calls::{sys_close, sys_open, sys_read, sys_write, OpenFile};
use kernel_sync::proc_calls::{
    sys_get_time, sys_task_info, sys_waitpid, ChildProc, TaskInfo, TaskStatus, TimeVal,
    MAX_SYSCALL_NUM,
};
use kernel_sync::process::ProcState;

/// The detection toggle accepts exactly 0 and 1; any other value returns -1
/// and leaves the flag unchanged.
#[test]
fn enable_deadlock_detect_boundary() {
    let mut p = ProcState::new(1);
    assert!(!p.detect_enabled);
    assert_eq!(sys_enable_deadlock_detect(&mut p, 2), -1);
    assert!(!p.detect_enabled);
    assert_eq!(sys_enable_deadlock_detect(&mut p, 1), 0);
    assert!(p.detect_enabled);
    assert_eq!(sys_enable_deadlock_detect(&mut p, usize::MAX), -1);
    assert!(p.detect_enabled);
    assert_eq!(sys_enable_deadlock_detect(&mut p, 0), 0);
    assert!(!p.detect_enabled);
}

/// The time record splits microseconds into whole seconds and remainder.
#[test]
fn get_time_formula() {
    let mut ts = TimeVal { sec: 0, usec: 0 };
    assert_eq!(sys_get_time(&mut ts, 3_214_567), 0);
    assert_eq!(ts.sec, 3);
    assert_eq!(ts.usec, 214_567);

    assert_eq!(sys_get_time(&mut ts, 999_999), 0);
    assert_eq!(ts.sec, 0);
    assert_eq!(ts.usec, 999_999);
}

/// The task record carries the reported status and counts, and the running
/// time as the span since first dispatch.
#[test]
fn task_info_fields() {
    let mut counts = [0u32; MAX_SYSCALL_NUM];
    counts[64] = 3;
    counts[93] = 1;
    let mut ti = TaskInfo { status: TaskStatus::Ready, syscall_times: [0; MAX_SYSCALL_NUM], time: 0 };
    assert_eq!(sys_task_info(&mut ti, 450, 100, counts, TaskStatus::Running), 0);
    assert_eq!(ti.time, 350);
    assert_eq!(ti.status, TaskStatus::Running);
    assert_eq!(ti.syscall_times[64], 3);
    assert_eq!(ti.syscall_times[93], 1);
    assert_eq!(ti.syscall_times[0], 0);
}

/// waitpid: -1 when no child is named, -2 when a named child still runs,
/// else the first named zombie is reaped and removed.
#[test]
fn waitpid_variants() {
    let mut exit_code: i32 = 0;

    let mut none: Vec<ChildProc> = Vec::new();
    assert_eq!(sys_waitpid(&mut none, -1, &mut exit_code), -1);

    let mut children = vec![
        ChildProc { pid: 11, zombie: false, exit_code: 0 },
        ChildProc { pid: 12, zombie: true, exit_code: 7 },
        ChildProc { pid: 13, zombie: true, exit_code: 9 },
    ];

    // A pid naming no child at all.
    assert_eq!(sys_waitpid(&mut children, 99, &mut exit_code), -1);
    assert_eq!(children.len(), 3);

    // A named child that still runs.
    assert_eq!(sys_waitpid(&mut children, 11, &mut exit_code), -2);
    assert_eq!(children.len(), 3);

    // -1 reaps the first zombie in table order.
    assert_eq!(sys_waitpid(&mut children, -1, &mut exit_code), 12);
    assert_eq!(exit_code, 7);
    assert_eq!(children.len(), 2);

    // A specific zombie pid.
    assert_eq!(sys_waitpid(&mut children, 13, &mut exit_code), 13);
    assert_eq!(exit_code, 9);
    assert_eq!(children.len(), 1);
    assert_eq!(children[0].pid, 11);
}

/// Write admission: out-of-range, closed, and read-only descriptors are all
/// rejected; an admitted write reports the external transfer count.
#[test]
fn write_admission() {
    let table = vec![
        Some(OpenFile { readable: true, writable: false }),
        None,
        Some(OpenFile { readable: false, writable: true }),
    ];
    assert_eq!(sys_write(&table, 9, 100), -1);
    assert_eq!(sys_write(&table, 1, 100), -1);
    assert_eq!(sys_write(&table, 0, 100), -1);
    assert_eq!(sys_write(&table, 2, 100), 100);
}

/// Read admission mirrors write admission with the readable mode.
#[test]
fn read_admission() {
    let table = vec![
        Some(OpenFile { readable: true, writable: false }),
        None,
        Some(OpenFile { readable: false, writable: true }),
    ];
    assert_eq!(sys_read(&table, 9, 33), -1);
    assert_eq!(sys_read(&table, 1, 33), -1);
    assert_eq!(sys_read(&table, 2, 33), -1);
    assert_eq!(sys_read(&table, 0, 33), 33);
}

/// Descriptors are allocated first-fit and recycled through close; a failed
/// external open changes nothing.
#[test]
fn open_close_descriptor_reuse() {
    let mut table: Vec<Option<OpenFile>> = Vec::new();
    let rw = OpenFile { readable: true, writable: true };
    assert_eq!(sys_open(&mut table, Some(rw)), 0);
    assert_eq!(sys_open(&mut table, Some(rw)), 1);
    assert_eq!(sys_open(&mut table, None), -1);
    assert_eq!(table.len(), 2);

    assert_eq!(sys_close(&mut table, 0), 0);
    assert!(table[0].is_none());
    assert_eq!(sys_close(&mut table, 0), -1);
    assert_eq!(sys_close(&mut table, 5), -1);

    assert_eq!(sys_open(&mut table, Some(rw)), 0);
    assert_eq!(table.len(), 2);
}

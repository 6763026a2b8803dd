use rcore::logging::{level_color, level_filter, LogLevel, LogLevelFilter, MyLogger};
use rcore::task::{AddressSpace, TaskContext, TaskControlBlock, TaskStatus, TrapContext};
use rcore::user::{
    initproc_step, shell_child_exited, shell_exec_failed, shell_step, InitAction, ShellAction, BS,
    CR, DL, LF,
};

fn space(token: usize) -> AddressSpace {
    AddressSpace { token, trap_cx_ppn: token + 1, user_sp: 0x1000 + token, entry_point: 0x10000 + token }
}

#[test]
fn new_task_is_ready_and_starts_at_entry() {
    let mut task = TaskControlBlock::new(space(8), 3, 0x8000, 0x42, 0x20, 0x9000, 0x44);
    assert_eq!(task.getpid(), 3);
    let inner = task.inner_exclusive_access();
    assert!(!inner.is_zombie());
    assert!(inner.task_status == TaskStatus::Ready);
    assert_eq!(inner.get_user_token(), 8);
    assert_eq!(inner.trap_cx_ppn, 9);
    assert_eq!(inner.base_size, 0x1008);
    assert_eq!((inner.task_cx.ra, inner.task_cx.sp), (0x42, 0x8000));
    assert!(inner.parent.is_none());
    assert!(inner.children.is_empty());
    assert_eq!(inner.exit_code, 0);
    let cx = inner.get_trap_cx();
    assert_eq!((cx.sepc, cx.x[2], cx.kernel_sp, cx.kernel_satp, cx.trap_handler), (0x10008, 0x1008, 0x8000, 0x9000, 0x44));
    cx.x[10] = 5;
    assert_eq!(task.inner_exclusive_access().trap_cx.x[10], 5);
}

#[test]
fn zombie_status_is_reported() {
    let mut task = TaskControlBlock::new(space(1), 1, 0, 0, 0, 0, 0);
    task.inner_exclusive_access().task_status = TaskStatus::Zombie;
    assert!(task.inner_exclusive_access().is_zombie());
    task.inner_exclusive_access().task_status = TaskStatus::Running;
    assert!(!task.inner_exclusive_access().is_zombie());
}

#[test]
fn fork_links_parent_and_child() {
    let mut parent = TaskControlBlock::new(space(8), 1, 0x8000, 0x42, 0x20, 0x9000, 0x44);
    parent.inner_exclusive_access().trap_cx.x[11] = 77;
    let mut child = parent.fork(space(16), 2, 0xa000, 0x42);
    assert_eq!(child.getpid(), 2);
    assert_eq!(parent.inner_exclusive_access().children, vec![2]);
    let c = child.inner_exclusive_access();
    assert_eq!(c.parent, Some(1));
    assert!(c.task_status == TaskStatus::Ready);
    assert_eq!(c.base_size, 0x1008);
    assert_eq!(c.get_user_token(), 16);
    assert_eq!(c.trap_cx_ppn, 17);
    assert_eq!(c.trap_cx.x[11], 77);
    assert_eq!(c.trap_cx.kernel_sp, 0xa000);
    assert_eq!(c.task_cx.sp, 0xa000);
    let mut second = parent.fork(space(24), 5, 0xb000, 0x42);
    assert_eq!(second.inner_exclusive_access().parent, Some(1));
    assert_eq!(parent.inner_exclusive_access().children, vec![2, 5]);
}

#[test]
fn exec_replaces_the_program_only() {
    let mut parent = TaskControlBlock::new(space(8), 1, 0x8000, 0x42, 0x20, 0x9000, 0x44);
    let mut task = parent.fork(space(16), 2, 0xa000, 0x42);
    task.exec(space(32), 0x21, 0x9001, 0x45);
    assert_eq!(task.getpid(), 2);
    let t = task.inner_exclusive_access();
    assert_eq!(t.get_user_token(), 32);
    assert_eq!(t.trap_cx_ppn, 33);
    assert_eq!(t.base_size, 0x1020);
    assert_eq!(t.parent, Some(1));
    assert_eq!((t.trap_cx.sepc, t.trap_cx.x[2], t.trap_cx.kernel_sp), (0x10020, 0x1020, 0xa000));
    assert_eq!((t.trap_cx.sstatus, t.trap_cx.kernel_satp, t.trap_cx.trap_handler), (0x21, 0x9001, 0x45));
}

#[test]
fn contexts_start_zeroed() {
    let cx = TaskContext::goto_trap_return(0x100, 0x200);
    assert_eq!((cx.ra, cx.sp, cx.s), (0x200, 0x100, [0; 12]));
    let t = TrapContext::app_init_context(1, 2, 3, 4, 5, 6);
    assert_eq!(t.x[2], 2);
    assert_eq!(t.x.iter().filter(|&&r| r != 0).count(), 1);
    assert_eq!((t.sstatus, t.sepc, t.kernel_satp, t.kernel_sp, t.trap_handler), (3, 1, 4, 5, 6));
}

#[test]
fn log_levels_have_colors() {
    assert_eq!(level_color(LogLevel::Error), 31);
    assert_eq!(level_color(LogLevel::Warn), 93);
    assert_eq!(level_color(LogLevel::Info), 34);
    assert_eq!(level_color(LogLevel::Debug), 32);
    assert_eq!(level_color(LogLevel::Trace), 90);
    assert!(MyLogger.enabled(LogLevel::Trace));
}

#[test]
fn log_setting_selects_filter() {
    assert_eq!(level_filter(Some(b"ERROR")), LogLevelFilter::Error);
    assert_eq!(level_filter(Some(b"WARN")), LogLevelFilter::Warn);
    assert_eq!(level_filter(Some(b"INFO")), LogLevelFilter::Info);
    assert_eq!(level_filter(Some(b"DEBUG")), LogLevelFilter::Debug);
    assert_eq!(level_filter(Some(b"TRACE")), LogLevelFilter::Trace);
    assert_eq!(level_filter(Some(b"warn")), LogLevelFilter::Info);
    assert_eq!(level_filter(Some(b"")), LogLevelFilter::Info);
    assert_eq!(level_filter(None), LogLevelFilter::Info);
}

#[test]
fn shell_edits_and_runs_lines() {
    let mut line: Vec<char> = Vec::new();
    assert!(matches!(shell_step(&mut line, LF), ShellAction::Prompt));
    assert!(matches!(shell_step(&mut line, BS), ShellAction::Ignore));
    assert!(matches!(shell_step(&mut line, b'l'), ShellAction::Echo('l')));
    assert!(matches!(shell_step(&mut line, b's'), ShellAction::Echo('s')));
    assert!(matches!(shell_step(&mut line, b'x'), ShellAction::Echo('x')));
    assert!(matches!(shell_step(&mut line, DL), ShellAction::Erase));
    assert_eq!(line, vec!['l', 's']);
    match shell_step(&mut line, CR) {
        ShellAction::Execute(cmd) => assert_eq!(cmd, vec!['l', 's', '\0']),
        _ => panic!("expected a command"),
    }
    assert!(line.is_empty());
}

#[test]
fn initproc_yields_or_reports() {
    assert!(matches!(initproc_step(-1, 0), InitAction::Yield));
    assert!(matches!(initproc_step(7, 3), InitAction::Released(7, 3)));
}

#[test]
fn shell_reports_failed_exec_and_child_exit() {
    assert_eq!(shell_exec_failed(-1), -4);
    assert_eq!(shell_child_exited(5, 5, 42), (5, 42));
}

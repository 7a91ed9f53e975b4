use tracelogs::processes::{decimal, exe_path, follow_step, new_process, stdout_path};

#[test]
fn new_process_takes_unknown_numeric_entries() {
    assert_eq!(new_process("1234", &[1, 2]), Some(1234));
    assert_eq!(new_process("2", &[1, 2]), None);
    assert_eq!(new_process("self", &[]), None);
    assert_eq!(new_process("+7", &[]), Some(7));
}

#[test]
fn proc_paths() {
    assert_eq!(decimal(0), "0");
    assert_eq!(decimal(1090), "1090");
    assert_eq!(decimal(usize::MAX), usize::MAX.to_string());
    assert_eq!(stdout_path(42), "/proc/42/fd/1");
    assert_eq!(exe_path(7), "/proc/7/exe");
}

#[test]
fn follow_step_reports_new_lines_once() {
    let (first, pos) = follow_step(0, 4);
    assert_eq!(first, vec![1, 2, 3]);
    assert_eq!(pos, 3);
    let (again, pos2) = follow_step(pos, 4);
    assert!(again.is_empty());
    assert_eq!(pos2, 3);
    let (more, pos3) = follow_step(pos2, 6);
    assert_eq!(more, vec![4, 5]);
    assert_eq!(pos3, 5);
    assert_eq!(follow_step(0, 0), (vec![], 0));
    assert_eq!(follow_step(0, 1), (vec![], 0));
}

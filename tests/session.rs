use deet::{
    decode_wait, Debugger, FunctionSymbol, Inferior, LineSymbol, SessionError, StartError, Status,
    SymbolTable, TraceError, WaitReport,
};

fn table() -> SymbolTable {
    SymbolTable {
        functions: vec![
            FunctionSymbol { name: "helper".to_string(), low: 0x1100, high: 0x1180 },
            FunctionSymbol { name: "main".to_string(), low: 0x1180, high: 0x1200 },
        ],
        lines: vec![
            LineSymbol { file: "prog.c".to_string(), number: 3, address: 0x1100 },
            LineSymbol { file: "prog.c".to_string(), number: 4, address: 0x1110 },
            LineSymbol { file: "prog.c".to_string(), number: 9, address: 0x1180 },
        ],
        entry: "main".to_string(),
    }
}

#[test]
fn continue_without_a_process_reports_and_changes_nothing() {
    let mut d = Debugger::new("./prog", table());
    d.command_break("*0x1104").unwrap();
    assert!(matches!(d.command_continue(), Err(SessionError::NoProcess)));
    assert!(matches!(d.command_continue(), Err(SessionError::NoProcess)));
    assert!(!d.is_running());
    assert_eq!(d.breakpoints().len(), 1);
    assert_eq!(d.breakpoints().get(0).saved, None);
}

#[test]
fn break_numbers_breakpoints_and_rejects_bad_text() {
    let mut d = Debugger::new("./prog", table());
    assert_eq!(d.command_break("*0x1104"), Ok((1, 0x1104)));
    assert_eq!(d.command_break("*1190"), Ok((2, 0x1190)));
    assert_eq!(d.command_break("*0x1104"), Ok((1, 0x1104)));
    assert!(d.command_break("1104").is_err());
    assert!(d.command_break("*zz").is_err());
    assert_eq!(d.breakpoints().len(), 2);
}

#[test]
fn run_that_could_not_start_leaves_the_session_idle() {
    let mut d = Debugger::new("./prog", table());
    let report = d.command_run(None);
    assert!(report.ended.is_none());
    assert!(matches!(report.started, Err(SessionError::StartFailed)));
    assert!(!d.is_running());
    assert_eq!(d.pid(), None);
}

#[test]
fn quit_and_backtrace_without_a_process_do_nothing() {
    let mut d = Debugger::new("./prog", table());
    assert!(d.command_backtrace().is_none());
    assert!(d.quit().is_none());
    assert!(!d.is_running());
    assert_eq!(d.target(), "./prog");
}

#[test]
fn a_process_that_is_not_our_child_cannot_be_taken_over() {
    assert!(matches!(Inferior::new(i32::MAX), Err(StartError::NotStopped(_, Err(TraceError::Os(_))))));
}

#[test]
fn a_pid_naming_no_single_process_is_refused() {
    assert!(matches!(Inferior::new(0), Err(StartError::InvalidPid)));
    assert!(matches!(Inferior::new(-1), Err(StartError::InvalidPid)));
}

#[test]
fn run_with_a_bad_pid_fails_to_start() {
    let mut d = Debugger::new("./prog", table());
    let report = d.command_run(Some(0));
    assert!(matches!(report.started, Err(SessionError::StartFailed)));
    assert!(report.cleanup.is_none());
    assert!(!d.is_running());
}

#[test]
fn wait_reports_decode_to_statuses() {
    assert_eq!(decode_wait(Ok(WaitReport::Exited(3)), None), Ok(Status::Exited(3)));
    assert_eq!(decode_wait(Ok(WaitReport::Signaled(9)), None), Ok(Status::Signaled(9)));
    assert_eq!(
        decode_wait(Ok(WaitReport::Stopped(5)), Some(Ok((0x1104, 0x7ff0)))),
        Ok(Status::Stopped(5, 0x1104))
    );
    assert_eq!(decode_wait(Ok(WaitReport::Stopped(5)), Some(Err(3))), Err(TraceError::Os(3)));
    assert_eq!(decode_wait(Ok(WaitReport::Other), None), Err(TraceError::UnexpectedStop));
    assert_eq!(decode_wait(Err(10), None), Err(TraceError::Os(10)));
}

#[test]
fn symbol_lookups_find_function_and_line() {
    let t = table();
    assert_eq!(t.function_at(0x1104), Some(0));
    assert_eq!(t.function_at(0x1180), Some(1));
    assert_eq!(t.function_at(0x1200), None);
    assert_eq!(t.function_at(0x10ff), None);
    assert_eq!(t.line_at(0x1104), Some(0));
    assert_eq!(t.line_at(0x1110), Some(1));
    assert_eq!(t.line_at(0x11ff), Some(2));
    assert_eq!(t.line_at(0x10ff), None);
    assert!(t.is_entry(Some(1)));
    assert!(!t.is_entry(Some(0)));
    assert!(!t.is_entry(None));
}

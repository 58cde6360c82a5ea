use std::cell::Cell;
use std::cell::RefCell;
use std::rc::Rc;

use rustex_utils::context::DefaultFormatter;
use rustex_utils::context::Hook;
use rustex_utils::context::RustTeXUtils;
use rustex_utils::context::ValueFormatter;
use rustex_utils::guard::check_working_directory;
use rustex_utils::guard::has_manual_flag;

struct CountingHook {
    hits: Rc<Cell<u32>>,
}

impl Hook for CountingHook {
    fn run(&mut self) {
        self.hits.set(self.hits.get() + 1);
    }
}

struct RecordingFormatter {
    seen: Rc<RefCell<Vec<String>>>,
}

impl ValueFormatter for RecordingFormatter {
    fn format(&mut self, value: &str) -> String {
        self.seen.borrow_mut().push(value.to_string());
        value.to_uppercase()
    }
}

#[test]
fn new_wrapper_is_empty() {
    let ctx = RustTeXUtils::new();
    assert_eq!(ctx.command().as_str(), "");
    assert_eq!(ctx.instance().as_str(), "");
    assert_eq!(ctx.line().as_str(), "");
    assert_eq!(ctx.context().len(), 0);
    assert_eq!(ctx.args().len(), 0);
    assert_eq!(ctx.cleanup(), "\n\n");
}

#[test]
fn stub_accessors_are_fixed() {
    let ctx = RustTeXUtils::new();
    assert_eq!(ctx.family(), "");
    assert_eq!(ctx.session(), "");
    assert_eq!(ctx.restart(), "");
}

#[test]
fn default_hooks_do_nothing() {
    let mut ctx = RustTeXUtils::new();
    ctx.before();
    ctx.after();
    ctx.formatter("anything");
    assert_eq!(ctx.cleanup(), "\n\n");
}

#[test]
fn default_formatter_is_identity() {
    let mut f = DefaultFormatter;
    assert_eq!(f.format("plain text"), "plain text");
}

#[test]
fn dependencies_append_in_order_with_duplicates() {
    let mut ctx = RustTeXUtils::new();
    ctx.add_dependencies(vec!["a".to_string(), "b".to_string()]);
    ctx.add_dependencies(vec!["c".to_string()]);
    ctx.add_dependencies(vec!["a".to_string()]);
    assert_eq!(ctx.cleanup(), "\na\nb\nc\na\n\n");
}

#[test]
fn created_append_in_order() {
    let mut ctx = RustTeXUtils::new();
    ctx.add_created(vec!["out1".to_string(), "out2".to_string()]);
    ctx.add_created(vec!["out1".to_string()]);
    assert_eq!(ctx.cleanup(), "\n\nout1\nout2\nout1\n");
}

#[test]
fn cleanup_report_shape() {
    let mut ctx = RustTeXUtils::new();
    ctx.add_dependencies(vec!["x.dat".to_string()]);
    ctx.add_created(vec!["y.out".to_string()]);
    let report = ctx.cleanup();
    assert_eq!(report, "\nx.dat\n\ny.out\n");
    let lines: Vec<&str> = report.lines().collect();
    assert_eq!(lines, vec!["", "x.dat", "", "y.out"]);
}

#[test]
fn hook_replacement_last_write_wins() {
    let first = Rc::new(Cell::new(0));
    let second = Rc::new(Cell::new(0));
    let ctx = RustTeXUtils::new();
    let ctx = ctx.set_before(CountingHook { hits: first.clone() });
    let mut ctx = ctx.set_before(CountingHook { hits: second.clone() });
    ctx.before();
    assert_eq!(first.get(), 0);
    assert_eq!(second.get(), 1);
    ctx.before();
    assert_eq!(first.get(), 0);
    assert_eq!(second.get(), 2);
}

#[test]
fn after_hook_runs_once_per_call() {
    let hits = Rc::new(Cell::new(0));
    let mut ctx = RustTeXUtils::new().set_after(CountingHook { hits: hits.clone() });
    assert_eq!(hits.get(), 0);
    ctx.after();
    assert_eq!(hits.get(), 1);
}

#[test]
fn formatter_replacement_applies_new_formatter() {
    let seen = Rc::new(RefCell::new(Vec::new()));
    let mut ctx = RustTeXUtils::new().set_formatter(RecordingFormatter { seen: seen.clone() });
    ctx.formatter("abc");
    ctx.formatter("def");
    assert_eq!(*seen.borrow(), vec!["abc".to_string(), "def".to_string()]);
}

#[test]
fn setup_wrapper_stores_metadata() {
    let ctx = RustTeXUtils::new();
    let ctx = ctx
        .try_setup_wrapper("run", "a=1, b = 2", "x=y", "inst7", "42")
        .unwrap();
    assert_eq!(ctx.command().as_str(), "run");
    assert_eq!(ctx.instance().as_str(), "inst7");
    assert_eq!(ctx.line().as_str(), "42");
    assert_eq!(ctx.context().len(), 2);
    assert_eq!(ctx.context().get(&"a".to_string()).unwrap().as_str(), "1");
    assert_eq!(ctx.context().get(&"b".to_string()).unwrap().as_str(), "2");
    assert_eq!(ctx.args().len(), 1);
    assert_eq!(ctx.args().get(&"x".to_string()).unwrap().as_str(), "y");
}

#[test]
fn setup_wrapper_with_empty_strings() {
    let ctx = RustTeXUtils::new().setup_wrapper("", "", "", "", "");
    assert_eq!(ctx.command().as_str(), "");
    assert_eq!(ctx.context().len(), 0);
    assert_eq!(ctx.args().len(), 0);
}

#[test]
fn setup_wrapper_rejects_malformed_context() {
    let e = RustTeXUtils::new()
        .try_setup_wrapper("run", "broken", "x=y", "i", "1")
        .unwrap_err();
    assert_eq!(e.segment.as_str(), "broken");
}

#[test]
fn setup_wrapper_rejects_malformed_args() {
    let e = RustTeXUtils::new()
        .try_setup_wrapper("run", "a=1", "x=y,oops", "i", "1")
        .unwrap_err();
    assert_eq!(e.segment.as_str(), "oops");
}

#[test]
fn working_directory_guard_aborts_without_flag() {
    assert!(check_working_directory(false, false).is_err());
}

#[test]
fn working_directory_guard_accepts_flag_or_success() {
    assert!(check_working_directory(false, true).is_ok());
    assert!(check_working_directory(true, false).is_ok());
    assert!(check_working_directory(true, true).is_ok());
}

#[test]
fn manual_flag_is_found_among_arguments() {
    let args = vec!["prog".to_string(), "--manual".to_string(), "x".to_string()];
    assert!(has_manual_flag(&args));
    let no_flag = vec!["prog".to_string(), "--manualx".to_string()];
    assert!(!has_manual_flag(&no_flag));
    assert!(!has_manual_flag(&Vec::new()));
}

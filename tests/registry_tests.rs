use rustotp::entry::EntryError;
use rustotp::registry::{name_le_exec, split_lines, LoadError, Registry};

const S: &str = "JBSWY3DPEHPK3PXPJBSWY3DPEHPK3PXP";
const T: &str = "GEZDGNBVGY3TQOJQGEZDGNBVGY3TQOJQ";

fn load_ok(text: &str) -> Registry {
    match Registry::load(text) {
        Ok(r) => r,
        Err(e) => panic!("load failed: {:?}", e),
    }
}

fn names(r: &Registry) -> Vec<String> {
    (0..r.len()).map(|i| r.get(i).name.clone()).collect()
}

#[test]
fn split_lines_cases() {
    assert_eq!(split_lines("a\nb\r\n\nc"), vec!["a", "b", "", "c"]);
    assert_eq!(split_lines("a\n"), vec!["a"]);
    assert_eq!(split_lines("a"), vec!["a"]);
    assert_eq!(split_lines(""), Vec::<String>::new());
    assert_eq!(split_lines("x\r"), vec!["x\r"]);
}

#[test]
fn name_order() {
    assert!(name_le_exec("a", "b"));
    assert!(name_le_exec("ab", "b"));
    assert!(!name_le_exec("b", "a"));
    assert!(name_le_exec("", "a"));
    assert!(name_le_exec("a", "a"));
    assert!(!name_le_exec("ab", "a"));
    assert!(name_le_exec("Z", "a"));
}

#[test]
fn load_sorts_by_name() {
    let text = format!("bank={S}\nabc={T}\nzeta={S}\nabc={S}\n");
    let r = load_ok(&text);
    assert_eq!(names(&r), vec!["abc", "abc", "bank", "zeta"]);
    assert_eq!(r.selected_index(), None);
    for i in 0..r.len() - 1 {
        assert!(r.get(i).name <= r.get(i + 1).name);
    }
}

#[test]
fn load_accepts_crlf_and_missing_final_newline() {
    let text = format!("b={S}\r\na={T}");
    let r = load_ok(&text);
    assert_eq!(names(&r), vec!["a", "b"]);
    assert_eq!(r.get(0).secret_str(), T);
    assert_eq!(r.get(1).secret_str(), S);
}

#[test]
fn load_empty_text() {
    let r = load_ok("");
    assert!(r.is_empty());
    assert_eq!(r.selected_index(), None);
    assert_eq!(r.persist(), "");
}

#[test]
fn load_reports_first_bad_line() {
    let text = format!("a={S}\nbroken\nc=d=e\n");
    match Registry::load(&text) {
        Ok(_) => panic!("expected an error"),
        Err(e) => assert_eq!(e, LoadError { line: 1, error: EntryError::Format }),
    }
    let text = format!("a={S}\nb=short\n");
    match Registry::load(&text) {
        Ok(_) => panic!("expected an error"),
        Err(e) => assert_eq!(e, LoadError { line: 1, error: EntryError::Oracle }),
    }
}

#[test]
fn selection_clamps_at_both_ends() {
    let mut r = load_ok(&format!("a={S}\nb={S}\nc={S}\n"));
    r.move_down();
    assert_eq!(r.selected_index(), Some(0));
    for _ in 0..10 {
        r.move_down();
        assert!(r.selected_index().unwrap() < 3);
    }
    assert_eq!(r.selected_index(), Some(2));
    for _ in 0..10 {
        r.move_up();
    }
    assert_eq!(r.selected_index(), Some(0));
}

#[test]
fn first_move_up_selects_first() {
    let mut r = load_ok(&format!("a={S}\nb={S}\n"));
    r.move_up();
    assert_eq!(r.selected_index(), Some(0));
    let mut r = load_ok(&format!("a={S}\nb={S}\n"));
    r.move_selection(true);
    r.move_selection(true);
    assert_eq!(r.selected_index(), Some(1));
    r.move_selection(false);
    assert_eq!(r.selected_index(), Some(0));
}

#[test]
fn delete_clears_selection_and_keeps_order() {
    let mut r = load_ok(&format!("a={S}\nb={S}\nc={S}\nd={S}\n"));
    r.move_down();
    r.move_down();
    assert_eq!(r.selected_entry().unwrap().name, "b");
    r.delete_selected();
    assert_eq!(r.selected_index(), None);
    assert_eq!(names(&r), vec!["a", "c", "d"]);
    r.delete_selected();
    assert_eq!(names(&r), vec!["a", "c", "d"]);
}

#[test]
fn empty_registry_operations_are_noops() {
    let mut r = load_ok("");
    r.move_up();
    assert_eq!(r.selected_index(), None);
    r.move_down();
    assert_eq!(r.selected_index(), None);
    r.delete_selected();
    assert!(r.is_empty());
    assert!(r.selected_entry().is_none());
    assert_eq!(r.persist(), "");
}

#[test]
fn persist_writes_sorted_lines() {
    let r = load_ok(&format!("b={S}\na={T}"));
    assert_eq!(r.persist(), format!("a={T}\nb={S}\n"));
    let again = load_ok(&r.persist());
    assert_eq!(again.persist(), r.persist());
}

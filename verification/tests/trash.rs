use hina::error::HinaError;
use hina::record::RMRecord;
use hina::recycle::{RecycleBin, RecycleBinAction, Remove};
use hina::flag::Flag;

fn record(file: &str, src: &str, time: &str) -> RMRecord {
    RMRecord::from(file.to_string(), src.to_string(), time.to_string())
}

#[test]
fn remove_plan_builds_quarantine_path_from_base_name_and_suffix() {
    let recycle = String::from("/home/u/.hina/RecycleBin");
    let target = String::from("/tmp/a.txt");
    let suffix = String::from("0123456789ABCDEF");
    let (rec, mv) = Remove::plan(&recycle, &target, &suffix, String::from("t0"));
    assert_eq!(rec.get_src(), "/tmp/a.txt");
    assert_eq!(rec.get_file(), "/home/u/.hina/RecycleBin/a.txt0123456789ABCDEF");
    assert_eq!(rec.get_del_time(), "t0");
    assert_eq!(mv.from, "/tmp/a.txt");
    assert_eq!(mv.to, "/home/u/.hina/RecycleBin/a.txt0123456789ABCDEF");
}

#[test]
fn remove_commit_appends_to_ledger() {
    let mut stack: Vec<RMRecord> = Vec::new();
    let recycle = String::from("/bin");
    let target = String::from("/tmp/x");
    let (rec, _mv) = Remove::plan(&recycle, &target, &String::from("S"), String::from("t"));
    Remove::commit(&mut stack, rec);
    assert_eq!(stack.len(), 1);
    assert_eq!(stack[0].get_src(), "/tmp/x");
}

#[test]
fn make_record_draws_a_sixteen_character_alphanumeric_suffix() {
    let recycle = String::from("/bin");
    let target = String::from("/tmp/data.log");
    let (rec, mv) = Remove::make_record(&recycle, &target);
    assert_eq!(rec.get_src(), "/tmp/data.log");
    assert_eq!(&mv.to, rec.get_file());
    let name = rec.get_file().strip_prefix("/bin/data.log").unwrap();
    assert_eq!(name.chars().count(), 16);
    assert!(name.chars().all(|c| c.is_ascii_alphanumeric()));
}

#[test]
fn quarantine_paths_differ_when_suffixes_differ() {
    let recycle = String::from("/bin");
    let t1 = String::from("/tmp/a.txt");
    let t2 = String::from("/var/a.txt");
    let p1 = Remove::quarantine_path(&recycle, &t1, &String::from("AAAAAAAAAAAAAAAA"));
    let p2 = Remove::quarantine_path(&recycle, &t2, &String::from("AAAAAAAAAAAAAAAB"));
    assert_ne!(p1, p2);
}

#[test]
fn show_lists_entries_oldest_first() {
    let stack = vec![
        record("/bin/a.txtS1", "/tmp/a.txt", "2024-01-01 00:00:00.000"),
        record("/bin/b.txtS2", "/tmp/b.txt", "2024-01-02 00:00:00.000"),
    ];
    let lines = RecycleBin::show(&stack);
    assert_eq!(lines.len(), 2);
    assert_eq!(lines[0], "0: File: /tmp/a.txt, delete-time: 2024-01-01 00:00:00.000");
    assert_eq!(lines[1], "1: File: /tmp/b.txt, delete-time: 2024-01-02 00:00:00.000");
}

#[test]
fn restore_index_moves_the_file_back() {
    let stack = vec![record("/bin/a.txtS", "/tmp/a.txt", "t")];
    let r = RecycleBin::restore_index(&stack, 0, false);
    let (i, mv) = r.unwrap();
    assert_eq!(i, 0);
    assert_eq!(mv.from, "/bin/a.txtS");
    assert_eq!(mv.to, "/tmp/a.txt");
}

#[test]
fn restore_collision_guard_reports_and_keeps_the_entry() {
    let stack = vec![record("/bin/a.txtS", "/tmp/a.txt", "t")];
    let r = RecycleBin::restore_index(&stack, 0, true);
    match r {
        Err(HinaError::FileExistError(msg)) => {
            assert_eq!(msg, "/tmp/a.txt already exists, cannot restore");
        }
        other => panic!("expected FileExistError, got {:?}", other),
    }
    assert_eq!(stack.len(), 1);
}

#[test]
fn restore_out_of_range_reports_and_changes_nothing() {
    let stack = vec![record("/bin/a.txtS", "/tmp/a.txt", "t")];
    let r = RecycleBin::restore_index(&stack, 1, false);
    match r {
        Err(HinaError::OutOfIndexError(msg)) => {
            assert_eq!(msg, "Index 1 is out of recycle bin");
        }
        other => panic!("expected OutOfIndexError, got {:?}", other),
    }
}

#[test]
fn descending_removal_keeps_earlier_indices_stable() {
    let mut stack = vec![
        record("qa", "/tmp/a", "t"),
        record("qb", "/tmp/b", "t"),
        record("qc", "/tmp/c", "t"),
        record("qd", "/tmp/d", "t"),
    ];
    RecycleBin::apply_restores(&mut stack, &vec![1, 3]);
    assert_eq!(stack.len(), 2);
    assert_eq!(stack[0].get_file(), "qa");
    assert_eq!(stack[1].get_file(), "qc");
}

#[test]
fn apply_restores_sorts_the_indices_before_removing() {
    let mut stack = vec![
        record("qa", "/tmp/a", "t"),
        record("qb", "/tmp/b", "t"),
        record("qc", "/tmp/c", "t"),
    ];
    RecycleBin::apply_restores(&mut stack, &vec![0, 2]);
    assert_eq!(stack.len(), 1);
    assert_eq!(stack[0].get_file(), "qb");
}

#[test]
fn empty_clears_the_ledger_and_names_the_quarantine_directory() {
    let mut stack = vec![record("qa", "/tmp/a", "t"), record("qb", "/tmp/b", "t")];
    let recycle = String::from("/home/u/.hina/RecycleBin");
    let purge = RecycleBin::empty(&recycle, &mut stack);
    assert_eq!(stack.len(), 0);
    assert_eq!(purge, "/home/u/.hina/RecycleBin");
}

#[test]
fn parse_restore_indices_drops_blank_and_non_numeric_entries() {
    let indices = RecycleBin::parse_restore_indices(&String::from(" 0, 2,x,1,,3"));
    assert_eq!(indices, vec![0, 1, 3]);
}

#[test]
fn recycle_bin_plan_answers_in_priority_order() {
    let flags = |keys: &[&str]| Flag {
        flags: keys.iter().map(|k| (k.to_string(), String::new())).collect(),
    };
    assert_eq!(RecycleBin::plan(&flags(&["ls", "help"])), RecycleBinAction::Help);
    assert_eq!(RecycleBin::plan(&flags(&["ls", "rs"])), RecycleBinAction::List);
    assert_eq!(RecycleBin::plan(&flags(&["restore", "ept"])), RecycleBinAction::Restore);
    assert_eq!(RecycleBin::plan(&flags(&["empty"])), RecycleBinAction::Empty);
    assert_eq!(RecycleBin::plan(&flags(&[])), RecycleBinAction::Nothing);
}

#[test]
fn round_trip_scenario_restores_the_ledger_and_the_file() {
    // Start with an empty ledger and a file /tmp/a.txt.
    let mut stack: Vec<RMRecord> = Vec::new();
    let recycle = String::from("/home/u/.hina/RecycleBin");
    let target = String::from("/tmp/a.txt");
    let suffix = String::from("0123456789abcdef");

    // Remove it.
    let (rec, mv) = Remove::plan(&recycle, &target, &suffix, String::from("t"));
    assert_eq!(mv.from, "/tmp/a.txt");
    Remove::commit(&mut stack, rec);
    assert_eq!(stack.len(), 1);
    assert_eq!(stack[0].get_src(), "/tmp/a.txt");
    assert_eq!(stack[0].get_file(), "/home/u/.hina/RecycleBin/a.txt0123456789abcdef");

    // List shows index 0 with the source path.
    let lines = RecycleBin::show(&stack);
    assert_eq!(lines[0], "0: File: /tmp/a.txt, delete-time: t");

    // Restore index 0: the move goes back, and the ledger empties.
    let (i, back) = RecycleBin::restore_index(&stack, 0, false).unwrap();
    assert_eq!(back.from, "/home/u/.hina/RecycleBin/a.txt0123456789abcdef");
    assert_eq!(back.to, "/tmp/a.txt");
    assert_eq!(back.from, mv.to);
    assert_eq!(back.to, mv.from);
    RecycleBin::apply_restores(&mut stack, &vec![i]);
    assert_eq!(stack.len(), 0);
}

#[test]
fn record_new_stamps_a_time() {
    let rec = RMRecord::new(String::from("q"), String::from("/tmp/s"));
    assert_eq!(rec.get_file(), "q");
    assert_eq!(rec.get_src(), "/tmp/s");
    // The clock's text: year-month-day, time to milliseconds.
    assert!(rec.get_del_time().len() >= 19);
}

#[test]
fn an_empty_ledger_lists_nothing_and_restores_nothing() {
    let stack: Vec<RMRecord> = Vec::new();
    assert!(RecycleBin::show(&stack).is_empty());
    match RecycleBin::restore_index(&stack, 0, false) {
        Err(HinaError::OutOfIndexError(msg)) => {
            assert_eq!(msg, "Index 0 is out of recycle bin");
        }
        other => panic!("expected OutOfIndexError, got {:?}", other),
    }
}

#[test]
fn a_path_can_be_removed_restored_and_removed_again() {
    let mut stack: Vec<RMRecord> = Vec::new();
    let recycle = String::from("/bin");
    let target = String::from("/tmp/a");
    let (rec, _) = Remove::plan(&recycle, &target, &String::from("S1"), String::from("t1"));
    Remove::commit(&mut stack, rec);
    let (i, _) = RecycleBin::restore_index(&stack, 0, false).unwrap();
    RecycleBin::apply_restores(&mut stack, &vec![i]);
    let (rec, _) = Remove::plan(&recycle, &target, &String::from("S2"), String::from("t2"));
    Remove::commit(&mut stack, rec);
    assert_eq!(stack.len(), 1);
    assert_eq!(stack[0].get_file(), "/bin/aS2");
    assert_eq!(stack[0].get_del_time(), "t2");
}

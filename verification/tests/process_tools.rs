use hina::flag::Flag;
use hina::func;
use hina::process::{mem_extract, valid_ps_line, Process, ProcessAction, ProcessInfo, ProcessMapMeta, ProcessMap};

#[test]
fn a_ps_line_parses_into_its_fields() {
    let line = "user     1234  1000  0 09:30 pts/0    00:00:01 /usr/bin/tool --flag value";
    assert!(valid_ps_line(line));
    let info = ProcessInfo::from(line);
    assert_eq!(info._uid, "user");
    assert_eq!(info._pid, 1234);
    assert_eq!(info._ppid, 1000);
    assert_eq!(info._c, 0);
    assert_eq!(info._stime, "09:30");
    assert_eq!(info._tty, "pts/0");
    assert_eq!(info._time, "00:00:01");
    assert_eq!(info._cmd, "/usr/bin/tool --flag value");
    assert_eq!(info._origin, line);
}

#[test]
fn a_short_ps_line_is_refused() {
    assert!(!valid_ps_line("user 1 2"));
    assert!(!valid_ps_line("user x 2 0 a b c d e"));
}

#[test]
fn mem_extract_reads_a_value_line() {
    let r = mem_extract("Size:                  4 kB");
    assert_eq!(r, Some((String::from("Size"), 4)));
    let r = mem_extract("Shared_Clean:        128 kB");
    assert_eq!(r, Some((String::from("Shared_Clean"), 128)));
}

#[test]
fn mem_extract_refuses_other_lines() {
    assert!(mem_extract("00400000-00452000 r-xp 00010000 08:01 12345 /bin/cat").is_none());
    assert!(mem_extract("VmFlags: rd ex mr").is_none());
    assert!(mem_extract("no colon here").is_none());
    assert!(mem_extract("Size:4 kB").is_none());
}

#[test]
fn a_region_block_parses_its_fields_and_lowers_the_names() {
    let block: Vec<&str> = vec![
        "00400000-00452000 r-xp 00010000 08:01 12345 /bin/cat",
        "Size:                  4 kB",
        "Pss:                   2 kB",
    ];
    let meta = ProcessMapMeta::from(&block, &String::from("cat\u{0}file")).unwrap();
    let map = ProcessMap::from(vec![meta]);
    assert_eq!(map.get_total_as_str("size"), "4");
    assert_eq!(map.get_total_as_kb("pss"), "2 KB");
}

#[test]
fn build_proc_map_list_totals_the_closed_blocks() {
    let smap = String::from(
        "00400000-00452000 r-xp 00010000 08:01 12345 /bin/cat\n\
         Size:                  4 kB\n\
         Rss:                   3 kB\n\
         Swap:                  0 kB\n\
         Pss:                   1 kB\n\
         00452000-00470000 rw-p 00000000 08:01 12345 /bin/cat\n\
         Size:                  8 kB\n\
         Rss:                   5 kB\n\
         Swap:                  2 kB\n\
         Pss:                   6 kB\n\
         ffff0000-ffff1000 r-xp 00000000 00:00 0 [vectors]",
    );
    let pm = Process::build_proc_map_list(&smap, None).unwrap();
    assert_eq!(pm.get_total_as_str("size"), "12");
    assert_eq!(pm.get_total_as_str("rss"), "8");
    assert_eq!(pm.get_total_as_str("swap"), "2");
    assert_eq!(pm.get_total_as_kb("pss"), "7 KB");
}

#[test]
fn human_readable_totals_scale_by_unit() {
    let block: Vec<&str> = vec![
        "00400000-00452000 r-xp 00010000 08:01 12345",
        "Size:                512 kB",
        "Rss:                2048 kB",
        "Pss:                1536 kB",
        "Swap:            2097152 kB",
    ];
    let meta = ProcessMapMeta::from(&block, &String::new()).unwrap();
    let map = ProcessMap::from(vec![meta]);
    assert_eq!(map.get_total_as_human_readable("size"), "512.000 KB");
    assert_eq!(map.get_total_as_human_readable("rss"), "2.000 MB");
    assert_eq!(map.get_total_as_human_readable("pss"), "1.500 MB");
    assert_eq!(map.get_total_as_human_readable("swap"), "2.000 GB");
}

#[test]
fn filter_keeps_the_users_processes() {
    let a = ProcessInfo::from("alice 1 0 0 a b c cmd1");
    let b = ProcessInfo::from("bob   2 0 0 a b c cmd2");
    let c = ProcessInfo::from("1000  3 0 0 a b c cmd3");
    let all = vec![a, b, c];
    let mine = Process::filter_user_processes(&all, &String::from("alice"), &String::from("1000"));
    assert_eq!(mine.len(), 2);
    assert_eq!(mine[0]._pid, 1);
    assert_eq!(mine[1]._pid, 3);
    let named = Process::filter_user_spec_processes(
        &all,
        &String::from("alice"),
        &String::from("1000"),
        &String::from("cmd3"),
    );
    assert_eq!(named.len(), 1);
    assert_eq!(named[0]._pid, 3);
}

#[test]
fn the_memory_table_sorts_by_the_chosen_column() {
    let block1: Vec<&str> = vec![
        "00400000-00452000 r-xp 00010000 08:01 1",
        "Size:  9 kB",
        "Swap:  1 kB",
        "Pss:   9 kB",
        "Rss:   9 kB",
    ];
    let block2: Vec<&str> = vec![
        "00400000-00452000 r-xp 00010000 08:01 2",
        "Size:  2 kB",
        "Swap:  8 kB",
        "Pss:   2 kB",
        "Rss:   2 kB",
    ];
    let m1 = ProcessMap::from(vec![ProcessMapMeta::from(&block1, &String::new()).unwrap()]);
    let m2 = ProcessMap::from(vec![ProcessMapMeta::from(&block2, &String::new()).unwrap()]);
    let p1 = ProcessInfo::from("u 10 0 0 a b c one");
    let p2 = ProcessInfo::from("u 20 0 0 a b c two");
    let pairs = vec![(p1, m1), (p2, m2)];

    let by_size = Process::get_proc_mem_detail(&pairs, &String::from("size"), false);
    assert_eq!(by_size.len(), 2);
    assert_eq!(by_size[0][1], "20");
    assert_eq!(by_size[1][1], "10");
    assert_eq!(by_size[1][2], "9 KB");
    assert_eq!(by_size[0][6], "two");

    let by_pid = Process::get_proc_mem_detail(&pairs, &String::from("pid"), false);
    assert_eq!(by_pid[0][1], "10");
    assert_eq!(by_pid[1][1], "20");

    let by_swap = Process::get_proc_mem_detail(&pairs, &String::from("swap"), false);
    assert_eq!(by_swap[0][1], "10");
}

#[test]
fn process_plan_answers_in_priority_order() {
    let flags = |entries: &[(&str, &str)]| Flag {
        flags: entries.iter().map(|(k, v)| (k.to_string(), v.to_string())).collect(),
    };
    assert!(matches!(Process::plan(&flags(&[("help", "")])), ProcessAction::Help));
    match Process::plan(&flags(&[("t", "42"), ("d", "")])) {
        ProcessAction::Ancestor(id) => assert_eq!(id, 42),
        other => panic!("expected Ancestor, got {:?}", other),
    }
    assert!(matches!(Process::plan(&flags(&[("d", ""), ("x", "")])), ProcessAction::Dump));
    match Process::plan(&flags(&[("x", ""), ("s", "pss"), ("h", "")])) {
        ProcessAction::Xray(s, h) => {
            assert_eq!(s, "pss");
            assert!(h);
        }
        other => panic!("expected Xray, got {:?}", other),
    }
    assert!(matches!(Process::plan(&flags(&[])), ProcessAction::ShowAll));
    match Process::plan(&flags(&[("i", "vim")])) {
        ProcessAction::ShowSpec(p) => assert_eq!(p, "vim"),
        other => panic!("expected ShowSpec, got {:?}", other),
    }
}

#[test]
fn render_info_aligns_the_columns() {
    let head = vec![String::from("A"), String::from("B")];
    let data = vec![
        vec![String::from("x"), String::from("longer")],
        vec![String::from("yyy"), String::from("z")],
    ];
    let lines = func::render_info(&head, &data, 2);
    assert_eq!(lines.len(), 3);
    assert_eq!(lines[0], "A    B       ");
    assert_eq!(lines[1], "x    longer  ");
    assert_eq!(lines[2], "yyy  z       ");
}

#[test]
fn the_ancestor_chain_walks_parents_up_to_the_root() {
    let init = ProcessInfo::from("root 1 0 0 a b c init");
    let shell = ProcessInfo::from("u 100 1 0 a b c sh");
    let tool = ProcessInfo::from("u 250 100 0 a b c tool");
    let all = vec![init, shell, tool];
    let chain = Process::ancestor_chain(&all, 250);
    assert_eq!(chain.len(), 3);
    assert_eq!(chain[0], "u 250 100 0 a b c tool");
    assert_eq!(chain[1], "u 100 1 0 a b c sh");
    assert_eq!(chain[2], "root 1 0 0 a b c init");
    assert!(Process::ancestor_chain(&all, 999).is_empty());
}

use hina::config::{Config, Target};
use hina::error::HinaError;
use hina::executor::Executor;
use hina::flag::Flag;
use hina::fs::{MakeNestedDir, Rename};
use hina::func;
use hina::holder::{HoldAction, PlaceHold};

fn args(v: &[&str]) -> Vec<String> {
    v.iter().map(|s| s.to_string()).collect()
}

#[test]
fn build_with_no_arguments_runs_the_placeholder() {
    let config = Config::build(&args(&["hina"])).unwrap();
    assert!(matches!(config.get_target(), Target::Placehold(_)));
    assert!(config.get_args().is_empty());
}

#[test]
fn build_picks_the_module_by_name() {
    let config = Config::build(&args(&["hina", "rb"])).unwrap();
    assert!(matches!(config.get_target(), Target::RecycleBin(_)));
    let config = Config::build(&args(&["hina", "rm", "a.txt", "b.txt"])).unwrap();
    assert!(matches!(config.get_target(), Target::Remove(_)));
    assert_eq!(config.get_args(), &vec![String::from("a.txt"), String::from("b.txt")]);
}

#[test]
fn build_rejects_an_unknown_module() {
    match Config::build(&args(&["hina", "frobnicate"])) {
        Err(HinaError::ConfigParseError(msg)) => {
            assert_eq!(msg, "Illegal action 'frobnicate'");
        }
        other => panic!("expected ConfigParseError, got {:?}", other),
    }
}

#[test]
fn build_parses_flags_and_arguments_apart() {
    let config = Config::build(&args(&["hina", "rb", "--ls", "-n=3", "path"])).unwrap();
    let flags = config.get_flags();
    assert!(flags.parse_bool(vec!["ls"]));
    assert_eq!(flags.parse_uint(vec!["n"]), 3);
    assert_eq!(config.get_args(), &vec![String::from("path")]);
}

#[test]
fn a_lone_flag_without_module_runs_the_placeholder() {
    let config = Config::build(&args(&["hina", "--help"])).unwrap();
    assert!(matches!(config.get_target(), Target::Placehold(_)));
    assert!(config.get_flags().parse_bool(vec!["help"]));
}

#[test]
fn add_flag_splits_on_the_first_equals_sign() {
    let mut map: Vec<(String, String)> = Vec::new();
    Config::add_flag(&String::from("--sort-by=pss"), 2, &mut map);
    assert_eq!(map, vec![(String::from("sort-by"), String::from("pss"))]);
    Config::add_flag(&String::from("-v"), 1, &mut map);
    assert_eq!(map[1], (String::from("v"), String::new()));
}

#[test]
fn flag_lookup_takes_the_first_symbol_that_was_given() {
    let flags = Flag {
        flags: vec![
            (String::from("input"), String::from("b")),
            (String::from("i"), String::from("a")),
        ],
    };
    assert!(flags.parse_bool(vec!["i", "input"]));
    assert!(!flags.parse_bool(vec!["o", "output"]));
    assert_eq!(flags.parse_string(vec!["i", "input"]), "a");
    assert_eq!(flags.parse_string(vec!["input"]), "b");
    assert_eq!(flags.parse_string(vec!["x"]), "");
}

#[test]
fn a_repeated_flag_keeps_its_last_value() {
    let flags = Flag {
        flags: vec![
            (String::from("n"), String::from("1")),
            (String::from("n"), String::from("7")),
        ],
    };
    assert_eq!(flags.parse_uint(vec!["n"]), 7);
}

#[test]
fn parse_uint_reads_zero_from_anything_that_is_no_number() {
    let flags = Flag {
        flags: vec![
            (String::from("n"), String::from("12x")),
            (String::from("m"), String::from("+34")),
        ],
    };
    assert_eq!(flags.parse_uint(vec!["n"]), 0);
    assert_eq!(flags.parse_uint(vec!["m"]), 34);
    assert_eq!(flags.parse_uint(vec!["missing"]), 0);
}

#[test]
fn executor_build_lays_the_data_paths_under_home() {
    let config = Config::build(&args(&["hina", "rb", "--ls"])).unwrap();
    let exec = Executor::build(
        config,
        &String::from("/home/u"),
        &String::from("/work"),
        String::from("u"),
        String::from("1000"),
    );
    assert_eq!(exec.work_path, "/work");
    assert_eq!(exec.data_path, "/home/u/.hina");
    assert_eq!(exec.recycle_path, "/home/u/.hina/RecycleBin");
    assert_eq!(exec.user, "u");
    assert_eq!(exec.uid, "1000");
}

#[test]
fn get_uid_reads_the_id_between_equals_and_paren() {
    let out = String::from("uid=1000(user) gid=1000(user) groups=1000(user)");
    assert_eq!(func::get_uid(&out).unwrap(), "1000");
}

#[test]
fn split_and_remove_blank_trims_and_drops_empty_pieces() {
    let v = func::split_and_remove_blank(&String::from("  a,,b,c  "), ",").unwrap();
    assert_eq!(v, vec![String::from("a"), String::from("b"), String::from("c")]);
}

#[test]
fn gen_str_width_ctrl_pads_with_spaces() {
    assert_eq!(func::gen_str_width_ctrl(&String::from("ab"), 5), "ab   ");
    assert_eq!(func::gen_str_width_ctrl(&String::from("abcdef"), 3), "abcdef");
}

#[test]
fn gen_rand_str_draws_alphanumeric_text_of_the_asked_length() {
    let s = func::gen_rand_str(16);
    assert_eq!(s.chars().count(), 16);
    assert!(s.chars().all(|c| c.is_ascii_alphanumeric()));
    let t = func::gen_rand_str(16);
    // Two fresh draws almost surely differ; equal draws would suggest the
    // suffix is not random at all.
    assert_ne!(s, t);
}

#[test]
fn get_execute_target_resolves_against_the_working_directory() {
    let work = String::from("/work");
    let r = func::get_execute_target(
        &work,
        &String::from("a.txt"),
        true,
        false,
        Some(String::from("/real/a.txt")),
    );
    assert_eq!(r.unwrap(), "/real/a.txt");
}

#[test]
fn get_execute_target_keeps_a_symlink_unresolved() {
    let work = String::from("/work");
    let r = func::get_execute_target(&work, &String::from("link"), true, true, None);
    assert_eq!(r.unwrap(), "/work/link");
}

#[test]
fn get_execute_target_reports_a_missing_file() {
    let r = func::get_execute_target(
        &String::from("/work"),
        &String::from("gone"),
        false,
        false,
        None,
    );
    match r {
        Err(HinaError::FileNotExistError(msg)) => {
            assert_eq!(msg, "Unable to locate /work/gone");
        }
        other => panic!("expected FileNotExistError, got {:?}", other),
    }
}

#[test]
fn get_execute_target_reports_an_unopenable_file() {
    let r = func::get_execute_target(
        &String::from("/work"),
        &String::from("/odd"),
        true,
        false,
        None,
    );
    match r {
        Err(HinaError::BadFileError(msg)) => {
            assert_eq!(msg, "Unable to open /odd");
        }
        other => panic!("expected BadFileError, got {:?}", other),
    }
}

#[test]
fn parse_path_or_falls_back_to_the_default() {
    assert_eq!(func::parse_path_or(None, "proc").unwrap(), "proc");
    let p = String::from("/tmp");
    assert_eq!(func::parse_path_or(Some(&p), "proc").unwrap(), "/tmp");
}

#[test]
fn rename_string_replaces_and_inserts() {
    let r = Rename::rename_string(
        &String::from("IMG_001.jpg"),
        &String::from("IMG"),
        &String::from("photo"),
        &String::from(""),
        0,
    );
    assert_eq!(r.unwrap(), "photo_001.jpg");
}

#[test]
fn rename_string_returns_nothing_when_the_name_stays() {
    let r = Rename::rename_string(
        &String::from("a.txt"),
        &String::from("zzz"),
        &String::from("yyy"),
        &String::from(""),
        0,
    );
    assert!(r.is_none());
}

#[test]
fn rename_string_inserts_at_the_position() {
    let r = Rename::rename_string(
        &String::from("a.txt"),
        &String::from(""),
        &String::from(""),
        &String::from("x"),
        1,
    );
    assert_eq!(r.unwrap(), "ax.txt");
}

#[test]
fn rename_string_with_an_empty_pattern_interleaves_the_replacement() {
    let r = Rename::rename_string(
        &String::from("ab"),
        &String::from(""),
        &String::from("z"),
        &String::from(""),
        0,
    );
    assert_eq!(r.unwrap(), "zazbz");
}

#[test]
fn placehold_plan_prefers_help_over_version() {
    let flags = Flag {
        flags: vec![
            (String::from("v"), String::new()),
            (String::from("h"), String::new()),
        ],
    };
    assert_eq!(PlaceHold::plan(&flags), HoldAction::Help);
    let only_v = Flag { flags: vec![(String::from("version"), String::new())] };
    assert_eq!(PlaceHold::plan(&only_v), HoldAction::Version);
    let none = Flag { flags: vec![] };
    assert_eq!(PlaceHold::plan(&none), HoldAction::Nothing);
}

#[test]
fn dir_name_takes_the_stem_and_keeps_hidden_files_whole() {
    assert_eq!(MakeNestedDir::dir_name(&String::from("movie.part1.mkv")), "movie.part1");
    assert_eq!(MakeNestedDir::dir_name(&String::from("notes")), "notes");
    assert_eq!(MakeNestedDir::dir_name(&String::from(".bashrc")), ".bashrc");
    assert_eq!(MakeNestedDir::dir_name(&String::from("tail.")), "tail");
}

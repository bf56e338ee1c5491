//! Which files are watched and which changes count.

use plexus::globs::{glob_set, GlobError};
use plexus::json::parse;
use plexus::task_managerv2::TaskManagerWatchData;
use plexus::watch_manager::{
    change_line, get_excludes, get_includes, get_project_info, get_refrences, normalize_pattern,
    project_of_task, read_tsconfig, walk_patterns, watch, watch_paths, watch_step1, AppWatcher,
    FileMatcher,
};
use plexus::watch_managerv2::{
    escape_glob_literal, init_watch_state, is_relevant, normalize_for_glob, ChangeKind,
    FileGlobSet, WatchEntry, WatchManager, WatchStep,
};

fn strings(v: &[&str]) -> Vec<String> {
    v.iter().map(|s| s.to_string()).collect()
}

#[test]
fn paths_become_patterns() {
    assert_eq!(normalize_for_glob("a\\b"), "a/b");
    assert_eq!(escape_glob_literal("/w/[x]/{a}*?"), "/w/[[]x[]]/[{]a[}][*][?]");
    assert_eq!(escape_glob_literal("plain/path"), "plain/path");
}

#[test]
fn an_escaped_path_matches_itself_only() {
    let set = FileGlobSet::new(&vec![escape_glob_literal("/w/[ab]")], &vec![]).ok().unwrap();
    assert!(set.is_match("/w/[ab]"));
    assert!(!set.is_match("/w/a"));
}

#[test]
fn every_character_of_a_path_can_be_escaped() {
    let path = "/w/[locale]/{a,b}/*?!^-.é/x.ts";
    let set = FileGlobSet::new(&vec![escape_glob_literal(path)], &vec![]).ok().unwrap();
    assert!(set.is_match(path));
    assert!(!set.is_match("/w/[locale]/a/*?!^-.é/x.ts"));
    assert!(!set.is_match("/w/[locale]/{a,b}/*?!^-.é/x.ts/y"));
    assert!(!set.is_match(""));
}

#[test]
fn all_below_a_directory_matches() {
    let d = TaskManagerWatchData {
        task_id: "t".into(),
        task_path: "/w/[locale]".into(),
        includes: vec![],
        excludes: vec![],
        use_default_watch_ignore: false,
    };
    let plan = init_watch_state(&d, &vec![], &vec![]);
    assert_eq!(plan.includes, vec!["/w/[[]locale[]]/**/*"]);
    let files = FileGlobSet::new(&plan.includes, &plan.excludes).ok().unwrap();
    assert!(files.is_match("/w/[locale]/a.ts"));
    assert!(files.is_match("/w/[locale]/a/b/.c"));
    assert!(files.is_match("/w/[locale]/.."));
    assert!(!files.is_match("/w/[locale]"));
    assert!(!files.is_match("/w/l/a.ts"));
}

#[test]
fn a_verbatim_path_reads_as_a_plain_one() {
    assert_eq!(normalize_for_glob("\\\\?\\C:\\w\\a"), "C:/w/a");
    assert_eq!(normalize_for_glob("C:\\w\\a"), "C:/w/a");
}

#[test]
fn included_files_match_unless_they_are_excluded() {
    let set = FileGlobSet::new(&strings(&["/w/**"]), &strings(&["**/dist/**"])).ok().unwrap();
    assert!(set.is_match("/w/src/a.ts"));
    assert!(!set.is_match("/w/dist/a.js"));
    assert!(!set.is_match("/x/a.ts"));
    assert!(set.matches_any(&strings(&["/x/a", "/w/b"])));
    assert!(!set.matches_any(&strings(&[])));
    let none = FileGlobSet::new(&vec![], &vec![]).ok().unwrap();
    assert!(!none.is_match("/w/a"));
}

#[test]
fn bad_patterns_are_named() {
    match glob_set(&strings(&["ok/**", "a[", "b["])) {
        Err(GlobError::InvalidPattern(p)) => assert_eq!(p, "a["),
        _ => panic!("accepted"),
    }
    assert!(matches!(
        FileGlobSet::new(&strings(&["x"]), &strings(&["{a"])),
        Err(GlobError::InvalidPattern(_))
    ));
}

#[test]
fn changes_of_metadata_do_not_count() {
    assert!(is_relevant(ChangeKind::Create));
    assert!(is_relevant(ChangeKind::Remove));
    assert!(is_relevant(ChangeKind::ModifyData));
    assert!(is_relevant(ChangeKind::ModifyName));
    assert!(!is_relevant(ChangeKind::ModifyOther));
    assert!(!is_relevant(ChangeKind::Other));
}

#[test]
fn a_task_watches_its_directory() {
    let d = TaskManagerWatchData {
        task_id: "t".into(),
        task_path: "/w/a".into(),
        includes: vec![],
        excludes: vec![],
        use_default_watch_ignore: true,
    };
    let entries = vec![
        WatchEntry { path: "/w/a/src".into(), is_file: false, is_dir: true },
        WatchEntry { path: "/w/a/x.ts".into(), is_file: true, is_dir: false },
    ];
    let plan = init_watch_state(&d, &strings(&["tmp"]), &entries);
    let files = FileGlobSet::new(&plan.includes, &plan.excludes).ok().unwrap();
    assert!(files.is_match("/w/a/src/m.ts"));
    assert!(!files.is_match("/w/a/node_modules/m.js"));
    assert!(!plan.watch.is_empty());
    let mut m = WatchManager::new(vec![]);
    m.watch_task("t".into(), files);
    assert_eq!(m.concerned_tasks(&strings(&["/w/a/src/m.ts"])), vec!["t"]);
    assert!(m.concerned_tasks(&strings(&["/elsewhere"])).is_empty());
    assert_eq!(m.main_loop(false, true), WatchStep::Wait);
    assert_eq!(m.main_loop(false, false), WatchStep::Exit);
    assert_eq!(m.main_loop(true, false), WatchStep::Begin);
}

#[test]
fn a_tsconfig_names_files() {
    let own = read_tsconfig(
        r#"{"include": ["src", 1], "exclude": ["dist"], "references": [{"path": "./a.json"}, {}]}"#,
    );
    assert_eq!(get_includes(&own), vec!["src"]);
    assert_eq!(get_excludes(&own), vec!["dist"]);
    assert_eq!(get_refrences(&own), vec!["./a.json"]);
    let other = parse(r#"{"include": ["lib/**"]}"#).unwrap();
    let (inc, exc) = get_project_info(&own, &vec![other]);
    assert_eq!(inc, vec!["src", "lib/**"]);
    assert_eq!(exc, vec!["dist"]);
    assert!(get_includes(&read_tsconfig("no json")).is_empty());
}

#[test]
fn a_directory_stands_for_what_is_in_it() {
    assert_eq!(normalize_pattern("src/"), "src/**");
    assert_eq!(normalize_pattern("src"), "src/**");
    assert_eq!(normalize_pattern("src/*.ts"), "src/*.ts");
    assert_eq!(normalize_pattern(&normalize_pattern("src")), "src/**");
    assert_eq!(walk_patterns(&strings(&["a"]), &strings(&["b"])), vec!["a", "!b"]);
    assert_eq!(project_of_task("web:dev:css"), "web");
    assert_eq!(project_of_task("web"), "web");
}

#[test]
fn files_match_below_their_project() {
    let m = FileMatcher::new("/w/a".into(), &strings(&["src"]), &strings(&["src/gen"])).ok().unwrap();
    assert!(m.is_match("/w/a/src/x.ts"));
    assert!(!m.is_match("/w/a/src/gen/x.ts"));
    assert!(!m.is_match("/w/b/src/x.ts"));
    assert!(!m.is_match("/w/ab/src/x.ts"));
    let m2 = FileMatcher::new("C:/p".into(), &strings(&["src"]), &vec![]).ok().unwrap();
    assert!(m2.is_match("C:/p/src/a.ts"));
    assert!(!m2.is_match("D:/p/src/a.ts"));
    assert!(!m2.is_match("C:/q/src/a.ts"));
    assert!(m.is_match_below("src/x.ts"));
    assert!(m.is_match_below("src/"));
    assert!(!m.is_match_below("src"));
    assert!(FileMatcher::new("/w".into(), &strings(&["[*"]), &vec![]).is_err());
}

#[test]
fn every_project_that_a_change_concerns_is_told_once() {
    let all = AppWatcher { name: "all".into(), path: "/w".into(), glob_set: None };
    let src = watch_step1("a", "/w/a", &strings(&["src"]), &vec![], &strings(&["tmp"])).ok().unwrap();
    let lib = watch_step1("b", "/w/b", &strings(&["lib"]), &vec![], &vec![]).ok().unwrap();
    assert_eq!(src.glob_set.as_ref().unwrap().excludes, vec!["tmp"]);
    let drive = watch_step1("d", "C:/p", &strings(&["src"]), &vec![], &vec![]).ok().unwrap();
    assert!(drive.concerns(&strings(&["C:/p/src/x"])));
    assert_eq!(watch(&vec![drive], &strings(&["C:/p/src/x"])), vec!["d"]);
    let watchers = vec![all, src, lib];
    assert_eq!(watch(&watchers, &strings(&["/w/a/src/x"])), vec!["all", "a"]);
    assert_eq!(watch(&watchers, &strings(&["/w/b/lib/x", "/w/a/src/y"])), vec!["all", "a", "b"]);
    assert_eq!(watch(&watchers, &strings(&["/w/c"])), vec!["all"]);
    assert!(watch(&vec![], &strings(&["/w/c"])).is_empty());
    let twice = || AppWatcher { name: "all".into(), path: "/w".into(), glob_set: None };
    assert_eq!(watch(&vec![twice(), twice()], &strings(&["/w/c"])), vec!["all"]);
    assert_eq!(watch_paths(&watchers[0], vec![]), vec![("/w".to_string(), true)]);
    assert_eq!(
        watch_paths(&watchers[1], vec![("/w/a/src".to_string(), false)]),
        vec![("/w/a/src".to_string(), false)]
    );
    assert_eq!(change_line("x"), "File change detected: x");
}

#[test]
fn without_patterns_to_be_included_nothing_matches() {
    let w = watch_step1("a", "/w/a", &vec![], &strings(&["dist"]), &vec![]).ok().unwrap();
    assert!(!w.concerns(&strings(&["/w/a/src/x"])));
    let w = watch_step1("a", "/w/a", &vec![], &vec![], &vec![]).ok().unwrap();
    assert!(w.concerns(&strings(&["/w/a/src/x"])));
}

#[test]
fn an_escaped_path_can_end_at_a_parent() {
    let only = |p: &str| FileGlobSet::new(&vec![escape_glob_literal(p)], &vec![]).ok().unwrap();
    assert!(only("/w/a/..").is_match("/w/a/.."));
    assert!(only("/w/[a]..").is_match("/w/[a].."));
    assert!(!only("/w/[a]/..").is_match("/w/[a]/.."));
    assert!(only("..").is_match(".."));
}

#[test]
fn names_always_make_a_set() {
    assert!(glob_set(&vec![]).is_ok());
    assert!(glob_set(&strings(&["a", "b/c.ts", "src/**", "/**", "*.ts"])).is_ok());
    let ts = FileGlobSet::new(&strings(&["*.ts"]), &vec![]).ok().unwrap();
    assert!(ts.is_match("/w/a.b.ts") && ts.is_match(".ts"));
    assert!(!ts.is_match("/w/a.tsx") && !ts.is_match("/w/ats"));
    assert!(FileGlobSet::new(&vec![], &strings(&["node_modules/**"])).is_ok());
    let m = FileMatcher::new("/w".into(), &strings(&["src", "lib/"]), &vec![]).ok().unwrap();
    assert!(m.is_match("/w/lib/x"));
    assert!(!m.is_match("/w/lib"));
}

#[test]
fn simple_patterns_always_make_a_set() {
    let many = strings(&["src/**/*.ts", "**/*.log", "a?b", "**", "x,y", "a]", ""]);
    assert!(glob_set(&many).is_ok());
    let deep = format!("{}/**/*", escape_glob_literal(&"/w/[a]é".repeat(600)));
    assert!(glob_set(&vec![deep]).is_ok());
    assert!(glob_set(&vec!["*".repeat(9000)]).is_ok());
    assert!(glob_set(&vec!["**/".repeat(3000)]).is_ok());
    assert!(glob_set(&vec![String::new(); 9000]).is_ok());
    assert!(glob_set(&vec!["*é*".repeat(3000)]).is_ok());
    let files = FileGlobSet::new(&many, &strings(&["**/dist/**"])).ok().unwrap();
    assert!(files.is_match("/w/a.log"));
}

#[test]
fn a_pattern_with_a_backslash_leaves_the_others_alone() {
    let files = FileGlobSet::new(&strings(&["/w/a.ts", "x\\y"]), &vec![]).ok().unwrap();
    assert!(files.is_match("/w/a.ts"));
    let files = FileGlobSet::new(&strings(&["x\\y", "/w/**"]), &strings(&["/w/a.ts"])).ok().unwrap();
    assert!(!files.is_match("/w/a.ts"));
    let m = FileMatcher::new("/w".into(), &strings(&["x\\y", "src"]), &vec![]).ok().unwrap();
    assert!(m.is_match("/w/src/a.ts"));
}

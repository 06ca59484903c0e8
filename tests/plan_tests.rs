use bulk_cp::error::RenameError;
use bulk_cp::matcher::Matcher;
use bulk_cp::plan::{
    child_path, into_directory, plan_file, sort_listing, validate_plan, Change, DirEntry,
};
use bulk_cp::run::{invokes_move, plan_steps, prepare_run, RunOptions, Step};
use bulk_cp::template::{parse_destination, Template};

fn compile(s: &str) -> Template {
    match parse_destination(s) {
        Ok(t) => t,
        Err(e) => panic!("template {:?} refused: {:?}", s, e),
    }
}

fn matcher(p: &str, floating: bool) -> Matcher {
    match Matcher::new(p, floating) {
        Ok(m) => m,
        Err(e) => panic!("pattern {:?} refused: {:?}", p, e),
    }
}

fn entry(name: &str, is_dir: bool) -> DirEntry {
    DirEntry { name: name.to_string(), is_dir }
}

fn change(s: &str, d: &str) -> Change {
    Change { source: s.to_string(), destination: d.to_string() }
}

fn matches(m: &Matcher, s: &str) -> bool {
    m.captures(s).is_some()
}

#[test]
fn anchored_pattern_must_cover_the_name() {
    let m = matcher("abc", false);
    assert!(matches(&m, "abc"));
    assert!(!matches(&m, "xabcx"));
}

#[test]
fn floating_pattern_matches_anywhere() {
    let m = matcher("abc", true);
    assert!(matches(&m, "abc"));
    assert!(matches(&m, "xabcx"));
}

#[test]
fn anchoring_covers_alternation() {
    let m = matcher("a|b", false);
    assert!(matches(&m, "a"));
    assert!(!matches(&m, "ab"));
    assert!(!matches(&m, "xb"));
}

#[test]
fn captures_give_each_group() {
    let m = matcher("([a-z]+)(x)?([0-9])", false);
    assert_eq!(
        m.captures("ab1"),
        Some(vec![Some("ab1".to_string()), Some("ab".to_string()), None, Some("1".to_string())])
    );
}

#[test]
fn bad_pattern_is_refused() {
    assert!(matches!(Matcher::new("foo(bar", true), Err(RenameError::InvalidPattern { .. })));
    assert!(matches!(Matcher::new("foo(bar", false), Err(RenameError::InvalidPattern { .. })));
}

#[test]
fn plan_renders_matching_files_only() {
    let m = matcher(r"a([0-9])\.txt", false);
    let t = compile("dest_%1.dat");
    assert_eq!(plan_file(&m, &t, "a1.txt").unwrap(), Some("dest_1.dat".to_string()));
    assert_eq!(plan_file(&m, &t, "b1.txt").unwrap(), None);
}

#[test]
fn plan_reports_missing_group() {
    let m = matcher("a(b)?c", false);
    let t = compile("%1");
    match plan_file(&m, &t, "ac") {
        Err(RenameError::CaptureGroupMissing { source, index }) => {
            assert_eq!(source, "ac");
            assert_eq!(index, 1);
        }
        other => panic!("{:?}", other),
    }
}

#[test]
fn scenario_three_files_in_one_directory() {
    let m = matcher(r"a([0-9])\.txt", false);
    let t = compile("dest_%1.dat");
    let listing = sort_listing(
        "",
        &vec![entry("a1.txt", false), entry("a2.txt", false), entry("b1.txt", false)],
        false,
    );
    let mut plan = Vec::new();
    for f in &listing.files {
        if let Some(d) = plan_file(&m, &t, &f.path).unwrap() {
            plan.push((f.path.clone(), into_directory(&d, &f.name, false)));
        }
    }
    assert_eq!(
        plan,
        vec![
            ("a1.txt".to_string(), "dest_1.dat".to_string()),
            ("a2.txt".to_string(), "dest_2.dat".to_string()),
        ]
    );
}

#[test]
fn scenario_recursive_anchored_log_files() {
    let m = matcher(r".*\.log", false);
    let top = sort_listing("", &vec![entry("logs", true)], true);
    assert!(top.files.is_empty());
    assert_eq!(top.subdirs, vec!["logs".to_string()]);
    let inner = sort_listing(
        "logs",
        &vec![entry("app.log", false), entry("app.log.bak", false)],
        true,
    );
    let matched: Vec<String> =
        inner.files.iter().filter(|f| matches(&m, &f.path)).map(|f| f.path.clone()).collect();
    assert_eq!(matched, vec!["logs/app.log".to_string()]);
}

#[test]
fn directories_are_skipped_without_recursion() {
    let l = sort_listing("", &vec![entry("logs", true), entry("a.txt", false)], false);
    assert!(l.subdirs.is_empty());
    assert_eq!(l.files.len(), 1);
    assert_eq!(l.files[0].path, "a.txt");
    assert_eq!(l.files[0].name, "a.txt");
}

#[test]
fn child_paths_have_no_leading_marker() {
    assert_eq!(child_path("", "a.txt"), "a.txt");
    assert_eq!(child_path("logs", "a.txt"), "logs/a.txt");
    assert_eq!(child_path("logs/old", "a.txt"), "logs/old/a.txt");
}

#[test]
fn directory_target_gets_the_file_name() {
    assert_eq!(into_directory("backup", "a.txt", true), "backup/a.txt");
    assert_eq!(into_directory("backup/", "a.txt", true), "backup/a.txt");
    assert_eq!(into_directory("backup", "a.txt", false), "backup");
    assert_eq!(into_directory("", "a.txt", true), "/a.txt");
}

#[test]
fn collision_is_refused() {
    let plan = vec![change("a.txt", "out.txt"), change("b.txt", "out.txt")];
    match validate_plan(&plan) {
        Err(RenameError::DestinationCollision { destination, first, second }) => {
            assert_eq!(destination, "out.txt");
            assert_eq!((first, second), (0, 1));
        }
        other => panic!("{:?}", other),
    }
    assert!(prepare_run(&plan, &RunOptions { moving: false, dry_run: false, silent: false })
        .is_err());
}

#[test]
fn collision_is_found_when_not_adjacent() {
    let plan = vec![change("a", "x"), change("b", "y"), change("c", "x")];
    match validate_plan(&plan) {
        Err(RenameError::DestinationCollision { first, second, .. }) => {
            assert_eq!((first, second), (0, 2));
        }
        other => panic!("{:?}", other),
    }
}

#[test]
fn empty_plan_is_nothing_to_do() {
    assert!(matches!(validate_plan(&Vec::new()), Err(RenameError::NothingToDo)));
    let opts = RunOptions { moving: true, dry_run: false, silent: false };
    assert!(matches!(prepare_run(&Vec::new(), &opts), Err(RenameError::NothingToDo)));
}

#[test]
fn distinct_plan_is_accepted() {
    let plan = vec![change("a", "x"), change("b", "y")];
    assert!(validate_plan(&plan).is_ok());
}

fn printed(steps: &[Step]) -> Vec<String> {
    steps
        .iter()
        .filter_map(|s| match s {
            Step::Print(t) => Some(t.clone()),
            _ => None,
        })
        .collect()
}

#[test]
fn dry_run_reports_the_same_plan_and_touches_nothing() {
    let plan = vec![change("a1.txt", "dest_1.dat"), change("a2.txt", "dest_2.dat")];
    let dry = plan_steps(&plan, &RunOptions { moving: false, dry_run: true, silent: false });
    let wet = plan_steps(&plan, &RunOptions { moving: false, dry_run: false, silent: false });
    assert_eq!(printed(&dry), printed(&wet));
    assert_eq!(
        printed(&dry),
        vec![
            "Copying:".to_string(),
            "a1.txt -> dest_1.dat".to_string(),
            "a2.txt -> dest_2.dat".to_string()
        ]
    );
    assert!(dry.iter().all(|s| matches!(s, Step::Print(_))));
    assert_eq!(wet.len(), 5);
    assert!(matches!(&wet[2], Step::Copy { from, to } if from == "a1.txt" && to == "dest_1.dat"));
}

#[test]
fn moving_and_silent_steps() {
    let plan = vec![change("a", "b")];
    let steps = plan_steps(&plan, &RunOptions { moving: true, dry_run: false, silent: true });
    assert_eq!(steps.len(), 1);
    assert!(matches!(&steps[0], Step::Rename { from, to } if from == "a" && to == "b"));
    let steps = plan_steps(&plan, &RunOptions { moving: true, dry_run: false, silent: false });
    assert_eq!(printed(&steps), vec!["Moving:".to_string(), "a -> b".to_string()]);
}

#[test]
fn dry_run_with_silent_is_a_usage_conflict() {
    assert!(matches!(RunOptions::new(false, true, true, "bulk_cp"), Err(RenameError::UsageConflict)));
}

#[test]
fn invocation_name_selects_moving() {
    assert!(invokes_move("bulkmv"));
    assert!(invokes_move("mv"));
    assert!(!invokes_move("bulkcp"));
    assert!(!invokes_move("m"));
    assert!(!invokes_move(""));
    let o = RunOptions::new(false, false, false, "bulkmv").unwrap();
    assert!(o.moving);
    let o = RunOptions::new(false, true, false, "bulkcp").unwrap();
    assert!(!o.moving && o.dry_run && !o.silent);
    let o = RunOptions::new(true, false, true, "bulkcp").unwrap();
    assert!(o.moving && o.silent);
}

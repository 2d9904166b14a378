use rpg_primitive_survey::audit::audit_report;
use rpg_primitive_survey::audit::needs_measuring;
use rpg_primitive_survey::audit::audit_verdict;
use rpg_primitive_survey::audit::ignore_probes;
use rpg_primitive_survey::audit::path_violation;
use rpg_primitive_survey::audit::size_violation;
use rpg_primitive_survey::audit::unignored_probe;
use rpg_primitive_survey::safety::check_containment;
use rpg_primitive_survey::safety::check_crossing;
use rpg_primitive_survey::safety::check_resolved_work_root;
use rpg_primitive_survey::safety::check_work_root;
use rpg_primitive_survey::safety::total_bytes;
use rpg_primitive_survey::safety::validate_study_id;
use rpg_primitive_survey::safety::ComponentKind;

#[test]
fn study_ids_are_short_ascii_names() {
    assert_eq!(validate_study_id("example-system_2"), Ok(()));
    assert_eq!(validate_study_id(&"a".repeat(80)), Ok(()));
    assert!(validate_study_id(&"a".repeat(81)).is_err());
    assert_eq!(
        validate_study_id("../escape"),
        Err("study id \"../escape\" must contain only ASCII letters, digits, '-' or '_'".to_owned())
    );
    assert!(validate_study_id("").is_err());
    assert!(validate_study_id("café").is_err());
}

#[test]
fn work_roots_must_be_dedicated() {
    assert_eq!(
        check_work_root(true, false),
        Err("work root must be a dedicated directory, not '/'".to_owned())
    );
    assert_eq!(check_work_root(false, true), Err("work root must not be the home directory".to_owned()));
    assert_eq!(check_work_root(false, false), Ok(()));
    assert_eq!(
        check_resolved_work_root(true, true),
        Err("work root must not be a source repository root".to_owned())
    );
    assert_eq!(check_resolved_work_root(true, false), Ok(()));
}

#[test]
fn joined_paths_stay_inside_their_root() {
    assert_eq!(
        check_containment("studies/x", false, &vec![ComponentKind::Normal, ComponentKind::Normal]),
        Ok(())
    );
    assert_eq!(
        check_containment("a/../b", false, &vec![ComponentKind::Normal, ComponentKind::ParentDir, ComponentKind::Normal]),
        Err("path a/../b escapes its work root".to_owned())
    );
    assert!(check_containment("/etc", true, &vec![ComponentKind::RootDir, ComponentKind::Normal]).is_err());
    assert_eq!(
        check_crossing("a/b", "/w/a", true),
        Err("path a/b crosses symlink /w/a, refusing work-root escape".to_owned())
    );
    assert_eq!(check_crossing("a/b", "/w/a", false), Ok(()));
    assert_eq!(total_bytes(&vec![1, 2, 3]), 6);
    assert_eq!(total_bytes(&vec![u64::MAX, 2]), u64::MAX);
}

#[test]
fn tracked_file_hygiene() {
    assert_eq!(
        path_violation(".work/studies/x/inventory.json").as_deref(),
        Some(".work/studies/x/inventory.json: generated survey/work-root path")
    );
    assert_eq!(
        path_violation("docs/studies/notes.md").as_deref(),
        Some("docs/studies/notes.md: generated survey/work-root path")
    );
    assert_eq!(
        path_violation("tests/fixtures/packs/items.db").as_deref(),
        Some("tests/fixtures/packs/items.db: forbidden data/binary extension")
    );
    assert_eq!(path_violation("src/main.rs"), None);
    assert_eq!(path_violation("assets/logo.PNG"), None);
    assert_eq!(size_violation("big.json", 11, 10).as_deref(), Some("big.json: 11 bytes exceeds tracked-file limit 10"));
    assert_eq!(size_violation("ok.json", 10, 10), None);
    assert_eq!(ignore_probes(), vec![".work/survey-probe".to_owned(), ".survey-work/survey-probe".to_owned()]);
    assert_eq!(
        unignored_probe(".work/survey-probe"),
        ".work/survey-probe: required local work root is not ignored"
    );
    assert_eq!(audit_verdict(&Vec::new()), Ok(()));
    assert_eq!(
        audit_verdict(&vec!["a: x".to_owned(), "b: y".to_owned()]),
        Err("tracked-file audit rejected:\na: x\nb: y".to_owned())
    );
}

#[test]
fn audit_reports_probes_then_files_and_measures_only_plain_names() {
    assert!(!needs_measuring(".work/x"));
    assert!(!needs_measuring("data/a.zip"));
    assert!(needs_measuring("src/lib.rs"));
    let probes = vec![(".work/survey-probe".to_owned(), true), (".survey-work/survey-probe".to_owned(), false)];
    let files = vec![
        ("data/a.zip".to_owned(), None),
        ("src/lib.rs".to_owned(), Some(20)),
        ("src/big.rs".to_owned(), Some(11)),
    ];
    assert_eq!(
        audit_report(&probes, &files, 15),
        Err("tracked-file audit rejected:\n.survey-work/survey-probe: required local work root is not ignored\n\
             data/a.zip: forbidden data/binary extension\nsrc/lib.rs: 20 bytes exceeds tracked-file limit 15"
            .to_owned())
    );
    let clean = vec![(".work/survey-probe".to_owned(), true)];
    assert_eq!(audit_report(&clean, &vec![("src/lib.rs".to_owned(), Some(3))], 15), Ok(()));
}

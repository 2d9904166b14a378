use rpg_primitive_survey::cli::parse_profile;
use rpg_primitive_survey::cli::parse_u64;
use rpg_primitive_survey::cli::parse_usize;
use rpg_primitive_survey::cli::select_command;
use rpg_primitive_survey::cli::usage;
use rpg_primitive_survey::cli::Command;
use rpg_primitive_survey::cli::ParsedOptions;
use rpg_primitive_survey::model::Limits;
use rpg_primitive_survey::model::SurveyProfile;

fn args(items: &[&str]) -> Vec<String> {
    items.iter().map(|s| s.to_string()).collect()
}

fn options(items: &[&str]) -> ParsedOptions {
    ParsedOptions::parse(&args(items)).expect("options parse")
}

#[test]
fn options_are_name_value_pairs() {
    let parsed = options(&["--study", "s", "--include-source", "a", "--include-source", "b"]);
    assert_eq!(parsed.many("include-source"), args(&["a", "b"]));
    assert_eq!(parsed.one("study"), Ok(Some("s".to_owned())));
    assert_eq!(parsed.one("work-root"), Ok(None));
    assert_eq!(
        parsed.one("include-source"),
        Err("--include-source may be specified only once".to_owned())
    );
    assert_eq!(parsed.required_one("repository"), Err("missing required --repository".to_owned()));
}

#[test]
fn malformed_option_lists_are_refused() {
    assert_eq!(
        ParsedOptions::parse(&args(&["study", "s"])).err(),
        Some("expected --option, found \"study\"".to_owned())
    );
    assert_eq!(
        ParsedOptions::parse(&args(&["--study"])).err(),
        Some("missing value for --study".to_owned())
    );
    assert_eq!(
        ParsedOptions::parse(&args(&["--study", "--repository", "x"])).err(),
        Some("missing value for --study".to_owned())
    );
}

#[test]
fn unknown_options_are_named() {
    let parsed = options(&["--study", "s", "--colour", "blue"]);
    assert_eq!(parsed.reject_unknown(&vec!["study"]), Err("unknown option --colour".to_owned()));
    assert_eq!(parsed.reject_unknown(&vec!["study", "colour"]), Ok(()));
}

#[test]
fn limits_default_and_parse() {
    assert_eq!(options(&[]).limits(), Ok(Limits::default()));
    let parsed = options(&["--max-decoded-documents", "2", "--max-repository-bytes", "+17"]);
    let limits = parsed.limits().expect("limits");
    assert_eq!(limits.max_decoded_documents, 2);
    assert_eq!(limits.max_repository_bytes, 17);
    assert_eq!(limits.max_unique_shapes, 5_000);
    assert_eq!(
        options(&["--max-unique-shapes", "many"]).limits(),
        Err("invalid --max-unique-shapes value \"many\": invalid digit found in string".to_owned())
    );
}

#[test]
fn numeric_options_report_the_parse_error() {
    assert_eq!(parse_u64("max-tracked-bytes", None, 1_000_000), Ok(1_000_000));
    assert_eq!(parse_u64("max-tracked-bytes", Some("42".to_owned()), 1), Ok(42));
    assert_eq!(
        parse_u64("max-tracked-bytes", Some("".to_owned()), 1),
        Err("invalid --max-tracked-bytes value \"\": cannot parse integer from empty string".to_owned())
    );
    assert_eq!(
        parse_u64("n", Some("18446744073709551616".to_owned()), 1),
        Err("invalid --n value \"18446744073709551616\": number too large to fit in target type".to_owned())
    );
    assert_eq!(
        parse_usize("n", Some("-1".to_owned()), 1),
        Err("invalid --n value \"-1\": invalid digit found in string".to_owned())
    );
    assert_eq!(parse_usize("n", Some("007".to_owned()), 1), Ok(7));
}

#[test]
fn fallbacks_are_key_value_pairs_sorted_by_key() {
    let parsed = options(&[
        "--source-fallback",
        "zeta=core",
        "--source-fallback",
        "alpha=supplement=2",
    ]);
    assert_eq!(
        parsed.key_values("source-fallback"),
        Ok(vec![
            ("alpha".to_owned(), "supplement=2".to_owned()),
            ("zeta".to_owned(), "core".to_owned()),
        ])
    );
    assert_eq!(
        options(&["--source-fallback", "nokey"]).key_values("source-fallback"),
        Err("--source-fallback value \"nokey\" must use KEY=VALUE syntax".to_owned())
    );
    assert_eq!(
        options(&["--source-fallback", "=core"]).key_values("source-fallback"),
        Err("--source-fallback value \"=core\" must have non-empty key and value".to_owned())
    );
    assert_eq!(
        options(&["--source-fallback", "a=b", "--source-fallback", "a=c"]).key_values("source-fallback"),
        Err("--source-fallback defines key \"a\" more than once".to_owned())
    );
}

#[test]
fn profiles_are_named() {
    assert_eq!(parse_profile(None), Ok(SurveyProfile::Generic));
    assert_eq!(parse_profile(Some("foundry-pf2e".to_owned())), Ok(SurveyProfile::FoundryPf2e));
    assert_eq!(parse_profile(Some("foundry-dnd5e".to_owned())), Ok(SurveyProfile::FoundryDnd5e));
    assert_eq!(
        parse_profile(Some("gurps".to_owned())),
        Err("unknown survey profile \"gurps\"; expected generic, foundry-dnd5e, or foundry-pf2e".to_owned())
    );
    assert!(!SurveyProfile::Generic.normalizes_identifier_maps());
    assert!(SurveyProfile::FoundryDnd5e.normalizes_identifier_maps());
}

#[test]
fn commands_are_selected_by_their_first_word() {
    let (command, parsed) = select_command(&args(&["scan", "--study", "s"])).expect("scan");
    assert_eq!(command, Command::Scan);
    assert_eq!(parsed.values, vec![("study".to_owned(), "s".to_owned())]);
    assert_eq!(select_command(&args(&["-h"])).map(|(c, _)| c), Ok(Command::Help));
    assert_eq!(select_command(&args(&["tracked-audit"])).map(|(c, _)| c), Ok(Command::TrackedAudit));
    assert_eq!(select_command(&args(&[])).err(), Some(usage()));
    assert_eq!(
        select_command(&args(&["import"])).err(),
        Some(format!("unknown command \"import\"\n\n{}", usage()))
    );
    assert!(usage().starts_with("Usage:\n  rpg-primitive-survey inventory --study ID --repository URL"));
    assert!(usage().ends_with("  --max-unresolved-documents N"));
}

#[test]
fn inventory_requests_take_defaults() {
    let parsed = options(&["--study", "demo", "--repository", "https://x.invalid/r.git"]);
    assert_eq!(
        parsed.inventory_start(),
        Ok(args(&["demo", "https://x.invalid/r.git", "main", ".work"]))
    );
    let request = parsed
        .inventory_options("demo".to_owned(), "https://x.invalid/r.git".to_owned(), "main".to_owned(), ".work/studies".to_owned())
        .expect("options");
    assert_eq!(request.manifest_path, "system.json");
    assert_eq!(request.profile, SurveyProfile::Generic);
    assert!(request.source_fallbacks.is_empty());
    assert_eq!(request.limits, Limits::default());

    let bad_study = options(&["--study", "../up", "--repository", "r"]);
    assert!(bad_study.inventory_start().is_err());
    let unknown = options(&["--study", "demo", "--include-source", "core"]);
    assert_eq!(unknown.inventory_start(), Err("unknown option --include-source".to_owned()));
}

#[test]
fn inventory_requests_carry_fallbacks_and_roots() {
    let parsed = options(&[
        "--study",
        "demo",
        "--repository",
        "r",
        "--source-fallback",
        "synthetic-actions=core",
        "--content-root",
        "content",
        "--source-pointer",
        "/source",
        "--profile",
        "foundry-dnd5e",
    ]);
    let request = parsed
        .inventory_options("demo".to_owned(), "r".to_owned(), "main".to_owned(), "w/studies".to_owned())
        .expect("options");
    assert_eq!(request.source_fallbacks.len(), 1);
    assert_eq!(request.source_fallbacks[0].pack_id, "synthetic-actions");
    assert_eq!(request.source_fallbacks[0].source, "core");
    assert_eq!(request.content_roots, args(&["content"]));
    assert_eq!(request.source_pointers, args(&["/source"]));
    assert_eq!(request.profile, SurveyProfile::FoundryDnd5e);
}

#[test]
fn scan_and_audit_requests() {
    let parsed = options(&["--study", "demo", "--include-source", "core", "--max-unique-shapes", "1"]);
    assert_eq!(parsed.scan_start(), Ok(args(&["demo", ".work"])));
    let request = parsed.scan_options("demo".to_owned(), ".work/studies".to_owned()).expect("scan");
    assert_eq!(request.included_sources, args(&["core"]));
    assert_eq!(request.limits.max_unique_shapes, 1);

    assert_eq!(options(&[]).audit_request(), Ok((".".to_owned(), 1_000_000)));
    assert_eq!(
        options(&["--repository-root", "/tmp/r", "--max-tracked-bytes", "10"]).audit_request(),
        Ok(("/tmp/r".to_owned(), 10))
    );
    assert_eq!(options(&["--study", "x"]).audit_request(), Err("unknown option --study".to_owned()));
}

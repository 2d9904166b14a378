use rpg_primitive_survey::git_source::check_clean_status;
use rpg_primitive_survey::git_source::check_existing_checkout;
use rpg_primitive_survey::git_source::check_fetched_commit;
use rpg_primitive_survey::git_source::failure_message;
use rpg_primitive_survey::git_source::fetch_failure_is_limit;
use rpg_primitive_survey::git_source::fetch_file_cap;
use rpg_primitive_survey::git_source::inspect_remote_outputs;
use rpg_primitive_survey::git_source::lines;
use rpg_primitive_survey::git_source::materialize_step;
use rpg_primitive_survey::git_source::projected_bytes;
use rpg_primitive_survey::git_source::reserve_exhausted;
use rpg_primitive_survey::git_source::tree_estimate;
use rpg_primitive_survey::git_source::tree_materialization_size;
use rpg_primitive_survey::git_source::words_of;
use rpg_primitive_survey::git_source::MaterializeEvent;
use rpg_primitive_survey::git_source::MaterializeOutcome;
use rpg_primitive_survey::git_source::MaterializeState;
use rpg_primitive_survey::git_source::MATERIALIZATION_RESERVE_BYTES;

#[test]
fn missing_main_fails_without_silent_default_branch_substitution() {
    let symref = "ref: refs/heads/trunk\tHEAD\n0123456789abcdef0123456789abcdef01234567\tHEAD\n";
    let heads = "0123456789abcdef0123456789abcdef01234567\trefs/heads/trunk\n\
                 89abcdef0123456789abcdef0123456789abcdef\trefs/heads/feature\n";
    let error = inspect_remote_outputs("", symref, heads, "main").expect_err("main is absent");
    assert!(error.contains("SURVEY_REF_UNAVAILABLE"), "{error}");
    assert!(error.contains("detected default: trunk"), "{error}");
    assert_eq!(
        error,
        "SURVEY_REF_UNAVAILABLE: requested ref \"main\" does not exist; detected default: trunk; \
         available heads: feature, trunk. Specify --ref explicitly; no branch was substituted"
    );
}

#[test]
fn an_existing_ref_is_pinned_to_its_commit() {
    let requested = "0123456789abcdef0123456789abcdef01234567\trefs/heads/main\n";
    let evidence = inspect_remote_outputs(requested, "", "", "main").expect("main exists");
    assert_eq!(evidence.commit, "0123456789abcdef0123456789abcdef01234567");
}

#[test]
fn an_unknown_default_and_no_heads_are_named_as_such() {
    let error = inspect_remote_outputs("  \n", "", "", "develop").expect_err("absent");
    assert_eq!(
        error,
        "SURVEY_REF_UNAVAILABLE: requested ref \"develop\" does not exist; detected default: <unknown>; \
         available heads: <none>. Specify --ref explicitly; no branch was substituted"
    );
}

#[test]
fn lines_and_words_split_like_the_standard_library() {
    assert_eq!(lines("a\nb\r\n\nc"), vec!["a", "b", "", "c"]);
    assert_eq!(lines("a\n"), vec!["a"]);
    assert!(lines("").is_empty());
    assert_eq!(words_of("  one\ttwo  three\n"), vec!["one", "two", "three"]);
    assert!(words_of(" \t ").is_empty());
}

#[test]
fn tree_listing_sizes_are_summed() {
    let listing = "100644 blob aaaa     120\tsystem.json\n\
                   160000 commit bbbb       -\tvendor/sub\n\
                   100644 blob cccc 30\tpacks/items.json\n";
    assert_eq!(tree_materialization_size(listing), (150, 3));
    assert_eq!(tree_materialization_size(""), (0, 0));
    assert_eq!(tree_estimate(150, 3), 150 + 3 * 256 + MATERIALIZATION_RESERVE_BYTES);
    assert_eq!(tree_estimate(u64::MAX, 1), u64::MAX);
    assert_eq!(projected_bytes(10, 150, 3), 10 + 150 + 768 + MATERIALIZATION_RESERVE_BYTES);
}

#[test]
fn fetch_bounds_leave_the_reserve() {
    assert_eq!(
        reserve_exhausted(MATERIALIZATION_RESERVE_BYTES),
        Some(MaterializeOutcome::LimitExceeded { observed_bytes: MATERIALIZATION_RESERVE_BYTES + 1 })
    );
    assert_eq!(reserve_exhausted(MATERIALIZATION_RESERVE_BYTES + 1), None);
    assert_eq!(fetch_file_cap(MATERIALIZATION_RESERVE_BYTES + 10), 5);
    assert_eq!(fetch_file_cap(5), 0);
    assert!(fetch_failure_is_limit("error: early EOF\nfatal: fetch-pack"));
    assert!(fetch_failure_is_limit("killed by signal 25"));
    assert!(!fetch_failure_is_limit("fatal: repository not found"));
}

#[test]
fn checkout_checks_name_both_commits() {
    assert_eq!(check_clean_status(" \n"), Ok(()));
    assert_eq!(
        check_clean_status("?? stray.txt\n"),
        Err("SURVEY_CHECKOUT_DIRTY: pinned checkout contains tracked, untracked, or ignored changes:\n?? stray.txt".to_owned())
    );
    assert_eq!(check_existing_checkout("abc", "abc"), Ok(()));
    assert_eq!(
        check_existing_checkout("abc", "def"),
        Err("existing checkout is pinned to abc, expected def; use a different study id".to_owned())
    );
    assert_eq!(
        check_fetched_commit("abc", "def"),
        Err("fetched abc, expected exact pin def; refusing mixed-revision materialization".to_owned())
    );
    assert_eq!(failure_message("read fetched commit", "  fatal: bad\n"), "failed to read fetched commit: fatal: bad");
}

const PIN: &str = "0123456789abcdef0123456789abcdef01234567";

fn steps(events: Vec<MaterializeEvent>, max: u64) -> MaterializeState {
    let mut state = MaterializeState::Start;
    for event in events {
        state = materialize_step(state, event, PIN, max);
    }
    state
}

#[test]
fn a_fresh_materialisation_fetches_checks_out_and_verifies() {
    let max = 10_000_000;
    let mut state = MaterializeState::Start;
    state = materialize_step(state, MaterializeEvent::Exists(false), PIN, max);
    assert_eq!(state, MaterializeState::Prlimit);
    state = materialize_step(state, MaterializeEvent::Done, PIN, max);
    assert_eq!(state, MaterializeState::Estimate);
    state = materialize_step(state, MaterializeEvent::LocalTree(Some("100644 blob a 10\tf.json\n".to_owned())), PIN, max);
    assert_eq!(state, MaterializeState::Init);
    state = materialize_step(state, MaterializeEvent::Done, PIN, max);
    assert_eq!(state, MaterializeState::Fetching { file_cap: (max - MATERIALIZATION_RESERVE_BYTES) / 2 });
    state = materialize_step(state, MaterializeEvent::Fetched(None), PIN, max);
    assert_eq!(state, MaterializeState::FetchHead);
    state = materialize_step(state, MaterializeEvent::Text(format!("{PIN}\n")), PIN, max);
    assert_eq!(state, MaterializeState::FetchedSize);
    state = materialize_step(
        state,
        MaterializeEvent::Measured { git_bytes: 500, tree_listing: "100644 blob a 10\tf.json\n".to_owned() },
        PIN,
        max,
    );
    assert_eq!(state, MaterializeState::Checkout);
    state = materialize_step(state, MaterializeEvent::Done, PIN, max);
    assert_eq!(state, MaterializeState::MaterializedSize);
    state = materialize_step(state, MaterializeEvent::Bytes(2_000), PIN, max);
    assert_eq!(state, MaterializeState::MaterializedStatus);
    state = materialize_step(state, MaterializeEvent::Text(String::new()), PIN, max);
    assert_eq!(state, MaterializeState::Finished { outcome: Ok(MaterializeOutcome::Ready) });
}

#[test]
fn an_event_that_does_not_answer_the_state_changes_nothing() {
    let state = materialize_step(MaterializeState::Prlimit, MaterializeEvent::Bytes(3), PIN, 10_000_000);
    assert_eq!(state, MaterializeState::Prlimit);
}

#[test]
fn an_existing_checkout_is_checked_and_measured() {
    let ready = steps(
        vec![
            MaterializeEvent::Exists(true),
            MaterializeEvent::Text(format!("{PIN}\n")),
            MaterializeEvent::Text("\n".to_owned()),
            MaterializeEvent::Bytes(100),
        ],
        1_000,
    );
    assert_eq!(ready, MaterializeState::Finished { outcome: Ok(MaterializeOutcome::Ready) });
    let moved = steps(vec![MaterializeEvent::Exists(true), MaterializeEvent::Text("feed\n".to_owned())], 1_000);
    assert_eq!(
        moved,
        MaterializeState::Finished {
            outcome: Err(format!("existing checkout is pinned to feed, expected {PIN}; use a different study id")),
        }
    );
    let too_big = steps(
        vec![
            MaterializeEvent::Exists(true),
            MaterializeEvent::Text(PIN.to_owned()),
            MaterializeEvent::Text(String::new()),
            MaterializeEvent::Bytes(1_001),
        ],
        1_000,
    );
    assert_eq!(
        too_big,
        MaterializeState::Removing { outcome: Ok(MaterializeOutcome::LimitExceeded { observed_bytes: 1_001 }) }
    );
    let removed = materialize_step(too_big, MaterializeEvent::Done, PIN, 1_000);
    assert_eq!(
        removed,
        MaterializeState::Finished { outcome: Ok(MaterializeOutcome::LimitExceeded { observed_bytes: 1_001 }) }
    );
}

#[test]
fn materialisation_bounds_stop_before_and_after_the_fetch() {
    assert_eq!(
        steps(vec![MaterializeEvent::Exists(false)], MATERIALIZATION_RESERVE_BYTES),
        MaterializeState::Finished {
            outcome: Ok(MaterializeOutcome::LimitExceeded { observed_bytes: MATERIALIZATION_RESERVE_BYTES + 1 }),
        }
    );
    let max = MATERIALIZATION_RESERVE_BYTES + 1_000;
    let estimated = steps(
        vec![
            MaterializeEvent::Exists(false),
            MaterializeEvent::Done,
            MaterializeEvent::LocalTree(Some("100644 blob a 900\tbig.json\n".to_owned())),
        ],
        max,
    );
    assert_eq!(
        estimated,
        MaterializeState::Finished {
            outcome: Ok(MaterializeOutcome::LimitExceeded {
                observed_bytes: 900 + 256 + MATERIALIZATION_RESERVE_BYTES,
            }),
        }
    );
    let capped = steps(
        vec![
            MaterializeEvent::Exists(false),
            MaterializeEvent::Done,
            MaterializeEvent::LocalTree(None),
            MaterializeEvent::Done,
            MaterializeEvent::Fetched(Some("error: File size limit exceeded\n".to_owned())),
        ],
        max,
    );
    assert_eq!(
        capped,
        MaterializeState::Removing { outcome: Ok(MaterializeOutcome::LimitExceeded { observed_bytes: max + 1 }) }
    );
    let failed = steps(
        vec![
            MaterializeEvent::Exists(false),
            MaterializeEvent::Done,
            MaterializeEvent::LocalTree(None),
            MaterializeEvent::Done,
            MaterializeEvent::Fetched(Some("fatal: repository not found\n".to_owned())),
        ],
        max,
    );
    assert_eq!(
        failed,
        MaterializeState::Removing { outcome: Err("bounded Git fetch failed: fatal: repository not found".to_owned()) }
    );
    let wrong_commit = steps(
        vec![
            MaterializeEvent::Exists(false),
            MaterializeEvent::Done,
            MaterializeEvent::LocalTree(None),
            MaterializeEvent::Done,
            MaterializeEvent::Fetched(None),
            MaterializeEvent::Text("beef".to_owned()),
        ],
        max,
    );
    assert_eq!(
        wrong_commit,
        MaterializeState::Removing {
            outcome: Err(format!("fetched beef, expected exact pin {PIN}; refusing mixed-revision materialization")),
        }
    );
}

use moon_sources::benchmark::{
    budget_millis, budget_names, choose_revision, runs_first, MetricTimes,
};
use moon_sources::changed_files::ChangedStatus;
use moon_sources::keyset::KeySet;
use moon_sources::table::Table;
use moon_sources::vcs::{
    changed_files_to_set, reported_changes, request_of_git, resolve_git_revision, same_changes,
    status_name, summarize, Change, GitRequest, VcsChangeQuery, VcsChangedFile, VcsChangedStatus,
    VcsConsistency, VcsRevision,
};
use moon_sources::vcs_conformance::{
    all_passed, compare_jj_only, compare_with_git, judge_criss_cross, keeps_snapshot,
    policy_report, FixtureRevisions, Scenario,
};
use moon_sources::vcs_overlay::{
    compose_state, list_git_changes, parse_command, AdapterState, ScreenCommand, ScreenRequest,
    ScreenState, VcsStatePatch,
};

fn changes(items: &[(&str, &str)]) -> KeySet<Change> {
    let mut set: KeySet<Change> = KeySet::new();
    for (path, status) in items {
        set.insert(Change {
            path: (*path).into(),
            status: (*status).into(),
        });
    }
    set
}

#[test]
fn git_names_revisions_its_own_way() {
    assert_eq!(resolve_git_revision(&VcsRevision::Current, "main"), "HEAD");
    assert_eq!(resolve_git_revision(&VcsRevision::Default, "main"), "main");
    assert_eq!(
        resolve_git_revision(&VcsRevision::Named("abc".into()), "main"),
        "abc"
    );
    assert!(matches!(
        request_of_git(&VcsChangeQuery::WorkingCopy, "main"),
        GitRequest::Changed
    ));
    assert!(matches!(
        request_of_git(
            &VcsChangeQuery::Between {
                base: VcsRevision::Default,
                head: VcsRevision::Current
            },
            "main"
        ),
        GitRequest::Between { base, head } if base == "main" && head == "HEAD"
    ));
    assert!(matches!(
        request_of_git(
            &VcsChangeQuery::Previous {
                revision: VcsRevision::Named("x".into())
            },
            "main"
        ),
        GitRequest::AgainstPrevious { revision } if revision == "x"
    ));
}

#[test]
fn statuses_are_told_in_one_word() {
    assert_eq!(
        summarize(&vec![ChangedStatus::Untracked], true),
        VcsChangedStatus::Added
    );
    assert_eq!(
        summarize(&vec![ChangedStatus::Untracked], false),
        VcsChangedStatus::Modified
    );
    assert_eq!(
        summarize(&vec![ChangedStatus::Staged, ChangedStatus::Deleted], true),
        VcsChangedStatus::Deleted
    );
    assert_eq!(status_name(VcsChangedStatus::Deleted), "deleted");
}

#[test]
fn both_sides_report_the_same_changes() {
    let mut files: Table<String, Vec<ChangedStatus>> = Table::new();
    files.insert("a".into(), vec![ChangedStatus::Untracked]);
    files.insert("b".into(), vec![ChangedStatus::Deleted]);
    let reported = vec![
        VcsChangedFile {
            path: "b".into(),
            status: VcsChangedStatus::Deleted,
        },
        VcsChangedFile {
            path: "a".into(),
            status: VcsChangedStatus::Added,
        },
    ];

    let by_git = changed_files_to_set(&files);
    let by_plugin = reported_changes(&reported);
    assert!(same_changes(&by_git, &by_plugin));
    assert!(same_changes(
        &by_git,
        &changes(&[("a", "added"), ("b", "deleted")])
    ));
    assert!(!same_changes(&by_git, &changes(&[("a", "added")])));
    assert_eq!(list_git_changes(&files).len(), 2);
}

fn state() -> AdapterState {
    AdapterState {
        adapter: "git".into(),
        current_label: "feature".into(),
        current_revision: "111".into(),
        default_label: "main".into(),
        default_revision: "000".into(),
        is_default: false,
        repository_root: "/repo".into(),
        working_root: "/repo".into(),
    }
}

fn patch() -> VcsStatePatch {
    VcsStatePatch {
        adapter: Some("jj".into()),
        current_label: None,
        current_revision: Some("222".into()),
        is_default: Some(true),
        repository_root: None,
        working_root: None,
    }
}

#[test]
fn overlays_replace_what_they_know() {
    let composed = compose_state(&state(), Some(&patch()));

    assert_eq!(composed.adapter, "jj");
    assert_eq!(composed.current_label, "feature");
    assert_eq!(composed.current_revision, "222");
    assert!(composed.is_default);
    assert_eq!(composed.default_label, "main");
    assert_eq!(compose_state(&state(), None).adapter, "git");
}

#[test]
fn the_screen_asks_the_overlay_or_git() {
    let mut screen = ScreenState::new(state(), Some("op1".into()), true);

    assert!(matches!(
        screen.request(parse_command("s")),
        ScreenRequest::LoadState { snapshot } if snapshot == "op1"
    ));
    screen.show_state(Some(patch()));
    assert_eq!(screen.effective.adapter, "jj");

    screen.toggle_fallback();
    assert_eq!(screen.effective.adapter, "git");
    assert!(matches!(
        screen.request(parse_command("b")),
        ScreenRequest::GitChanges { .. }
    ));
    screen.show_changes(VcsChangeQuery::WorkingCopy, vec![]);
    assert_eq!(screen.change_source.as_deref(), Some("Git fallback"));

    screen.toggle_fallback();
    assert_eq!(screen.effective.adapter, "jj");
    assert!(matches!(
        screen.request(parse_command("w")),
        ScreenRequest::PluginChanges { snapshot, .. } if snapshot == "op1"
    ));
    screen.show_changes(VcsChangeQuery::WorkingCopy, vec![]);
    assert_eq!(screen.change_source.as_deref(), Some("jj WASM overlay"));

    screen.prepare(Some("op2".into()), VcsConsistency::FreshSnapshot);
    assert_eq!(screen.effective.adapter, "git");
    assert!(screen.last_query.is_none());

    screen.detect(false);
    assert!(!screen.active());
    assert!(screen.prepared.is_none());
    assert!(matches!(
        screen.request(parse_command("n")),
        ScreenRequest::Nothing
    ));
    assert_eq!(parse_command("x"), ScreenCommand::Unknown);
    assert!(matches!(
        screen.request(parse_command("q")),
        ScreenRequest::Quit
    ));
}

#[test]
fn scenarios_pass_where_all_see_the_same() {
    let feature = || changes(&[("projects/feature.txt", "added")]);
    let passed = compare_with_git(Scenario::DivergentBranches, feature(), feature());
    let failed = compare_with_git(Scenario::DivergentBranches, feature(), changes(&[]));

    assert!(passed.passed);
    assert_eq!(
        passed.name,
        "between divergent default and feature uses merge base"
    );
    assert!(!failed.passed);
    assert!(compare_jj_only(
        Scenario::PinnedSnapshot,
        changes(&[("secondary.txt", "added")]),
        true
    )
    .passed);
    assert!(!compare_jj_only(
        Scenario::PinnedSnapshot,
        changes(&[("secondary.txt", "added")]),
        false
    )
    .passed);
    assert!(judge_criss_cross(changes(&[("right.txt", "added")]), changes(&[]), true).passed);
    assert!(!judge_criss_cross(changes(&[]), changes(&[]), true).passed);
    assert!(all_passed(&vec![policy_report(Scenario::AbsentPolicy, true)]));
    assert!(!all_passed(&vec![passed, failed]));
}

#[test]
fn scenarios_ask_for_their_revisions() {
    let revisions = FixtureRevisions {
        initial: "a".into(),
        merged: "b".into(),
        left_merge: "c".into(),
        right_merge: "d".into(),
    };

    assert!(matches!(
        Scenario::PreviousRoot.query(&revisions),
        VcsChangeQuery::Previous { revision: VcsRevision::Named(name) } if name == "a"
    ));
    assert!(matches!(
        Scenario::CrissCross.query(&revisions),
        VcsChangeQuery::Between { .. }
    ));
    assert!(matches!(
        Scenario::CleanWorkingCopy.query(&revisions),
        VcsChangeQuery::WorkingCopy
    ));
    assert_eq!(Scenario::SensitivePaths.expected().len(), 4);
    assert!(keeps_snapshot(true, &Some("x".into()), &Some("x".into())));
    assert!(!keeps_snapshot(true, &None, &None));
}

#[test]
fn percentiles_stand_for_the_runs() {
    let times = MetricTimes::new((1..=100).rev().collect());

    assert_eq!(times.min, 1);
    assert_eq!(times.p50, 50);
    assert_eq!(times.p95, 95);
    assert_eq!(times.max, 100);
    assert_eq!(times.total, 5050);
    assert_eq!(MetricTimes::new(vec![7]).p95, 7);
    assert!(runs_first(0) && !runs_first(1));
}

#[test]
fn evaluates_scaled_p95_budgets() {
    let metric = MetricTimes::new(vec![250_000_000]);
    let limit = budget_millis("jj_working_copy_pinned_raw").unwrap() as f64;
    let actual = metric.p95 as f64 / 1_000_000.0;

    assert!(!(actual <= limit * 1.0));
    assert!(actual <= limit * 2.0);
    assert_eq!(budget_names().len(), 8);
    assert!(budget_millis("unknown").is_none());
}

#[test]
fn builds_name_their_revision() {
    assert_eq!(
        choose_revision(Some("abc".into()), Some("def".into()), true),
        "abc"
    );
    assert_eq!(choose_revision(None, Some("def".into()), true), "def-dirty");
    assert_eq!(choose_revision(None, Some("def".into()), false), "def");
    assert_eq!(choose_revision(None, None, true), "unknown");
}

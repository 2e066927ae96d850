use samurai::clock::{Moment, FIRST_SECOND, LAST_SECOND};
use samurai::pr_runs::{
    brief_path, is_live, launch_id_at, new_launch_id, pr_group_id, record_file_name, sanitize,
    staged_brief_path, BriefPath, PrReviewLaunch, PrReviewRun, PrRunKind, PrRunStore, RecordFile,
    StagedBrief, PR_RUNS_DIR,
};
use std::collections::HashSet;
use std::path::Path;

const LAUNCH: &str = "20260817120000-41";

fn launch() -> PrReviewLaunch {
    PrReviewLaunch {
        pr: 142,
        title: "fix journal splitting".to_string(),
        repo: "nachogl1/maestro".to_string(),
        project_path: r"C:\git\maestro".to_string(),
        steps: vec!["check".to_string(), "review".to_string()],
    }
}

fn verbatim_launch() -> PrReviewLaunch {
    PrReviewLaunch { project_path: r"\\?\C:\git\maestro".to_string(), ..launch() }
}

/// The tab's project: another tree than the checkout of `launch()`.
fn workspace() -> String {
    "/tmp/maestro-tab-project".to_string()
}

fn staged(relpath: &str) -> Option<StagedBrief> {
    Some(StagedBrief { root: workspace(), relpath: relpath.to_string() })
}

fn is_absolute(run: &PrReviewRun) -> bool {
    run.brief_root.as_deref().is_some_and(|root| Path::new(root).is_absolute())
}

/// The records' directory: a file by its name.
struct Shelf {
    files: Vec<(String, PrReviewRun)>,
}

impl Shelf {
    fn new() -> Shelf {
        Shelf { files: Vec::new() }
    }

    fn record(&mut self, run: &PrReviewRun) -> String {
        let name = record_file_name(run);
        self.files.retain(|f| f.0 != name);
        self.files.push((name.clone(), run.clone()));
        name
    }

    fn list(&self) -> Vec<(String, PrReviewRun)> {
        PrRunStore::list_with_paths(
            self.files
                .iter()
                .map(|(name, run)| RecordFile {
                    path: format!("/runs/{PR_RUNS_DIR}/{name}"),
                    name: name.clone(),
                    run: Some(run.clone()),
                })
                .collect(),
        )
    }
}

#[test]
fn test_a_record_holds_what_was_launched() {
    let relpath = ".maestro/briefs/pr-142-check-review.md";
    let run = PrReviewRun::now(launch(), 7, staged(relpath), LAUNCH);
    assert_eq!(run.kind, PrRunKind::PrReview);
    assert_eq!(run.pr, 142);
    assert_eq!(run.title, "fix journal splitting");
    assert_eq!(run.repo, "nachogl1/maestro");
    assert_eq!(run.steps, vec!["check".to_string(), "review".to_string()]);
    assert_eq!(run.brief.as_deref(), Some(relpath));
    assert_eq!(run.brief_root, Some(workspace()));
    assert_eq!(run.session_id, 7);
    assert!(chrono::DateTime::parse_from_rfc3339(&run.created_at).is_ok());
    let mut shelf = Shelf::new();
    let name = shelf.record(&run);
    assert_eq!(shelf.list(), vec![(format!("/runs/{PR_RUNS_DIR}/{name}"), run)]);
}

#[test]
fn test_file_name_is_filesystem_safe_and_one_file_per_review_terminal() {
    // `owner/repo` carries a slash, so the repo segment is sanitized. And a second
    // review of the same PR in another terminal must not overwrite the first record.
    let mut shelf = Shelf::new();

    let mut first = PrReviewRun::now(launch(), 7, None, LAUNCH);
    first.created_at = "2026-08-17T12:00:00+00:00".to_string();
    let mut second = PrReviewRun::now(launch(), 9, None, LAUNCH);
    second.created_at = "2026-08-17T13:30:00+00:00".to_string();

    let a = shelf.record(&first);
    let b = shelf.record(&second);
    assert_ne!(a, b);
    assert!(a.starts_with("nachogl1-maestro-142-"), "{a}");
    assert!(!a.contains('/') && !a.contains(':'), "unsafe file name {a}");
    assert_eq!(a, "nachogl1-maestro-142-20260817120000-41-7.json");
    assert_eq!(shelf.list().len(), 2);
    // Absent brief: `None`, not a fabricated path.
    assert!(shelf.list().iter().all(|(_, r)| r.brief.is_none()));
}

#[test]
fn test_relaunching_one_session_replaces_its_record_instead_of_duplicating() {
    // A re-arm must leave one record. Two launches in the same tick must not collide
    // either: the name is keyed on the session, never on the timestamp.
    let mut shelf = Shelf::new();

    let mut first = PrReviewRun::now(launch(), 7, None, LAUNCH);
    first.created_at = "2026-08-17T12:00:00+00:00".to_string();
    let mut rearmed = PrReviewRun::now(launch(), 7, staged("b.md"), LAUNCH);
    rearmed.created_at = "2026-08-17T12:00:00+00:00".to_string();
    let mut other_session = PrReviewRun::now(launch(), 8, None, LAUNCH);
    other_session.created_at = "2026-08-17T12:00:00+00:00".to_string();

    assert_eq!(shelf.record(&first), shelf.record(&rearmed));
    shelf.record(&other_session);

    let recorded = shelf.list();
    assert_eq!(recorded.len(), 2, "one record per session: {recorded:?}");
    assert!(
        recorded.iter().any(|(_, r)| r.brief.as_deref() == Some("b.md")),
        "the re-arm's record won: {recorded:?}"
    );
}

#[test]
fn test_a_record_is_stamped_and_named_with_the_app_launch() {
    let mut shelf = Shelf::new();
    let launch_id = new_launch_id(41);

    let run = PrReviewRun::now(launch(), 3, None, &launch_id);
    assert_eq!(run.launch_id, launch_id);
    assert!(!run.launch_id.is_empty());

    // The launch is in the file name too: without it a session id reused across
    // launches would overwrite the older launch's record of the same PR.
    let name = shelf.record(&run);
    assert!(name.contains(&launch_id), "{name}");
    assert!(name.starts_with("nachogl1-maestro-142-"), "{name}");

    let mut older = PrReviewRun::now(launch(), 3, None, &launch_id);
    older.launch_id = "20200101000000-1".to_string();
    assert_ne!(shelf.record(&older), name);
    assert_eq!(shelf.list().len(), 2);
}

#[test]
fn test_a_record_from_an_earlier_launch_is_never_live() {
    // Session ids restart at every launch while records persist, so `session_id`
    // alone cannot mean "this terminal".
    let open: HashSet<u32> = HashSet::from([3]);
    let current = PrReviewRun::now(launch(), 3, None, LAUNCH);
    assert!(is_live(&current, LAUNCH, &open));
    assert!(!is_live(&current, LAUNCH, &HashSet::from([4])));

    let mut older = current.clone();
    older.launch_id = "20200101000000-1".to_string();
    assert!(!is_live(&older, LAUNCH, &open));

    // A record without a launch is unprovable, therefore not live.
    let mut legacy = current.clone();
    legacy.launch_id = String::new();
    assert!(!is_live(&legacy, LAUNCH, &open));
}

#[test]
fn test_group_id_is_stable_and_per_pr() {
    let run = PrReviewRun::now(launch(), 7, None, LAUNCH);
    assert_eq!(run.group_id(), "pr:nachogl1/maestro#142");
    assert_eq!(run.group_id(), pr_group_id("nachogl1/maestro", 142));
    assert_ne!(run.group_id(), pr_group_id("nachogl1/maestro", 143));
    assert_ne!(run.group_id(), pr_group_id("other/maestro", 142));
}

#[test]
fn test_unreadable_records_are_skipped_not_fatal() {
    let run = PrReviewRun::now(launch(), 7, None, LAUNCH);
    let name = record_file_name(&run);
    let file = |name: &str, run: Option<PrReviewRun>| RecordFile {
        path: format!("/runs/{name}"),
        name: name.to_string(),
        run,
    };
    let files = vec![
        file("torn.json", None),
        file(&name, Some(run.clone())),
        file("notes.txt", Some(run.clone())),
        file(".json", Some(run.clone())),
    ];
    let listed = PrRunStore::list_with_paths(files);
    assert_eq!(listed.len(), 1);
    assert_eq!(listed[0].0, format!("/runs/{name}"));
}

#[test]
fn test_the_checkout_is_normalized_on_construction() {
    let run = PrReviewRun::now(verbatim_launch(), 7, None, LAUNCH);
    assert_eq!(run.project_path, r"C:\git\maestro");
    assert_eq!(run.project_path, PrReviewRun::now(launch(), 7, None, LAUNCH).project_path);
    // The staging root normalizes on the same rule.
    let run = PrReviewRun::now(
        verbatim_launch(),
        7,
        Some(StagedBrief {
            root: r"\\?\C:\git\maestro".to_string(),
            relpath: "a.md".to_string(),
        }),
        LAUNCH,
    );
    assert_eq!(run.brief_root.as_deref(), Some(r"C:\git\maestro"));
}

#[test]
fn test_normalization_keeps_a_unc_checkout_absolute() {
    let run = PrReviewRun::now(
        PrReviewLaunch {
            project_path: r"\\?\UNC\server\share\maestro".to_string(),
            ..launch()
        },
        7,
        Some(StagedBrief {
            root: r"\\?\UNC\server\share\tab".to_string(),
            relpath: "a.md".to_string(),
        }),
        LAUNCH,
    );
    assert_eq!(run.project_path, r"\\server\share\maestro");
    assert_eq!(run.brief_root.as_deref(), Some(r"\\server\share\tab"));
}

#[test]
fn test_list_repairs_records_written_under_the_old_normalization() {
    // Reading repairs a mangled spelling in memory.
    let mut shelf = Shelf::new();
    let mut run = PrReviewRun::now(launch(), 7, staged("a.md"), LAUNCH);
    run.project_path = r"UNC\server\share\maestro".to_string();
    run.brief_root = Some(r"UNC\server\share\tab".to_string());
    shelf.record(&run);

    let listed = shelf.list();
    assert_eq!(listed.len(), 1);
    assert_eq!(listed[0].1.project_path, r"\\server\share\maestro");
    assert_eq!(listed[0].1.brief_root.as_deref(), Some(r"\\server\share\tab"));
}

#[test]
fn test_brief_path_resolves_against_the_tree_the_brief_was_staged_in() {
    let relpath = ".maestro/briefs/pr-142-check-review.md";
    let run = PrReviewRun::now(launch(), 7, staged(relpath), LAUNCH);
    assert_eq!(
        brief_path(&run, is_absolute(&run)),
        Some(BriefPath { root: workspace(), relpath: relpath.to_string() })
    );
    assert!(brief_path(&PrReviewRun::now(launch(), 7, None, LAUNCH), false).is_none());

    // An older record knows only the relative half: the checkout stands in.
    let mut legacy = run.clone();
    legacy.brief_root = None;
    assert_eq!(
        brief_path(&legacy, is_absolute(&legacy)),
        Some(BriefPath { root: r"C:\git\maestro".to_string(), relpath: relpath.to_string() })
    );

    // A root that is recorded but cannot be used is not an invitation to fall back.
    let mut relative = run.clone();
    relative.brief_root = Some("..".to_string());
    assert!(brief_path(&relative, is_absolute(&relative)).is_none());
}

#[test]
fn test_staged_brief_path_refuses_to_guess() {
    let relpath = ".maestro/briefs/pr-142-check-review.md";
    let run = PrReviewRun::now(launch(), 7, staged(relpath), LAUNCH);
    let mut here = run.clone();
    here.brief_root = Some("/tmp".to_string());
    assert_eq!(
        staged_brief_path(&here, is_absolute(&here)),
        Some(BriefPath { root: "/tmp".to_string(), relpath: relpath.to_string() })
    );

    let mut legacy = run.clone();
    legacy.brief_root = None;
    assert!(staged_brief_path(&legacy, is_absolute(&legacy)).is_none(), "no staging evidence");

    let mut relative = run.clone();
    relative.brief_root = Some("..".to_string());
    assert!(
        staged_brief_path(&relative, is_absolute(&relative)).is_none(),
        "a relative root would resolve against the working directory"
    );

    let bare = PrReviewRun::now(launch(), 7, None, LAUNCH);
    assert!(staged_brief_path(&bare, is_absolute(&bare)).is_none());
}

#[test]
fn test_stamps_of_a_known_moment() {
    let noon = Moment { secs: 1_786_968_000, nanos: 250_000_000 };
    assert_eq!(launch_id_at(noon, 41), "20260817120000-41");
    let run = PrReviewRun::at(launch(), 1, None, LAUNCH, noon);
    assert_eq!(run.created_at, "2026-08-17T12:00:00.250+00:00");
}

#[test]
fn test_sanitized_names() {
    assert_eq!(sanitize("Owner/Repo.Name"), "owner-repo-name");
    assert_eq!(sanitize("--A__b--"), "a-b");
    assert_eq!(sanitize("ÀB"), "b");
    assert_eq!(sanitize(""), "");
}

#[test]
fn test_where_the_records_are() {
    let store = PrRunStore::new("/data/runs".to_string());
    assert_eq!(store.base_dir(), ("/data/runs", PR_RUNS_DIR));
}

#[test]
fn test_stamps_at_the_ends_of_the_calendar() {
    let first = Moment { secs: FIRST_SECOND, nanos: 0 };
    let last = Moment { secs: LAST_SECOND, nanos: 0 };
    let run = PrReviewRun::at(launch(), 1, None, LAUNCH, first);
    assert_eq!(run.created_at, "-262143-01-01T00:00:00+00:00");
    let run = PrReviewRun::at(launch(), 1, None, LAUNCH, last);
    assert_eq!(run.created_at, "+262142-12-31T23:59:59+00:00");
    assert!(launch_id_at(first, 1).ends_with("0101000000-1"));
}

use cargo_changelog::aggregate::{
    compute_template_data, load_release_files, verify_fragments, CandidateFile, WalkEvent,
};
use cargo_changelog::error::{Error, VerificationError};
use cargo_changelog::fragment::{Fragment, FragmentData};
use cargo_changelog::version::Version;

fn header(issue: i64) -> Vec<(String, FragmentData)> {
    vec![("issue".to_string(), FragmentData::Int(issue))]
}

fn file(path: &str, content: &[u8]) -> WalkEvent {
    WalkEvent::File(CandidateFile {
        path: path.to_string(),
        components: path.split('/').map(|c| Some(c.to_string())).collect(),
        content: content.to_vec(),
    })
}

#[test]
fn test_template_data_is_sorted() {
    let result = compute_template_data(vec![
        Ok((
            Version::parse("0.2.0").unwrap(),
            Fragment::new(
                header(123),
                "text of fragment for version 0.2.0".to_string(),
            ),
        )),
        Ok((
            Version::parse("0.1.0").unwrap(),
            Fragment::new(
                header(345),
                "text of fragment for version 0.1.0".to_string(),
            ),
        )),
    ]);

    assert!(result.is_ok());
    let versions = result.unwrap();

    assert_eq!(versions[0].version().as_str(), "0.1.0");
    assert_eq!(versions[1].version().as_str(), "0.2.0");
}

#[test]
fn fragments_of_one_version_share_a_bucket() {
    let result = compute_template_data(vec![
        Ok((
            Version::parse("0.1.0").unwrap(),
            Fragment::new(header(1), "first".to_string()),
        )),
        Ok((
            Version::parse("0.2.0").unwrap(),
            Fragment::new(header(2), "second".to_string()),
        )),
        Ok((
            Version::parse("0.1.0").unwrap(),
            Fragment::new(header(3), "third".to_string()),
        )),
    ])
    .unwrap();

    assert_eq!(result.len(), 2);
    assert_eq!(result[0].version().as_str(), "0.1.0");
    assert_eq!(result[0].entries().len(), 2);
    assert_eq!(result[0].entries()[0].body, "first");
    assert_eq!(result[0].entries()[1].body, "third");
    assert_eq!(result[1].version().as_str(), "0.2.0");
    assert_eq!(result[1].entries().len(), 1);
}

#[test]
fn prerelease_buckets_sort_before_the_release() {
    let result = compute_template_data(vec![
        Ok((
            Version::parse("1.0.0").unwrap(),
            Fragment::new(header(1), "release".to_string()),
        )),
        Ok((
            Version::parse("1.0.0-alpha").unwrap(),
            Fragment::new(header(2), "alpha".to_string()),
        )),
        Ok((
            Version::parse("1.0.0-rc.1").unwrap(),
            Fragment::new(header(3), "rc".to_string()),
        )),
    ])
    .unwrap();

    assert_eq!(result[0].version().as_str(), "1.0.0-alpha");
    assert_eq!(result[1].version().as_str(), "1.0.0-rc.1");
    assert_eq!(result[2].version().as_str(), "1.0.0");
}

#[test]
fn release_flow_stops_at_the_first_failure() {
    let events = vec![
        file("fragments/0.1.0/good.md", b"+++\nissue = 1\n+++\nfine\n"),
        file("fragments/0.1.0/broken.md", b"+++\nnot == toml\n+++\nbad\n"),
    ];
    let outcomes = load_release_files(events);
    let result = compute_template_data(outcomes);
    match result {
        Err(Error::FragmentError(_, path)) => {
            assert_eq!(path, "fragments/0.1.0/broken.md");
        }
        other => panic!("expected the broken fragment's error, got {:?}", other),
    }
}

#[test]
fn verifier_reports_every_failure_and_only_failures() {
    let events = vec![
        file("fragments/0.1.0/good.md", b"+++\nissue = 1\n+++\nfine\n"),
        file("fragments/0.1.0/broken.md", b"+++\nnot == toml\n+++\nbad\n"),
    ];
    let result = verify_fragments(events);
    match result {
        Err(Error::Verification(list)) => {
            assert_eq!(list.len(), 1);
            match &list[0] {
                VerificationError::FragmentParsing(path, _) => {
                    assert_eq!(path, "fragments/0.1.0/broken.md");
                }
                other => panic!("expected a fragment parsing failure, got {:?}", other),
            }
        }
        other => panic!("expected a verification failure, got {:?}", other),
    }
}

#[test]
fn verifier_succeeds_on_a_clean_tree() {
    let events = vec![
        file("fragments/0.1.0/a.md", b"+++\nissue = 1\n+++\nfine\n"),
        file("fragments/0.2.0/b.md", b"---\nissue: 2\n---\nalso fine\n"),
        file("fragments/readme.txt", b"not a fragment, no version in path"),
    ];
    assert!(verify_fragments(events).is_ok());
}

#[test]
fn walk_errors_are_collected_by_the_verifier() {
    let events = vec![WalkEvent::Error("permission denied somewhere".to_string())];
    match verify_fragments(events) {
        Err(Error::Verification(list)) => {
            assert_eq!(list.len(), 1);
            assert!(matches!(&list[0], VerificationError::WalkDir(m) if m == "permission denied somewhere"));
        }
        other => panic!("expected a verification failure, got {:?}", other),
    }
}

#[test]
fn template_file_is_never_reported_nor_bucketed() {
    let garbage = b"this is not a fragment at all { } :::";
    let events = vec![
        file("fragments/template.md", garbage),
        file("fragments/0.1.0/template.md", garbage),
        file("fragments/0.1.0/good.md", b"+++\nissue = 1\n+++\nfine\n"),
    ];
    assert!(verify_fragments(vec![
        file("fragments/template.md", garbage),
        file("fragments/0.1.0/template.md", garbage),
        file("fragments/0.1.0/good.md", b"+++\nissue = 1\n+++\nfine\n"),
    ])
    .is_ok());

    let buckets = compute_template_data(load_release_files(events)).unwrap();
    assert_eq!(buckets.len(), 1);
    assert_eq!(buckets[0].version().as_str(), "0.1.0");
    assert_eq!(buckets[0].entries().len(), 1);
    assert_eq!(buckets[0].entries()[0].body, "fine\n");
}

#[test]
fn files_without_version_are_skipped_not_reported() {
    let events = vec![
        file("fragments/notes.md", b"no header here"),
        file("fragments/0.3.0/x.md", b"---\nissue: 9\n---\nbody\n"),
    ];
    let outcomes = load_release_files(events);
    assert_eq!(outcomes.len(), 1);
    let buckets = compute_template_data(outcomes).unwrap();
    assert_eq!(buckets.len(), 1);
    assert_eq!(buckets[0].version().as_str(), "0.3.0");
}

#[test]
fn non_utf8_path_is_reported_by_the_verifier() {
    let events = vec![WalkEvent::File(CandidateFile {
        path: "fragments/bad".to_string(),
        components: vec![Some("fragments".to_string()), None, Some("0.1.0".to_string())],
        content: b"+++\nissue = 1\n+++\nfine\n".to_vec(),
    })];
    match verify_fragments(events) {
        Err(Error::Verification(list)) => {
            assert_eq!(list.len(), 1);
            assert!(matches!(&list[0], VerificationError::Version(_)));
        }
        other => panic!("expected a verification failure, got {:?}", other),
    }
}

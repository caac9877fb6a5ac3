use changelog::classify::{
    classify, classify_captures, has_prefix, scopes_listed, Classification, Skip,
};
use changelog::conf::{lookup_kind, Repository as RepositoryConf};
use changelog::parser::{
    Changelog, Commit, HTMLChangelog, History, MarkdownChangelog, ParseError, RawCommit, RawTag,
    Repository, Tag, TagIndex,
};

fn kinds(pairs: &[(&str, &str)]) -> Vec<(String, String)> {
    pairs.iter().map(|(k, v)| (k.to_string(), v.to_string())).collect()
}

fn repo_conf(link: Option<&str>) -> RepositoryConf {
    RepositoryConf {
        name: "demo".to_string(),
        path: ".".to_string(),
        scopes: None,
        range: None,
        link: link.map(|l| l.to_string()),
    }
}

fn raw(n: usize, summary: &str) -> RawCommit {
    RawCommit {
        id: format!("{:040x}", n),
        author: Some("Ada".to_string()),
        committer: None,
        summary: Some(summary.to_string()),
        message: None,
        time: 86_400 * n as i64,
    }
}

fn label_of(c: &Classification) -> Option<String> {
    match c {
        Classification::Accepted { label, .. } => Some(label.clone()),
        Classification::Skipped(_) => None,
    }
}

fn count(repo: &Repository) -> usize {
    repo.tags.iter().map(|t| t.commits.iter().map(|(_, v)| v.len()).sum::<usize>()).sum()
}

#[test]
fn feature_with_scope_is_labelled() {
    let k = kinds(&[("feat", "Features")]);
    let c = classify("feat(api): add endpoint", &k);
    match c {
        Classification::Accepted { label, scope } => {
            assert_eq!(label, "Features");
            assert_eq!(scope, Some("api".to_string()));
        }
        Classification::Skipped(_) => panic!("expected a feature"),
    }
}

#[test]
fn fix_without_scope_is_labelled() {
    let k = kinds(&[("fix", "Bug Fixes")]);
    match classify("fix: bug", &k) {
        Classification::Accepted { label, scope } => {
            assert_eq!(label, "Bug Fixes");
            assert_eq!(scope, None);
        }
        Classification::Skipped(_) => panic!("expected a fix"),
    }
}

#[test]
fn merge_and_unparseable_messages_are_skipped() {
    let k = kinds(&[("feat", "Features")]);
    assert!(matches!(classify("Merge branch 'main'", &k), Classification::Skipped(Skip::Merge)));
    assert!(matches!(
        classify("Merge pull request #4 from x/y", &k),
        Classification::Skipped(Skip::Merge)
    ));
    assert!(matches!(classify("oops no pattern", &k), Classification::Skipped(Skip::Pattern)));
    assert!(matches!(classify("chore: tidy", &k), Classification::Skipped(Skip::UnknownKind)));

    let history = History {
        commits: vec![raw(1, "Merge branch 'main'"), raw(2, "oops no pattern")],
        tags: vec![],
    };
    let repo = Repository::try_from(&k, &repo_conf(None), &history).unwrap();
    assert_eq!(repo.tags.len(), 0);
}

#[test]
fn captures_decide_without_the_regex() {
    let k = kinds(&[("feat", "Features")]);
    let c = classify_captures("x", Some((Some("feat".to_string()), None)), &k);
    assert_eq!(label_of(&c), Some("Features".to_string()));
    assert!(matches!(classify_captures("x", None, &k), Classification::Skipped(Skip::Pattern)));
    assert!(matches!(
        classify_captures("x", Some((None, None)), &k),
        Classification::Skipped(Skip::Pattern)
    ));
    assert!(matches!(
        classify_captures("Merge branch x", Some((Some("feat".to_string()), None)), &k),
        Classification::Skipped(Skip::Merge)
    ));
}

#[test]
fn prefix_and_lookup() {
    assert!(has_prefix("Merge branch", "Merge"));
    assert!(!has_prefix("Merge", "Merge branch"));
    assert!(has_prefix("abc", ""));
    let k = kinds(&[("a", "A"), ("a", "B"), ("b", "C")]);
    assert_eq!(lookup_kind(&k, &"a".to_string()), Some("A".to_string()));
    assert_eq!(lookup_kind(&k, &"b".to_string()), Some("C".to_string()));
    assert_eq!(lookup_kind(&k, &"c".to_string()), None);
}

#[test]
fn three_tags_and_a_preview() {
    let k = kinds(&[("feat", "Features")]);
    let commits: Vec<RawCommit> = (1..=10).map(|n| raw(n, &format!("feat: change {}", n))).collect();
    let tag = |n: usize, name: &str| RawTag { name: name.to_string(), target: Some(format!("{:040x}", n)) };
    let history = History { commits, tags: vec![tag(2, "v1"), tag(5, "v2"), tag(8, "v3")] };
    let repo = Repository::try_from(&k, &repo_conf(None), &history).unwrap();
    let names: Vec<&str> = repo.tags.iter().map(|t| t.name.as_str()).collect();
    assert_eq!(names, vec!["Technical preview", "v3", "v2", "v1"]);
    let sizes: Vec<usize> = repo.tags.iter().map(|t| t.commits[0].1.len()).collect();
    assert_eq!(sizes, vec![2, 3, 3, 2]);
    let preview: Vec<&str> = repo.tags[0].commits[0].1.iter().map(|c| c.message.as_str()).collect();
    assert_eq!(preview, vec!["feat: change 9", "feat: change 10"]);
    assert_eq!(count(&repo), 10);
}

#[test]
fn tagged_commit_stays_in_its_release() {
    let k = kinds(&[("feat", "Features"), ("fix", "Bug Fixes")]);
    let history = History {
        commits: vec![raw(1, "fix: a"), raw(2, "feat: b"), raw(3, "fix: c")],
        tags: vec![RawTag { name: "v1".to_string(), target: Some(format!("{:040x}", 2)) }],
    };
    let repo = Repository::try_from(&k, &repo_conf(None), &history).unwrap();
    assert_eq!(repo.tags.len(), 2);
    let v1 = &repo.tags[1];
    assert_eq!(v1.name, "v1");
    assert_eq!(v1.commits.len(), 2);
    assert_eq!(v1.commits[0].0, "Bug Fixes");
    assert_eq!(v1.commits[1].0, "Features");
    assert_eq!(v1.commits[1].1[0].message, "feat: b");
    assert_eq!(repo.tags[0].commits[0].1[0].message, "fix: c");
}

#[test]
fn commits_keep_walk_order_and_skips_are_counted_out() {
    let k = kinds(&[("feat", "Features")]);
    let history = History {
        commits: vec![
            raw(1, "feat: one"),
            raw(2, "Merge branch 'x'"),
            raw(3, "nonsense"),
            raw(4, "docs: nope"),
            raw(5, "feat: two"),
        ],
        tags: vec![],
    };
    let repo = Repository::try_from(&k, &repo_conf(None), &history).unwrap();
    assert_eq!(count(&repo), 2);
    let got: Vec<&str> = repo.tags[0].commits[0].1.iter().map(|c| c.message.as_str()).collect();
    assert_eq!(got, vec!["feat: one", "feat: two"]);
}

#[test]
fn running_twice_gives_the_same_model() {
    let k = kinds(&[("feat", "Features")]);
    let history = History { commits: vec![raw(1, "feat: x"), raw(2, "feat: y")], tags: vec![] };
    let a = Repository::try_from(&k, &repo_conf(Some("https://x/{hash}")), &history).unwrap();
    let b = Repository::try_from(&k, &repo_conf(Some("https://x/{hash}")), &history).unwrap();
    assert_eq!(format!("{:?}", a), format!("{:?}", b));
}

#[test]
fn link_uses_the_full_hash() {
    let conf = repo_conf(Some("https://x/{hash}"));
    let mut c = raw(1, "feat: x");
    c.id = "abcdef0123456789abcdef0123456789abcdef01".to_string();
    let commit = Commit::try_from(&conf, &c).unwrap();
    assert_eq!(commit.link, Some("https://x/abcdef0123456789abcdef0123456789abcdef01".to_string()));
    assert_eq!(commit.hash, "abcdef0");
}

#[test]
fn normalization_fields() {
    let mut c = raw(0, "feat: x");
    c.time = 1_431_648_000;
    c.author = None;
    c.committer = Some("Bob".to_string());
    c.summary = None;
    c.message = Some("full body".to_string());
    let commit = Commit::try_from(&repo_conf(None), &c).unwrap();
    assert_eq!(commit.date, "2015-05-15");
    assert_eq!(commit.author, "Bob");
    assert_eq!(commit.message, "full body");
    assert_eq!(commit.link, None);
    c.id = "abc".to_string();
    assert_eq!(Commit::try_from(&repo_conf(None), &c).unwrap().hash, "abc");
}

#[test]
fn normalization_errors() {
    let conf = repo_conf(None);
    let mut c = raw(1, "feat: x");
    c.author = None;
    assert_eq!(Commit::try_from(&conf, &c).unwrap_err(), ParseError::MissingIdentity);
    let mut c = raw(1, "feat: x");
    c.summary = None;
    assert_eq!(Commit::try_from(&conf, &c).unwrap_err(), ParseError::MissingMessage);
    let mut c = raw(1, "feat: x");
    c.time = i64::MAX;
    assert_eq!(Commit::try_from(&conf, &c).unwrap_err(), ParseError::InvalidTimestamp);
    let c = raw(1, "feat: x");
    assert_eq!(
        Commit::try_from(&repo_conf(Some("https://x/{nope}")), &c).unwrap_err(),
        ParseError::LinkTemplateError
    );
}

#[test]
fn walk_stops_at_a_bad_commit() {
    let k = kinds(&[("feat", "Features")]);
    let mut bad = raw(2, "feat: y");
    bad.author = None;
    let history = History { commits: vec![raw(1, "feat: x"), bad, raw(3, "feat: z")], tags: vec![] };
    let err = Repository::try_from(&k, &repo_conf(None), &history).unwrap_err();
    assert_eq!(err.commit, format!("{:040x}", 2));
    assert_eq!(err.reason, ParseError::MissingIdentity);
}

#[test]
fn tag_index_keeps_annotated_tags_last_wins() {
    let tags = vec![
        RawTag { name: "light".to_string(), target: None },
        RawTag { name: "a".to_string(), target: Some("c1".to_string()) },
        RawTag { name: "b".to_string(), target: Some("c1".to_string()) },
    ];
    let index = TagIndex::build(&tags);
    assert_eq!(index.lookup(&"c1".to_string()), Some("b".to_string()));
    assert_eq!(index.lookup(&"light".to_string()), None);
}

#[test]
fn changelog_fails_fast_with_repository_name() {
    let k = kinds(&[("feat", "Features")]);
    let good = History { commits: vec![raw(1, "feat: x")], tags: vec![] };
    let mut c = raw(2, "feat: y");
    c.summary = None;
    let bad = History { commits: vec![c], tags: vec![] };
    let mut second = repo_conf(None);
    second.name = "second".to_string();
    let inputs = vec![(repo_conf(None), good.clone()), (second.clone(), bad)];
    let err = Changelog::try_from(&k, &inputs).unwrap_err();
    assert_eq!(err.repository, "second");
    assert_eq!(err.reason, ParseError::MissingMessage);

    let inputs = vec![(repo_conf(None), good.clone()), (second, good)];
    let log = Changelog::try_from(&k, &inputs).unwrap();
    assert_eq!(log.repositories.len(), 2);
    assert_eq!(log.repositories[1].name, "second");
    let html = HTMLChangelog::from(log.clone());
    assert_eq!(html.repositories.len(), 2);
    let md = MarkdownChangelog::from(log);
    assert_eq!(md.repositories[0].name, "demo");
}

#[test]
fn constructors() {
    let r = Repository::from("x".to_string());
    assert_eq!(r.name, "x");
    assert!(r.tags.is_empty());
    let t = Tag::from(("v1".to_string(), vec![]));
    assert_eq!(t.name, "v1");
    assert!(t.commits.is_empty());
}

#[test]
fn sub_scopes_are_checked_one_by_one() {
    let allowed = vec!["api".to_string(), "core".to_string()];
    assert!(scopes_listed("api", &allowed));
    assert!(scopes_listed("api,core", &allowed));
    assert!(!scopes_listed("api,web", &allowed));
    assert!(!scopes_listed("api, core", &allowed));
    assert!(!scopes_listed("", &allowed));
    assert!(scopes_listed("", &vec![String::new()]));
    let k = kinds(&[("feat", "Features")]);
    match classify("feat(api,web): add", &k) {
        Classification::Accepted { label, scope } => {
            assert_eq!(label, "Features");
            assert_eq!(scope, Some("api,web".to_string()));
        }
        Classification::Skipped(_) => panic!("an unlisted scope does not exclude a commit"),
    }
}

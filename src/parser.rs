//! Commit normalization, the tag index, the history walk and the assembly of
//! a whole changelog.
//!
//! The history of a repository reaches this module as plain values: its
//! commits oldest-first, and its tags with the commit each annotated tag
//! points at.

use std::collections::HashMap;

use vstd::prelude::*;
use vstd::string::*;

use crate::classify::{
    classify, classify_spec, message_captures, opt_string_view, Classification,
    ClassificationView,
};
use crate::conf;

verus! {

/// A commit as the version-control backend gives it.
#[derive(Clone, Debug)]
pub struct RawCommit {
    /// The full hexadecimal identifier.
    pub id: String,
    pub author: Option<String>,
    pub committer: Option<String>,
    /// The first line of the message.
    pub summary: Option<String>,
    pub message: Option<String>,
    /// Seconds since the Unix epoch.
    pub time: i64,
}

/// A commit as the changelog shows it.
#[derive(Clone, Debug)]
pub struct Commit {
    /// The identifier cut to its first seven characters.
    pub hash: String,
    pub message: String,
    pub author: String,
    /// The UTC date, `YYYY-MM-DD`.
    pub date: String,
    pub link: Option<String>,
}

/// A commit over sequences of characters.
pub struct CommitView {
    pub hash: Seq<char>,
    pub message: Seq<char>,
    pub author: Seq<char>,
    pub date: Seq<char>,
    pub link: Option<Seq<char>>,
}

impl View for Commit {
    type V = CommitView;

    open spec fn view(&self) -> CommitView {
        CommitView {
            hash: self.hash@,
            message: self.message@,
            author: self.author@,
            date: self.date@,
            link: opt_string_view(self.link),
        }
    }
}

/// Why a commit cannot be normalized.
#[derive(Clone, Copy, Debug, PartialEq, Eq, Structural)]
pub enum ParseError {
    /// Neither an author nor a committer name.
    MissingIdentity,
    /// Neither a summary nor a message.
    MissingMessage,
    /// The timestamp is outside the range of calendar dates.
    InvalidTimestamp,
    /// The link template could not be filled in.
    LinkTemplateError,
}

/// The UTC calendar date of `secs` seconds after the Unix epoch, written
/// `YYYY-MM-DD`; `None` where it is out of range.
pub uninterp spec fn iso_date_of(secs: int) -> Option<Seq<char>>;

/// Relies on chrono::DateTime::from_timestamp and the `%F` item of
/// DelayedFormat: the UTC date of the instant, `None` out of chrono's range.
#[verifier::external_body]
fn iso_date(secs: i64) -> (r: Option<String>)
    ensures
        opt_string_view(r) == iso_date_of(secs as int),
{
    chrono::DateTime::from_timestamp(secs, 0).map(|dt| dt.format("%F").to_string())
}

#[verifier::external_type_specification]
#[verifier::external_body]
pub struct ExFmtError(strfmt::FmtError);

/// `template` with the placeholders of `key` filled in with `value`; `None`
/// where the template is malformed or names another key.
pub uninterp spec fn filled_template(template: Seq<char>, key: Seq<char>, value: Seq<char>) -> Option<Seq<char>>;

/// Relies on strfmt::strfmt with a single variable: the template filled in,
/// or its error.
#[verifier::external_body]
fn fill_template(template: &str, key: &str, value: &str) -> (r: Result<String, strfmt::FmtError>)
    ensures
        match r {
            Ok(s) => filled_template(template@, key@, value@) == Some(s@),
            Err(_) => filled_template(template@, key@, value@) is None,
        },
{
    let mut vars: HashMap<String, String> = HashMap::new();
    vars.insert(key.to_string(), value.to_string());
    strfmt::strfmt(template, &vars)
}

/// The first of two optional values that is there.
pub open spec fn either(a: Option<Seq<char>>, b: Option<Seq<char>>) -> Option<Seq<char>> {
    match a {
        Some(x) => Some(x),
        None => b,
    }
}

/// The identifier cut to seven characters.
pub open spec fn short_hash(id: Seq<char>) -> Seq<char> {
    if id.len() <= 7 {
        id
    } else {
        id.subrange(0, 7)
    }
}

/// The commit that `raw` normalizes to, under the link template `link`.
pub open spec fn normalize_spec(link: Option<Seq<char>>, raw: RawCommit) -> Result<CommitView, ParseError> {
    match either(opt_string_view(raw.author), opt_string_view(raw.committer)) {
        None => Err(ParseError::MissingIdentity),
        Some(author) => match either(opt_string_view(raw.summary), opt_string_view(raw.message)) {
            None => Err(ParseError::MissingMessage),
            Some(message) => match iso_date_of(raw.time as int) {
                None => Err(ParseError::InvalidTimestamp),
                Some(date) => {
                    let hash = short_hash(raw.id@);
                    match link {
                        None => Ok(CommitView { hash, message, author, date, link: None }),
                        Some(t) => match filled_template(t, "hash"@, raw.id@) {
                            None => Err(ParseError::LinkTemplateError),
                            Some(l) => Ok(CommitView { hash, message, author, date, link: Some(l) }),
                        },
                    }
                },
            },
        },
    }
}

/// The outcome of a normalization over sequences of characters.
pub open spec fn commit_result_view(r: Result<Commit, ParseError>) -> Result<CommitView, ParseError> {
    match r {
        Ok(c) => Ok(c@),
        Err(e) => Err(e),
    }
}

fn first_present(a: &Option<String>, b: &Option<String>) -> (r: Option<String>)
    ensures
        opt_string_view(r) == either(opt_string_view(*a), opt_string_view(*b)),
{
    match a {
        Some(x) => Some(x.clone()),
        None => match b {
            Some(y) => Some(y.clone()),
            None => None,
        },
    }
}

impl Commit {
    /// Normalizes a raw commit of the repository `conf`.
    pub fn try_from(conf: &conf::Repository, raw: &RawCommit) -> (r: Result<Commit, ParseError>)
        ensures
            commit_result_view(r) == normalize_spec(opt_string_view(conf.link), *raw),
    {
        let author = match first_present(&raw.author, &raw.committer) {
            Some(a) => a,
            None => return Err(ParseError::MissingIdentity),
        };
        let message = match first_present(&raw.summary, &raw.message) {
            Some(m) => m,
            None => return Err(ParseError::MissingMessage),
        };
        let date = match iso_date(raw.time) {
            Some(d) => d,
            None => return Err(ParseError::InvalidTimestamp),
        };
        let link = match &conf.link {
            None => None,
            Some(t) => match fill_template(t.as_str(), "hash", raw.id.as_str()) {
                Ok(l) => Some(l),
                Err(_) => return Err(ParseError::LinkTemplateError),
            },
        };
        let hash = if raw.id.unicode_len() <= 7 {
            raw.id.clone()
        } else {
            String::from_str(raw.id.substring_char(0, 7))
        };
        Ok(Commit { hash, message, author, date, link })
    }
}

/// A tag of the repository: its name and, for an annotated tag, the commit
/// it points at. A lightweight tag, or one that cannot be resolved, has no
/// target.
#[derive(Clone, Debug)]
pub struct RawTag {
    pub name: String,
    pub target: Option<String>,
}

/// The map from commit identifier to tag name that `tags` give: only tags
/// with a target count, and a later tag on the same commit wins.
pub open spec fn tag_index_spec(tags: Seq<RawTag>) -> Map<Seq<char>, Seq<char>>
    decreases tags.len(),
{
    if tags.len() == 0 {
        Map::empty()
    } else {
        let m = tag_index_spec(tags.drop_last());
        match tags.last().target {
            Some(t) => m.insert(t@, tags.last().name@),
            None => m,
        }
    }
}

/// The map that a list of (commit, tag name) pairs gives, later pairs first.
pub open spec fn pairs_map(s: Seq<(String, String)>) -> Map<Seq<char>, Seq<char>>
    decreases s.len(),
{
    if s.len() == 0 {
        Map::empty()
    } else {
        pairs_map(s.drop_last()).insert(s.last().0@, s.last().1@)
    }
}

/// Which commit each annotated tag points at, built once before a walk.
pub struct TagIndex {
    entries: Vec<(String, String)>,
}

impl View for TagIndex {
    type V = Map<Seq<char>, Seq<char>>;

    closed spec fn view(&self) -> Map<Seq<char>, Seq<char>> {
        pairs_map(self.entries@)
    }
}

impl TagIndex {
    /// Indexes the tags that have a target.
    pub fn build(tags: &Vec<RawTag>) -> (r: TagIndex)
        ensures
            r@ == tag_index_spec(tags@),
    {
        let mut entries: Vec<(String, String)> = Vec::new();
        let mut i: usize = 0;
        while i < tags.len()
            invariant
                i <= tags.len(),
                pairs_map(entries@) == tag_index_spec(tags@.take(i as int)),
            decreases tags.len() - i,
        {
            assert(tags@.take(i + 1).drop_last() =~= tags@.take(i as int));
            if let Some(t) = &tags[i].target {
                let old_entries = Ghost(entries@);
                entries.push((t.clone(), tags[i].name.clone()));
                assert(entries@.drop_last() =~= old_entries@);
            }
            i = i + 1;
        }
        assert(tags@.take(tags.len() as int) =~= tags@);
        TagIndex { entries }
    }

    /// The name of the tag on the commit `id`.
    pub fn lookup(&self, id: &String) -> (r: Option<String>)
        ensures
            match r {
                Some(n) => self@.contains_key(id@) && self@[id@] == n@,
                None => !self@.contains_key(id@),
            },
    {
        let mut j: usize = self.entries.len();
        assert(self.entries@.take(j as int) =~= self.entries@);
        while j > 0
            invariant
                j <= self.entries.len(),
                pairs_map(self.entries@).contains_key(id@) == pairs_map(
                    self.entries@.take(j as int),
                ).contains_key(id@),
                pairs_map(self.entries@).contains_key(id@) ==> pairs_map(self.entries@)[id@]
                    == pairs_map(self.entries@.take(j as int))[id@],
            decreases j,
        {
            assert(self.entries@.take(j as int).drop_last() =~= self.entries@.take(j - 1));
            if self.entries[j - 1].0 == *id {
                return Some(self.entries[j - 1].1.clone());
            }
            j = j - 1;
        }
        None
    }
}

/// Commits bucketed by kind label, each bucket in walk order, the buckets in
/// the order in which their labels first appeared.
pub type GroupView = Seq<(Seq<char>, Seq<CommitView>)>;

/// The buckets of a release over sequences of characters.
pub open spec fn group_view(g: Seq<(String, Vec<Commit>)>) -> GroupView {
    g.map_values(|p: (String, Vec<Commit>)| (p.0@, p.1@.map_values(|c: Commit| c@)))
}

/// `g` with `c` appended to the bucket of `label`, which is opened at the end
/// where there is none yet.
pub open spec fn group_push(g: GroupView, label: Seq<char>, c: CommitView) -> GroupView
    decreases g.len(),
{
    if g.len() == 0 {
        seq![(label, seq![c])]
    } else if g[0].0 == label {
        g.update(0, (label, g[0].1.push(c)))
    } else {
        seq![g[0]] + group_push(g.drop_first(), label, c)
    }
}

proof fn lemma_group_push_at(g: GroupView, label: Seq<char>, c: CommitView, j: int)
    requires
        0 <= j < g.len(),
        g[j].0 == label,
        forall|i: int| 0 <= i < j ==> g[i].0 != label,
    ensures
        group_push(g, label, c) == g.update(j, (label, g[j].1.push(c))),
    decreases g.len(),
{
    if j > 0 {
        lemma_group_push_at(g.drop_first(), label, c, j - 1);
        assert(group_push(g, label, c) =~= g.update(j, (label, g[j].1.push(c))));
    }
}

proof fn lemma_group_push_new(g: GroupView, label: Seq<char>, c: CommitView)
    requires
        forall|i: int| 0 <= i < g.len() ==> g[i].0 != label,
    ensures
        group_push(g, label, c) == g.push((label, seq![c])),
    decreases g.len(),
{
    if g.len() == 0 {
        assert(seq![(label, seq![c])] =~= g.push((label, seq![c])));
    } else {
        lemma_group_push_new(g.drop_first(), label, c);
        assert(group_push(g, label, c) =~= g.push((label, seq![c])));
    }
}

/// Appends `c` to the bucket of `label`.
fn push_commit(group: &mut Vec<(String, Vec<Commit>)>, label: String, c: Commit)
    ensures
        group_view(final(group)@) == group_push(group_view(old(group)@), label@, c@),
{
    let mut j: usize = 0;
    while j < group.len()
        invariant
            j <= group.len(),
            group@ == old(group)@,
            forall|i: int| 0 <= i < j ==> group@[i].0@ != label@,
        decreases group.len() - j,
    {
        if group[j].0 == label {
            proof {
                lemma_group_push_at(group_view(group@), label@, c@, j as int);
            }
            let ghost c_view = c@;
            let mut pair = group.remove(j);
            let ghost old_bucket = pair.1@;
            pair.1.push(c);
            assert(pair.1@.map_values(|x: Commit| x@) =~= old_bucket.map_values(|x: Commit| x@).push(c_view));
            group.insert(j, pair);
            assert(group_view(group@) =~= group_view(old(group)@).update(
                j as int,
                (label@, group_view(old(group)@)[j as int].1.push(c_view)),
            ));
            return;
        }
        j = j + 1;
    }
    proof {
        lemma_group_push_new(group_view(group@), label@, c@);
    }
    let ghost c_view = c@;
    let mut bucket: Vec<Commit> = Vec::new();
    bucket.push(c);
    assert(bucket@.map_values(|x: Commit| x@) =~= seq![c_view]);
    group.push((label, bucket));
    assert(group_view(group@) =~= group_view(old(group)@).push((label@, seq![c_view])));
}

/// A release: its tag name and its commits bucketed by kind label.
#[derive(Clone, Debug)]
pub struct Tag {
    pub name: String,
    pub commits: Vec<(String, Vec<Commit>)>,
}

/// A release over sequences of characters.
pub struct TagView {
    pub name: Seq<char>,
    pub commits: GroupView,
}

impl View for Tag {
    type V = TagView;

    open spec fn view(&self) -> TagView {
        TagView { name: self.name@, commits: group_view(self.commits@) }
    }
}

/// Releases over sequences of characters.
pub open spec fn tags_view(t: Seq<Tag>) -> Seq<TagView> {
    t.map_values(|x: Tag| x@)
}

impl Tag {
    /// A release named `name` holding `commits`.
    pub fn from(tuple: (String, Vec<(String, Vec<Commit>)>)) -> (r: Tag)
        ensures
            r@ == (TagView { name: tuple.0@, commits: group_view(tuple.1@) }),
    {
        let (name, commits) = tuple;
        Tag { name, commits }
    }
}

/// What the walk over `commits` (oldest-first) has built: the closed
/// releases in the order in which they closed, and the open bucket. An error
/// names the commit that could not be normalized.
pub open spec fn walk_spec(
    kinds: Seq<(String, String)>,
    link: Option<Seq<char>>,
    index: Map<Seq<char>, Seq<char>>,
    commits: Seq<RawCommit>,
) -> Result<(Seq<TagView>, GroupView), (Seq<char>, ParseError)>
    decreases commits.len(),
{
    if commits.len() == 0 {
        Ok((seq![], seq![]))
    } else {
        match walk_spec(kinds, link, index, commits.drop_last()) {
            Err(e) => Err(e),
            Ok((done, open)) => {
                let raw = commits.last();
                match normalize_spec(link, raw) {
                    Err(e) => Err((raw.id@, e)),
                    Ok(c) => match classify_spec(c.message, message_captures(c.message), kinds) {
                        ClassificationView::Skipped(_) => Ok((done, open)),
                        ClassificationView::Accepted { label, .. } => {
                            let grown = group_push(open, label, c);
                            if index.contains_key(raw.id@) {
                                Ok((done.push(TagView { name: index[raw.id@], commits: grown }), seq![]))
                            } else {
                                Ok((done, grown))
                            }
                        },
                    },
                }
            },
        }
    }
}

proof fn lemma_walk_error_stays(
    kinds: Seq<(String, String)>,
    link: Option<Seq<char>>,
    index: Map<Seq<char>, Seq<char>>,
    commits: Seq<RawCommit>,
    k: int,
)
    requires
        0 <= k <= commits.len(),
        walk_spec(kinds, link, index, commits.take(k)) is Err,
    ensures
        walk_spec(kinds, link, index, commits) == walk_spec(kinds, link, index, commits.take(k)),
    decreases commits.len(),
{
    if k == commits.len() {
        assert(commits.take(k) =~= commits);
    } else {
        assert(commits.drop_last().take(k) =~= commits.take(k));
        lemma_walk_error_stays(kinds, link, index, commits.drop_last(), k);
    }
}

/// The name of the release that holds commits not yet under any tag.
pub open spec fn preview_name() -> Seq<char> {
    "Technical preview"@
}

/// The releases in the order in which they closed, with the open bucket
/// closed last where it holds anything.
pub open spec fn close_walk(done: Seq<TagView>, open: GroupView) -> Seq<TagView> {
    if open.len() > 0 {
        done.push(TagView { name: preview_name(), commits: open })
    } else {
        done
    }
}

/// The history of a repository: its commits oldest-first, and its tags.
#[derive(Clone, Debug)]
pub struct History {
    pub commits: Vec<RawCommit>,
    pub tags: Vec<RawTag>,
}

/// The changelog of one repository: its releases, newest first.
#[derive(Clone, Debug)]
pub struct Repository {
    pub name: String,
    pub tags: Vec<Tag>,
}

/// The changelog of a repository over sequences of characters.
pub struct RepositoryView {
    pub name: Seq<char>,
    pub tags: Seq<TagView>,
}

impl View for Repository {
    type V = RepositoryView;

    open spec fn view(&self) -> RepositoryView {
        RepositoryView { name: self.name@, tags: tags_view(self.tags@) }
    }
}

/// A commit that stopped the walk of a repository, and why.
#[derive(Clone, Debug)]
pub struct WalkError {
    pub commit: String,
    pub reason: ParseError,
}

/// The changelog of the repository `conf` over `history`.
pub open spec fn repository_spec(
    kinds: Seq<(String, String)>,
    conf: conf::Repository,
    history: History,
) -> Result<RepositoryView, (Seq<char>, ParseError)> {
    match walk_spec(
        kinds,
        opt_string_view(conf.link),
        tag_index_spec(history.tags@),
        history.commits@,
    ) {
        Err(e) => Err(e),
        Ok((done, open)) => Ok(
            RepositoryView { name: conf.name@, tags: close_walk(done, open).reverse() },
        ),
    }
}

/// The outcome of a walk over sequences of characters.
pub open spec fn repository_result_view(r: Result<Repository, WalkError>) -> Result<
    RepositoryView,
    (Seq<char>, ParseError),
> {
    match r {
        Ok(repo) => Ok(repo@),
        Err(e) => Err((e.commit@, e.reason)),
    }
}

fn reversed(v: Vec<Tag>) -> (r: Vec<Tag>)
    ensures
        tags_view(r@) == tags_view(v@).reverse(),
{
    let ghost orig = v@;
    let mut v = v;
    let mut out: Vec<Tag> = Vec::new();
    while v.len() > 0
        invariant
            v@ == orig.take(v.len() as int),
            v.len() <= orig.len(),
            out.len() + v.len() == orig.len(),
            forall|j: int| 0 <= j < out.len() ==> out@[j] == orig[orig.len() - 1 - j],
        decreases v.len(),
    {
        assert(orig.take(v.len() as int).drop_last() =~= orig.take(v.len() - 1));
        match v.pop() {
            Some(t) => out.push(t),
            None => {},
        }
    }
    assert(tags_view(out@) =~= tags_view(orig).reverse());
    out
}

impl Repository {
    /// An empty changelog for the repository `name`.
    pub fn from(name: String) -> (r: Repository)
        ensures
            r@ == (RepositoryView { name: name@, tags: seq![] }),
    {
        let r = Repository { name, tags: Vec::new() };
        assert(r@.tags =~= seq![]);
        r
    }

    /// Walks `history` (commits oldest-first) and groups its classified
    /// commits into releases, newest first.
    pub fn try_from(kinds: &Vec<(String, String)>, conf: &conf::Repository, history: &History) -> (r:
        Result<Repository, WalkError>)
        ensures
            repository_result_view(r) == repository_spec(kinds@, *conf, *history),
    {
        let index = TagIndex::build(&history.tags);
        let ghost link = opt_string_view(conf.link);
        let mut done: Vec<Tag> = Vec::new();
        let mut open: Vec<(String, Vec<Commit>)> = Vec::new();
        let mut i: usize = 0;
        assert(tags_view(done@) =~= seq![]);
        assert(group_view(open@) =~= seq![]);
        while i < history.commits.len()
            invariant
                i <= history.commits.len(),
                link == opt_string_view(conf.link),
                index@ == tag_index_spec(history.tags@),
                walk_spec(kinds@, link, index@, history.commits@.take(i as int)) == Ok::<
                    (Seq<TagView>, GroupView),
                    (Seq<char>, ParseError),
                >((tags_view(done@), group_view(open@))),
            decreases history.commits.len() - i,
        {
            let raw = &history.commits[i];
            assert(history.commits@.take(i + 1).drop_last() =~= history.commits@.take(i as int));
            assert(history.commits@.take(i + 1).last() == *raw);
            let commit = match Commit::try_from(conf, raw) {
                Ok(c) => c,
                Err(e) => {
                    proof {
                        lemma_walk_error_stays(
                            kinds@,
                            link,
                            index@,
                            history.commits@,
                            i + 1,
                        );
                    }
                    return Err(WalkError { commit: raw.id.clone(), reason: e });
                },
            };
            match classify(commit.message.as_str(), kinds) {
                Classification::Skipped(_) => {},
                Classification::Accepted { label, scope: _ } => {
                    push_commit(&mut open, label, commit);
                    match index.lookup(&raw.id) {
                        Some(name) => {
                            let ghost before = done@;
                            done.push(Tag { name, commits: open });
                            assert(tags_view(done@) =~= tags_view(before).push(done@.last()@));
                            open = Vec::new();
                            assert(group_view(open@) =~= seq![]);
                        },
                        None => {},
                    }
                },
            }
            i = i + 1;
        }
        assert(history.commits@.take(history.commits.len() as int) =~= history.commits@);
        let ghost done_view = tags_view(done@);
        let ghost open_view = group_view(open@);
        if open.len() > 0 {
            done.push(Tag { name: String::from_str("Technical preview"), commits: open });
            assert(tags_view(done@) =~= done_view.push(done@.last()@));
        }
        let tags = reversed(done);
        Ok(Repository { name: conf.name.clone(), tags })
    }
}

/// Repository changelogs over sequences of characters.
pub open spec fn repositories_view(s: Seq<Repository>) -> Seq<RepositoryView> {
    s.map_values(|r: Repository| r@)
}

/// The changelog of every configured repository, in configuration order.
#[derive(Clone, Debug)]
pub struct Changelog {
    pub repositories: Vec<Repository>,
}

/// The repository and the commit that stopped a run, and why.
#[derive(Clone, Debug)]
pub struct ChangelogError {
    pub repository: String,
    pub commit: String,
    pub reason: ParseError,
}

/// The changelogs of `inputs`, or the first failure among them together with
/// the name of its repository.
pub open spec fn changelog_spec(
    kinds: Seq<(String, String)>,
    inputs: Seq<(conf::Repository, History)>,
) -> Result<Seq<RepositoryView>, (Seq<char>, Seq<char>, ParseError)>
    decreases inputs.len(),
{
    if inputs.len() == 0 {
        Ok(seq![])
    } else {
        match changelog_spec(kinds, inputs.drop_last()) {
            Err(e) => Err(e),
            Ok(done) => match repository_spec(kinds, inputs.last().0, inputs.last().1) {
                Err((commit, reason)) => Err((inputs.last().0.name@, commit, reason)),
                Ok(repo) => Ok(done.push(repo)),
            },
        }
    }
}

/// The outcome of a run over sequences of characters.
pub open spec fn changelog_result_view(r: Result<Changelog, ChangelogError>) -> Result<
    Seq<RepositoryView>,
    (Seq<char>, Seq<char>, ParseError),
> {
    match r {
        Ok(c) => Ok(repositories_view(c.repositories@)),
        Err(e) => Err((e.repository@, e.commit@, e.reason)),
    }
}

proof fn lemma_changelog_error_stays(
    kinds: Seq<(String, String)>,
    inputs: Seq<(conf::Repository, History)>,
    k: int,
)
    requires
        0 <= k <= inputs.len(),
        changelog_spec(kinds, inputs.take(k)) is Err,
    ensures
        changelog_spec(kinds, inputs) == changelog_spec(kinds, inputs.take(k)),
    decreases inputs.len(),
{
    if k == inputs.len() {
        assert(inputs.take(k) =~= inputs);
    } else {
        assert(inputs.drop_last().take(k) =~= inputs.take(k));
        lemma_changelog_error_stays(kinds, inputs.drop_last(), k);
    }
}

impl Changelog {
    /// Walks each repository with its history, in order, and stops at the
    /// first one that fails.
    pub fn try_from(kinds: &Vec<(String, String)>, inputs: &Vec<(conf::Repository, History)>) -> (r:
        Result<Changelog, ChangelogError>)
        ensures
            changelog_result_view(r) == changelog_spec(kinds@, inputs@),
    {
        let mut repositories: Vec<Repository> = Vec::new();
        let mut i: usize = 0;
        assert(repositories_view(repositories@) =~= seq![]);
        while i < inputs.len()
            invariant
                i <= inputs.len(),
                changelog_spec(kinds@, inputs@.take(i as int)) == Ok::<
                    Seq<RepositoryView>,
                    (Seq<char>, Seq<char>, ParseError),
                >(repositories_view(repositories@)),
            decreases inputs.len() - i,
        {
            let (conf, history) = &inputs[i];
            assert(inputs@.take(i + 1).drop_last() =~= inputs@.take(i as int));
            assert(inputs@.take(i + 1).last() == inputs@[i as int]);
            match Repository::try_from(kinds, conf, history) {
                Ok(repo) => {
                    let ghost before = repositories@;
                    repositories.push(repo);
                    assert(repositories_view(repositories@) =~= repositories_view(before).push(
                        repositories@.last()@,
                    ));
                },
                Err(e) => {
                    proof {
                        lemma_changelog_error_stays(kinds@, inputs@, i + 1);
                    }
                    return Err(
                        ChangelogError {
                            repository: conf.name.clone(),
                            commit: e.commit,
                            reason: e.reason,
                        },
                    );
                },
            }
            i = i + 1;
        }
        assert(inputs@.take(inputs.len() as int) =~= inputs@);
        Ok(Changelog { repositories })
    }
}

/// The changelog model handed to the HTML renderer.
#[derive(Clone, Debug)]
pub struct HTMLChangelog {
    pub repositories: Vec<Repository>,
}

impl HTMLChangelog {
    /// The model of `changelog`, handed over as it is.
    pub fn from(changelog: Changelog) -> (r: HTMLChangelog)
        ensures
            r.repositories@ == changelog.repositories@,
    {
        HTMLChangelog { repositories: changelog.repositories }
    }
}

/// The changelog model handed to the Markdown renderer.
#[derive(Clone, Debug)]
pub struct MarkdownChangelog {
    pub repositories: Vec<Repository>,
}

impl MarkdownChangelog {
    /// The model of `changelog`, handed over as it is.
    pub fn from(changelog: Changelog) -> (r: MarkdownChangelog)
        ensures
            r.repositories@ == changelog.repositories@,
    {
        MarkdownChangelog { repositories: changelog.repositories }
    }
}

} // verus!

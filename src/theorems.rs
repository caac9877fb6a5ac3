//! Facts about the history walk that hold of every input.

use vstd::prelude::*;

use crate::classify::{classify_spec, message_captures, ClassificationView, Skip};
use crate::conf;
use crate::parser::{
    changelog_result_view, changelog_spec, close_walk, Changelog, ChangelogError, group_push, normalize_spec, repository_spec, tag_index_spec,
    walk_spec, CommitView, GroupView, History, RawCommit, TagView,
};

verus! {

/// The number of commits in all buckets of a group.
pub open spec fn group_size(g: GroupView) -> nat
    decreases g.len(),
{
    if g.len() == 0 {
        0
    } else {
        g[0].1.len() + group_size(g.drop_first())
    }
}

/// The number of commits in all releases.
pub open spec fn tags_size(t: Seq<TagView>) -> nat
    decreases t.len(),
{
    if t.len() == 0 {
        0
    } else {
        tags_size(t.drop_last()) + group_size(t.last().commits)
    }
}

/// How many of `commits` normalize and are then skipped for the reason `why`.
pub open spec fn skip_count(
    kinds: Seq<(String, String)>,
    link: Option<Seq<char>>,
    commits: Seq<RawCommit>,
    why: Skip,
) -> nat
    decreases commits.len(),
{
    if commits.len() == 0 {
        0
    } else {
        let rest = skip_count(kinds, link, commits.drop_last(), why);
        match normalize_spec(link, commits.last()) {
            Ok(c) => match classify_spec(c.message, message_captures(c.message), kinds) {
                ClassificationView::Skipped(w) => if w == why {
                    rest + 1
                } else {
                    rest
                },
                _ => rest,
            },
            Err(_) => rest,
        }
    }
}

proof fn lemma_group_push_size(g: GroupView, label: Seq<char>, c: CommitView)
    ensures
        group_size(group_push(g, label, c)) == group_size(g) + 1,
    decreases g.len(),
{
    if g.len() == 0 {
        let r = group_push(g, label, c);
        assert(r.drop_first() =~= Seq::<(Seq<char>, Seq<CommitView>)>::empty());
        assert(group_size(r.drop_first()) == 0);
        assert(r[0].1.len() == 1);
    } else if g[0].0 == label {
        let r = group_push(g, label, c);
        assert(r.drop_first() =~= g.drop_first());
    } else {
        lemma_group_push_size(g.drop_first(), label, c);
        let r = group_push(g, label, c);
        assert(r.drop_first() =~= group_push(g.drop_first(), label, c));
    }
}

proof fn lemma_tags_size_prepend(x: TagView, s: Seq<TagView>)
    ensures
        tags_size(seq![x] + s) == group_size(x.commits) + tags_size(s),
    decreases s.len(),
{
    if s.len() == 0 {
        assert((seq![x] + s).drop_last() =~= Seq::<TagView>::empty());
        assert(tags_size((seq![x] + s).drop_last()) == 0);
        assert(s =~= Seq::<TagView>::empty());
        assert((seq![x] + s).last() == x);
    } else {
        lemma_tags_size_prepend(x, s.drop_last());
        assert((seq![x] + s).drop_last() =~= seq![x] + s.drop_last());
        assert((seq![x] + s).last() == s.last());
    }
}

proof fn lemma_tags_size_reverse(t: Seq<TagView>)
    ensures
        tags_size(t.reverse()) == tags_size(t),
    decreases t.len(),
{
    if t.len() > 0 {
        lemma_tags_size_reverse(t.drop_last());
        assert(t.reverse() =~= seq![t.last()] + t.drop_last().reverse());
        lemma_tags_size_prepend(t.last(), t.drop_last().reverse());
    }
}

proof fn lemma_walk_count(
    kinds: Seq<(String, String)>,
    link: Option<Seq<char>>,
    index: Map<Seq<char>, Seq<char>>,
    commits: Seq<RawCommit>,
)
    requires
        walk_spec(kinds, link, index, commits) is Ok,
    ensures
        ({
            let (done, open) = walk_spec(kinds, link, index, commits)->Ok_0;
            tags_size(done) + group_size(open) + skip_count(kinds, link, commits, Skip::Merge)
                + skip_count(kinds, link, commits, Skip::Pattern) + skip_count(
                kinds,
                link,
                commits,
                Skip::UnknownKind,
            ) == commits.len()
        }),
    decreases commits.len(),
{
    if commits.len() > 0 {
        let prev = commits.drop_last();
        lemma_walk_count(kinds, link, index, prev);
        let (done, open) = walk_spec(kinds, link, index, prev)->Ok_0;
        let raw = commits.last();
        let c = normalize_spec(link, raw)->Ok_0;
        match classify_spec(c.message, message_captures(c.message), kinds) {
            ClassificationView::Skipped(_) => {},
            ClassificationView::Accepted { label, .. } => {
                lemma_group_push_size(open, label, c);
                let grown = group_push(open, label, c);
                if index.contains_key(raw.id@) {
                    let closed = done.push(TagView { name: index[raw.id@], commits: grown });
                    assert(closed.drop_last() =~= done);
                    assert(group_size(Seq::<(Seq<char>, Seq<CommitView>)>::empty()) == 0);
                }
            },
        }
    }
}

/// Every walked commit of a repository whose walk succeeds is either in the
/// bucket of exactly one release, or skipped as a merge, as a message of the
/// wrong shape, or as a kind outside the vocabulary.
pub proof fn law_commit_count(kinds: Seq<(String, String)>, conf: conf::Repository, history: History)
    requires
        repository_spec(kinds, conf, history) is Ok,
    ensures
        ({
            let link = opt_link(conf);
            tags_size(repository_spec(kinds, conf, history)->Ok_0.tags) + skip_count(
                kinds,
                link,
                history.commits@,
                Skip::Merge,
            ) + skip_count(kinds, link, history.commits@, Skip::Pattern) + skip_count(
                kinds,
                link,
                history.commits@,
                Skip::UnknownKind,
            ) == history.commits@.len()
        }),
{
    let link = opt_link(conf);
    let index = tag_index_spec(history.tags@);
    lemma_walk_count(kinds, link, index, history.commits@);
    let (done, open) = walk_spec(kinds, link, index, history.commits@)->Ok_0;
    let all = close_walk(done, open);
    lemma_tags_size_reverse(all);
    if open.len() > 0 {
        assert(all.drop_last() =~= done);
    } else {
        assert(group_size(open) == 0);
    }
}

/// The link template of a configured repository, as a sequence.
pub open spec fn opt_link(conf: conf::Repository) -> Option<Seq<char>> {
    crate::classify::opt_string_view(conf.link)
}

proof fn lemma_group_push_lands(g: GroupView, label: Seq<char>, c: CommitView)
    ensures
        exists|j: int|
            0 <= j < group_push(g, label, c).len() && #[trigger] group_push(g, label, c)[j].0
                == label && group_push(g, label, c)[j].1.len() > 0 && group_push(
                g,
                label,
                c,
            )[j].1.last() == c,
    decreases g.len(),
{
    let r = group_push(g, label, c);
    if g.len() == 0 || g[0].0 == label {
        assert(r[0].0 == label && r[0].1.len() > 0 && r[0].1.last() == c);
    } else {
        lemma_group_push_lands(g.drop_first(), label, c);
        let j = choose|j: int|
            0 <= j < group_push(g.drop_first(), label, c).len() && #[trigger] group_push(
                g.drop_first(),
                label,
                c,
            )[j].0 == label && group_push(g.drop_first(), label, c)[j].1.len() > 0
                && group_push(g.drop_first(), label, c)[j].1.last() == c;
        assert(r[j + 1] == group_push(g.drop_first(), label, c)[j]);
    }
}

/// The label of an accepted classification.
pub open spec fn accepted_label(v: ClassificationView) -> Seq<char> {
    match v {
        ClassificationView::Accepted { label, .. } => label,
        ClassificationView::Skipped(_) => seq![],
    }
}

/// A classified commit that carries a tag closes the release of that tag: it
/// is the last commit of its kind's bucket there, and the next release starts
/// with nothing in it.
pub proof fn law_tagged_commit_closes_its_release(
    kinds: Seq<(String, String)>,
    link: Option<Seq<char>>,
    index: Map<Seq<char>, Seq<char>>,
    commits: Seq<RawCommit>,
    k: int,
)
    requires
        0 <= k < commits.len(),
        walk_spec(kinds, link, index, commits.take(k + 1)) is Ok,
        index.contains_key(commits[k].id@),
        normalize_spec(link, commits[k]) is Ok,
        classify_spec(
            normalize_spec(link, commits[k])->Ok_0.message,
            message_captures(normalize_spec(link, commits[k])->Ok_0.message),
            kinds,
        ) is Accepted,
    ensures
        ({
            let (done, open) = walk_spec(kinds, link, index, commits.take(k + 1))->Ok_0;
            let c = normalize_spec(link, commits[k])->Ok_0;
            let label = accepted_label(classify_spec(c.message, message_captures(c.message), kinds));
            &&& open.len() == 0
            &&& done.len() > 0
            &&& done.last().name == index[commits[k].id@]
            &&& exists|j: int|
                0 <= j < done.last().commits.len() && #[trigger] done.last().commits[j].0 == label
                    && done.last().commits[j].1.len() > 0 && done.last().commits[j].1.last() == c
        }),
{
    let pre = commits.take(k + 1);
    assert(pre.drop_last() =~= commits.take(k));
    assert(pre.last() == commits[k]);
    assert(walk_spec(kinds, link, index, commits.take(k)) is Ok);
    let (done0, open0) = walk_spec(kinds, link, index, commits.take(k))->Ok_0;
    let c = normalize_spec(link, commits[k])->Ok_0;
    let label = accepted_label(classify_spec(c.message, message_captures(c.message), kinds));
    lemma_group_push_lands(open0, label, c);
    let grown = group_push(open0, label, c);
    let tag = TagView { name: index[commits[k].id@], commits: grown };
    assert(walk_spec(kinds, link, index, pre) == Ok::<(Seq<TagView>, GroupView), (Seq<char>, crate::parser::ParseError)>((done0.push(tag), seq![])));
    assert(done0.push(tag).last() == tag);
    let j = choose|j: int|
        0 <= j < grown.len() && #[trigger] grown[j].0 == label && grown[j].1.len() > 0
            && grown[j].1.last() == c;
    let (done, open) = walk_spec(kinds, link, index, pre)->Ok_0;
    assert(done.last().commits[j].0 == label);
}

/// Running the pipeline twice on the same configuration and histories gives
/// the same model, or the same failure.
pub proof fn law_changelog_is_deterministic(
    kinds: Seq<(String, String)>,
    inputs: Seq<(conf::Repository, History)>,
    first: Result<Changelog, ChangelogError>,
    second: Result<Changelog, ChangelogError>,
)
    requires
        changelog_result_view(first) == changelog_spec(kinds, inputs),
        changelog_result_view(second) == changelog_spec(kinds, inputs),
    ensures
        changelog_result_view(first) == changelog_result_view(second),
{
}

/// The bucket of `label` in `g` (the first with that label), empty where
/// there is none.
pub open spec fn bucket_of(g: GroupView, label: Seq<char>) -> Seq<CommitView>
    decreases g.len(),
{
    if g.len() == 0 {
        seq![]
    } else if g[0].0 == label {
        g[0].1
    } else {
        bucket_of(g.drop_first(), label)
    }
}

/// The buckets of `label` of the releases `t`, one after the other.
pub open spec fn releases_bucket(t: Seq<TagView>, label: Seq<char>) -> Seq<CommitView>
    decreases t.len(),
{
    if t.len() == 0 {
        seq![]
    } else {
        releases_bucket(t.drop_last(), label) + bucket_of(t.last().commits, label)
    }
}

/// The commits among `commits` that are accepted under `label`, in walk
/// order.
pub open spec fn labelled(
    kinds: Seq<(String, String)>,
    link: Option<Seq<char>>,
    commits: Seq<RawCommit>,
    label: Seq<char>,
) -> Seq<CommitView>
    decreases commits.len(),
{
    if commits.len() == 0 {
        seq![]
    } else {
        let rest = labelled(kinds, link, commits.drop_last(), label);
        match normalize_spec(link, commits.last()) {
            Ok(c) => match classify_spec(c.message, message_captures(c.message), kinds) {
                ClassificationView::Accepted { label: l, .. } => if l == label {
                    rest.push(c)
                } else {
                    rest
                },
                ClassificationView::Skipped(_) => rest,
            },
            Err(_) => rest,
        }
    }
}

proof fn lemma_bucket_of_push(g: GroupView, l: Seq<char>, c: CommitView, x: Seq<char>)
    ensures
        bucket_of(group_push(g, l, c), x) == (if x == l {
            bucket_of(g, l).push(c)
        } else {
            bucket_of(g, x)
        }),
    decreases g.len(),
{
    let r = group_push(g, l, c);
    if g.len() == 0 {
        assert(r.drop_first() =~= Seq::<(Seq<char>, Seq<CommitView>)>::empty());
        assert(bucket_of(g, l) =~= Seq::<CommitView>::empty());
        assert(seq![c] =~= Seq::<CommitView>::empty().push(c));
        assert(bucket_of(r.drop_first(), x) =~= Seq::<CommitView>::empty());
        assert(bucket_of(g, x) =~= Seq::<CommitView>::empty());
    } else if g[0].0 == l {
        assert(r.drop_first() =~= g.drop_first());
    } else {
        lemma_bucket_of_push(g.drop_first(), l, c, x);
        assert(r.drop_first() =~= group_push(g.drop_first(), l, c));
    }
}

proof fn lemma_walk_buckets(
    kinds: Seq<(String, String)>,
    link: Option<Seq<char>>,
    index: Map<Seq<char>, Seq<char>>,
    commits: Seq<RawCommit>,
    x: Seq<char>,
)
    requires
        walk_spec(kinds, link, index, commits) is Ok,
    ensures
        ({
            let (done, open) = walk_spec(kinds, link, index, commits)->Ok_0;
            releases_bucket(done, x) + bucket_of(open, x) == labelled(kinds, link, commits, x)
        }),
    decreases commits.len(),
{
    if commits.len() == 0 {
        assert(Seq::<CommitView>::empty() + Seq::<CommitView>::empty() =~= Seq::<
            CommitView,
        >::empty());
    } else {
        let prev = commits.drop_last();
        lemma_walk_buckets(kinds, link, index, prev, x);
        let (done, open) = walk_spec(kinds, link, index, prev)->Ok_0;
        let raw = commits.last();
        let c = normalize_spec(link, raw)->Ok_0;
        match classify_spec(c.message, message_captures(c.message), kinds) {
            ClassificationView::Skipped(_) => {},
            ClassificationView::Accepted { label, .. } => {
                lemma_bucket_of_push(open, label, c, x);
                let grown = group_push(open, label, c);
                if index.contains_key(raw.id@) {
                    let closed = done.push(TagView { name: index[raw.id@], commits: grown });
                    assert(closed.drop_last() =~= done);
                    assert(releases_bucket(closed, x) + bucket_of(seq![], x) =~= releases_bucket(
                        done,
                        x,
                    ) + bucket_of(grown, x));
                }
                assert(releases_bucket(done, x) + bucket_of(open, x).push(c) =~= (
                releases_bucket(done, x) + bucket_of(open, x)).push(c));
            },
        }
    }
}

/// Releases come newest first. Read oldest first, the buckets of one kind
/// hold exactly the commits accepted under that kind, in walk order.
pub proof fn law_release_order(
    kinds: Seq<(String, String)>,
    conf: conf::Repository,
    history: History,
    label: Seq<char>,
)
    requires
        repository_spec(kinds, conf, history) is Ok,
    ensures
        releases_bucket(repository_spec(kinds, conf, history)->Ok_0.tags.reverse(), label)
            == labelled(kinds, opt_link(conf), history.commits@, label),
{
    let link = opt_link(conf);
    let index = tag_index_spec(history.tags@);
    lemma_walk_buckets(kinds, link, index, history.commits@, label);
    let (done, open) = walk_spec(kinds, link, index, history.commits@)->Ok_0;
    let all = close_walk(done, open);
    assert(all.reverse().reverse() =~= all);
    if open.len() > 0 {
        assert(all.drop_last() =~= done);
    } else {
        assert(bucket_of(open, label) =~= Seq::<CommitView>::empty());
        assert(releases_bucket(done, label) + bucket_of(open, label) =~= releases_bucket(
            done,
            label,
        ));
    }
}

} // verus!

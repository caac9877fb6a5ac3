//! Configuration of a changelog run: the kind vocabulary and the repositories.

use vstd::prelude::*;

verus! {

/// One configured repository.
#[derive(Clone, Debug)]
pub struct Repository {
    pub name: String,
    /// Where the repository is found on disk.
    pub path: String,
    /// The scopes that commit messages may name, when restricted.
    pub scopes: Option<Vec<String>>,
    /// A revision range to walk instead of everything reachable from HEAD.
    pub range: Option<String>,
    /// A link template holding a `{hash}` placeholder.
    pub link: Option<String>,
}

/// A whole run: the kind vocabulary (raw token, canonical label) and the
/// repositories, in the order in which they are reported.
#[derive(Clone, Debug)]
pub struct Configuration {
    pub kinds: Vec<(String, String)>,
    pub repositories: Vec<Repository>,
}

/// The label that `kinds` gives to the raw token `k`: the first entry whose
/// token is `k`.
pub open spec fn label_of(kinds: Seq<(String, String)>, k: Seq<char>) -> Option<Seq<char>>
    decreases kinds.len(),
{
    if kinds.len() == 0 {
        None
    } else if kinds[0].0@ == k {
        Some(kinds[0].1@)
    } else {
        label_of(kinds.drop_first(), k)
    }
}

proof fn lemma_label_of_suffix(kinds: Seq<(String, String)>, i: int, k: Seq<char>)
    requires
        0 <= i < kinds.len(),
    ensures
        label_of(kinds.subrange(i, kinds.len() as int), k) == (if kinds[i].0@ == k {
            Some(kinds[i].1@)
        } else {
            label_of(kinds.subrange(i + 1, kinds.len() as int), k)
        }),
{
    let s = kinds.subrange(i, kinds.len() as int);
    assert(s.drop_first() =~= kinds.subrange(i + 1, kinds.len() as int));
}

/// Looks up the canonical label of the raw kind token `k`.
pub fn lookup_kind(kinds: &Vec<(String, String)>, k: &String) -> (r: Option<String>)
    ensures
        match r {
            Some(l) => label_of(kinds@, k@) == Some(l@),
            None => label_of(kinds@, k@) is None,
        },
{
    let mut i: usize = 0;
    proof {
        assert(kinds@.subrange(0, kinds@.len() as int) =~= kinds@);
    }
    while i < kinds.len()
        invariant
            i <= kinds.len(),
            label_of(kinds@, k@) == label_of(kinds@.subrange(i as int, kinds@.len() as int), k@),
        decreases kinds.len() - i,
    {
        proof {
            lemma_label_of_suffix(kinds@, i as int, k@);
        }
        if kinds[i].0 == *k {
            return Some(kinds[i].1.clone());
        }
        i = i + 1;
    }
    proof {
        assert(kinds@.subrange(i as int, kinds@.len() as int).len() == 0);
    }
    None
}

} // verus!

//! Classification of commit messages into kinds.
//!
//! A message is read against `<kind>(<scope>)?: <text>`; merge commits, messages
//! that do not match and kinds outside the vocabulary are skipped, each with
//! its own reason.

use vstd::prelude::*;
use vstd::string::*;

use crate::conf::{label_of, lookup_kind};

verus! {

/// The shape of a conventional commit message.
pub const PATTERN: &'static str = r"(?P<kind>[\w \-\./\\]+)(\((?P<scope>[\w \-\./\\,]+)\))?: (?P<message>[\w \-\./\\]+)";

/// Why a commit is left out of the changelog.
#[derive(Clone, Copy, Debug, PartialEq, Eq, Structural)]
pub enum Skip {
    /// A merge commit: expected, not worth a warning.
    Merge,
    /// The message does not have the shape of `PATTERN`.
    Pattern,
    /// The kind is not in the configured vocabulary.
    UnknownKind,
}

/// The outcome of reading one commit message.
#[derive(Clone, Debug)]
pub enum Classification {
    Accepted { label: String, scope: Option<String> },
    Skipped(Skip),
}

/// What a classification means, over sequences of characters.
pub enum ClassificationView {
    Accepted { label: Seq<char>, scope: Option<Seq<char>> },
    Skipped(Skip),
}

/// An optional string as an optional sequence of characters.
pub open spec fn opt_string_view(o: Option<String>) -> Option<Seq<char>> {
    match o {
        Some(s) => Some(s@),
        None => None,
    }
}

impl View for Classification {
    type V = ClassificationView;

    open spec fn view(&self) -> ClassificationView {
        match self {
            Classification::Accepted { label, scope } => ClassificationView::Accepted {
                label: label@,
                scope: opt_string_view(*scope),
            },
            Classification::Skipped(s) => ClassificationView::Skipped(*s),
        }
    }
}

/// `p` is a prefix of `s`.
pub open spec fn is_prefix(p: Seq<char>, s: Seq<char>) -> bool {
    p.len() <= s.len() && s.subrange(0, p.len() as int) == p
}

/// The message of a merge commit, as git writes it.
pub open spec fn is_merge(m: Seq<char>) -> bool {
    is_prefix("Merge pull request"@, m) || is_prefix("Merge branch"@, m)
}

/// What a message classifies as, given the captures of its `kind` and
/// `scope` groups (`None` where the pattern did not match).
pub open spec fn classify_spec(
    m: Seq<char>,
    caps: Option<(Option<Seq<char>>, Option<Seq<char>>)>,
    kinds: Seq<(String, String)>,
) -> ClassificationView {
    if is_merge(m) {
        ClassificationView::Skipped(Skip::Merge)
    } else {
        match caps {
            None => ClassificationView::Skipped(Skip::Pattern),
            Some((None, _)) => ClassificationView::Skipped(Skip::Pattern),
            Some((Some(k), scope)) => match label_of(kinds, k) {
                None => ClassificationView::Skipped(Skip::UnknownKind),
                Some(label) => ClassificationView::Accepted { label, scope },
            },
        }
    }
}

/// Captured groups as sequences of characters.
pub open spec fn captures_view(c: Option<(Option<String>, Option<String>)>) -> Option<
    (Option<Seq<char>>, Option<Seq<char>>),
> {
    match c {
        Some((a, b)) => Some((opt_string_view(a), opt_string_view(b))),
        None => None,
    }
}

/// What the regex engine captures for the groups `first` and `second` of
/// `pattern` at its leftmost match in `text`; `None` where it does not match.
pub uninterp spec fn regex_named_pair(
    pattern: Seq<char>,
    text: Seq<char>,
    first: Seq<char>,
    second: Seq<char>,
) -> Option<(Option<Seq<char>>, Option<Seq<char>>)>;

/// Relies on regex::Regex::new, Regex::captures and Captures::name: the text
/// captured by the groups named `first` and `second` at the leftmost match of
/// `pattern` in `text`; `None` where `pattern` does not compile or nothing
/// matches.
#[verifier::external_body]
fn named_captures(pattern: &str, text: &str, first: &str, second: &str) -> (r: Option<
    (Option<String>, Option<String>),
>)
    ensures
        captures_view(r) == regex_named_pair(pattern@, text@, first@, second@),
{
    let re = regex::Regex::new(pattern).ok()?;
    let caps = re.captures(text)?;
    Some((
        caps.name(first).map(|m| m.as_str().to_string()),
        caps.name(second).map(|m| m.as_str().to_string()),
    ))
}

/// Whether `s` starts with `p`.
pub fn has_prefix(s: &str, p: &str) -> (r: bool)
    ensures
        r == is_prefix(p@, s@),
{
    let n = p.unicode_len();
    let m = s.unicode_len();
    if n > m {
        return false;
    }
    let mut i: usize = 0;
    while i < n
        invariant
            i <= n,
            n == p@.len(),
            m == s@.len(),
            n <= m,
            forall|j: int| 0 <= j < i ==> s@[j] == p@[j],
        decreases n - i,
    {
        if s.get_char(i) != p.get_char(i) {
            assert(s@.subrange(0, n as int)[i as int] != p@[i as int]);
            return false;
        }
        i = i + 1;
    }
    assert(s@.subrange(0, n as int) =~= p@);
    true
}

/// `s[i..j]` is one of the comma-separated pieces of `s`.
pub open spec fn is_piece(s: Seq<char>, i: int, j: int) -> bool {
    &&& 0 <= i <= j <= s.len()
    &&& (i == 0 || s[i - 1] == ',')
    &&& (j == s.len() || s[j] == ',')
    &&& forall|k: int| i <= k < j ==> s[k] != ','
}

/// Every comma-separated piece of `scope` is one of `allowed`.
pub open spec fn scopes_listed_spec(scope: Seq<char>, allowed: Seq<String>) -> bool {
    forall|i: int, j: int|
        #[trigger] is_piece(scope, i, j) ==> exists|k: int|
            0 <= k < allowed.len() && #[trigger] allowed[k]@ == scope.subrange(i, j)
}

fn is_listed(piece: &String, allowed: &Vec<String>) -> (r: bool)
    ensures
        r == exists|k: int| 0 <= k < allowed@.len() && #[trigger] allowed@[k]@ == piece@,
{
    let mut k: usize = 0;
    while k < allowed.len()
        invariant
            k <= allowed.len(),
            forall|q: int| 0 <= q < k ==> #[trigger] allowed@[q]@ != piece@,
        decreases allowed.len() - k,
    {
        if allowed[k] == *piece {
            return true;
        }
        k = k + 1;
    }
    false
}

/// Whether every comma-separated sub-scope of `scope` is one of `allowed`.
pub fn scopes_listed(scope: &str, allowed: &Vec<String>) -> (r: bool)
    ensures
        r == scopes_listed_spec(scope@, allowed@),
{
    let n = scope.unicode_len();
    let mut start: usize = 0;
    let mut p: usize = 0;
    while p < n
        invariant
            n == scope@.len(),
            start <= p <= n,
            start == 0 || scope@[start - 1] == ',',
            forall|k: int| start <= k < p ==> scope@[k] != ',',
            forall|i: int, j: int|
                #[trigger] is_piece(scope@, i, j) && j < p ==> exists|k: int|
                    0 <= k < allowed@.len() && #[trigger] allowed@[k]@ == scope@.subrange(i, j),
        decreases n - p,
    {
        if scope.get_char(p) == ',' {
            let piece = String::from_str(scope.substring_char(start, p));
            assert(is_piece(scope@, start as int, p as int));
            if !is_listed(&piece, allowed) {
                return false;
            }
            assert forall|i: int, j: int|
                #[trigger] is_piece(scope@, i, j) && j < p + 1 implies exists|k: int|
                    0 <= k < allowed@.len() && #[trigger] allowed@[k]@ == scope@.subrange(i, j) by {
                if j == p {
                    if i < start {
                        assert(scope@[start - 1] == ',');
                    } else if i > start {
                        assert(scope@[i - 1] == ',');
                    }
                    assert(i == start);
                }
            }
            start = p + 1;
        } else {
            assert forall|i: int, j: int|
                #[trigger] is_piece(scope@, i, j) && j < p + 1 implies exists|k: int|
                    0 <= k < allowed@.len() && #[trigger] allowed@[k]@ == scope@.subrange(i, j) by {
                if j == p {
                    assert(scope@[j] != ',');
                }
            }
        }
        p = p + 1;
    }
    let piece = String::from_str(scope.substring_char(start, n));
    assert(is_piece(scope@, start as int, n as int));
    if !is_listed(&piece, allowed) {
        return false;
    }
    assert forall|i: int, j: int| #[trigger] is_piece(scope@, i, j) implies exists|k: int|
        0 <= k < allowed@.len() && #[trigger] allowed@[k]@ == scope@.subrange(i, j) by {
        if j == n {
            if i < start {
                assert(scope@[start - 1] == ',');
            } else if i > start {
                assert(scope@[i - 1] == ',');
            }
            assert(i == start);
        }
    }
    true
}

/// Classifies `message` from the captures of its `kind` and `scope` groups.
pub fn classify_captures(
    message: &str,
    captures: Option<(Option<String>, Option<String>)>,
    kinds: &Vec<(String, String)>,
) -> (r: Classification)
    ensures
        r@ == classify_spec(message@, captures_view(captures), kinds@),
{
    if has_prefix(message, "Merge pull request") || has_prefix(message, "Merge branch") {
        return Classification::Skipped(Skip::Merge);
    }
    match captures {
        None => Classification::Skipped(Skip::Pattern),
        Some((None, _)) => Classification::Skipped(Skip::Pattern),
        Some((Some(k), scope)) => match lookup_kind(kinds, &k) {
            None => Classification::Skipped(Skip::UnknownKind),
            Some(label) => Classification::Accepted { label, scope },
        },
    }
}

/// The captures that `PATTERN` gives for `m`.
pub open spec fn message_captures(m: Seq<char>) -> Option<(Option<Seq<char>>, Option<Seq<char>>)> {
    regex_named_pair(PATTERN@, m, "kind"@, "scope"@)
}

/// Classifies a commit message against `PATTERN` and the kind vocabulary.
pub fn classify(message: &str, kinds: &Vec<(String, String)>) -> (r: Classification)
    ensures
        r@ == classify_spec(message@, message_captures(message@), kinds@),
{
    if has_prefix(message, "Merge pull request") || has_prefix(message, "Merge branch") {
        return Classification::Skipped(Skip::Merge);
    }
    let caps = named_captures(PATTERN, message, "kind", "scope");
    classify_captures(message, caps, kinds)
}

} // verus!

//! Item builders for the public GitHub REST API.
//!
//! They take a decoded response and return feed items or stats. A shape change
//! upstream degrades to a missing value rather than a hard error.

use vstd::prelude::*;

use crate::clock::{optional_millis, rfc3339_millis};
use crate::feed::{built_item, item_views, FeedItem, FeedItemView, FeedKind, VERSION_TITLE};
use crate::numbers::{decimal, unsigned_text};
use crate::text::{
    char_count, chars_of, concat, contains, digit, find_from, is_digit, join, lemma_find_from,
    occurs_at, opt_view, split, split_at_each, split_from, split_of_appended, text_between, views,
};
use crate::text_laws::split_is_undone_by_join;

verus! {

/// Owner/repo of the upstream product, and our own repo, as feed targets.
pub const UPSTREAM_REPO: &'static str = "andrewmccalip/kickbacks.ai";

pub const SELF_REPO: &'static str = "OthmanAdi/kickbacks-kit";

/// Build the API URL for a repo's metadata.
pub fn repo_url(repo: &str) -> (r: String)
    ensures
        r@ == "https://api.github.com/repos/"@ + repo@,
{
    concat("https://api.github.com/repos/", repo)
}

/// Build the API URL for a repo's recent commits.
pub fn commits_url(repo: &str) -> (r: String)
    ensures
        r@ == "https://api.github.com/repos/"@ + repo@ + "/commits?per_page=5"@,
{
    let mut out = repo_url(repo);
    out.push_str("/commits?per_page=5");
    out
}

/// Build the API URL for a repo's open issues, newest first (the endpoint lists
/// pull requests too, which we filter out).
pub fn issues_url(repo: &str) -> (r: String)
    ensures
        r@ == "https://api.github.com/repos/"@ + repo@
            + "/issues?state=open&sort=created&direction=desc&per_page=20"@,
{
    let mut out = repo_url(repo);
    out.push_str("/issues?state=open&sort=created&direction=desc&per_page=20");
    out
}

// ---- repository statistics --------------------------------------------------

/// A `/repos/{owner}/{repo}` response.
#[derive(Debug)]
pub struct Repo {
    pub stargazers_count: u64,
    pub forks_count: u64,
    pub open_issues_count: u64,
    pub pushed_at: Option<String>,
    pub html_url: Option<String>,
}

/// Distilled repository statistics.
#[derive(Debug, PartialEq, Eq)]
pub struct RepoStats {
    pub stars: u64,
    pub forks: u64,
    /// GitHub's `open_issues_count` counts PRs too; treated as "open items".
    pub open_items: u64,
    pub pushed_at_ms: Option<i64>,
    pub html_url: Option<String>,
}

/// The instant of an optional timestamp.
pub open spec fn instant_of(o: Option<String>) -> Option<i64> {
    match o {
        Some(s) => rfc3339_millis(s@),
        None => None,
    }
}

/// Distill a decoded `/repos/{owner}/{repo}` response, with the time of its last
/// push given as an instant.
pub fn repo_stats(d: Repo, pushed_at_ms: Option<i64>) -> (r: RepoStats)
    ensures
        r == (RepoStats {
            stars: d.stargazers_count,
            forks: d.forks_count,
            open_items: d.open_issues_count,
            pushed_at_ms,
            html_url: d.html_url,
        }),
{
    RepoStats {
        stars: d.stargazers_count,
        forks: d.forks_count,
        open_items: d.open_issues_count,
        pushed_at_ms,
        html_url: d.html_url,
    }
}

/// Distill a decoded `/repos/{owner}/{repo}` response; nothing where it could
/// not be decoded.
pub fn parse_repo(decoded: Option<Repo>) -> (r: Option<RepoStats>)
    ensures
        match decoded {
            Some(d) => r == Some(
                (RepoStats {
                    stars: d.stargazers_count,
                    forks: d.forks_count,
                    open_items: d.open_issues_count,
                    pushed_at_ms: instant_of(d.pushed_at),
                    html_url: d.html_url,
                }),
            ),
            None => r is None,
        },
{
    match decoded {
        Some(d) => {
            let pushed_at_ms = optional_millis(&d.pushed_at);
            Some(repo_stats(d, pushed_at_ms))
        },
        None => None,
    }
}

/// The URL of a page of the upstream repo.
pub open spec fn upstream_page(path: Seq<char>) -> Seq<char> {
    "https://github.com/"@ + UPSTREAM_REPO@ + path
}

fn page(path: &str) -> (r: String)
    ensures
        r@ == upstream_page(path@),
{
    let mut out = concat("https://github.com/", UPSTREAM_REPO);
    out.push_str(path);
    out
}

/// The feed item of repository statistics.
pub open spec fn stat_item(
    stars: nat,
    forks: nat,
    open_items: nat,
    pushed_at_ms: Option<i64>,
    html_url: Option<Seq<char>>,
    source: Seq<char>,
) -> FeedItemView {
    built_item(
        FeedKind::Stat,
        "kickbacks.ai on GitHub"@,
        decimal(stars) + " stars \u{b7} "@ + decimal(forks) + " forks \u{b7} "@ + decimal(
            open_items,
        ) + " open items"@,
        Some(
            match html_url {
                Some(u) => u,
                None => upstream_page(""@),
            },
        ),
        pushed_at_ms,
        source,
    )
}

/// Build the repo-stats feed item for the upstream product repo. The item's
/// source is the key that the cache replaces by.
pub fn upstream_stat_item(stats: &RepoStats, source: &str) -> (r: FeedItem)
    ensures
        r@ == stat_item(
            stats.stars as nat,
            stats.forks as nat,
            stats.open_items as nat,
            stats.pushed_at_ms,
            opt_view(stats.html_url),
            source@,
        ),
{
    let mut body = unsigned_text(stats.stars);
    body.push_str(" stars \u{b7} ");
    let forks = unsigned_text(stats.forks);
    body.push_str(forks.as_str());
    body.push_str(" forks \u{b7} ");
    let open_items = unsigned_text(stats.open_items);
    body.push_str(open_items.as_str());
    body.push_str(" open items");
    let url = match &stats.html_url {
        Some(u) => u.clone(),
        None => page(""),
    };
    FeedItem::new(
        FeedKind::Stat,
        "kickbacks.ai on GitHub",
        body.as_str(),
        Some(url),
        stats.pushed_at_ms,
        source,
    )
}

// ---- the synced version -----------------------------------------------------

/// One commit of a `/commits` response.
#[derive(Debug)]
pub struct CommitItem {
    pub commit: CommitInner,
}

#[derive(Debug)]
pub struct CommitInner {
    pub message: String,
    pub author: CommitAuthor,
}

#[derive(Debug)]
pub struct CommitAuthor {
    pub date: Option<String>,
}

/// The latest synced extension version, parsed from the upstream commit log.
/// The repo publishes no releases or tags; its only version signal is the
/// commit message `Sync extension vX.Y.Z (sha)`.
#[derive(Debug, PartialEq, Eq)]
pub struct VersionSync {
    pub version: String,
    pub ts_ms: Option<i64>,
}

/// What a version sync says before the version.
pub const SYNC_MARK: &'static str = "Sync extension v";

/// The first index at or after `i` that holds neither a digit nor a dot.
pub open spec fn version_end(s: Seq<char>, i: int) -> int
    decreases s.len() - i,
{
    if 0 <= i < s.len() && (is_digit(s[i]) || s[i] == '.') {
        version_end(s, i + 1)
    } else {
        i
    }
}

/// Whether a run of digits and dots is a dotted triple: three components, none
/// of them empty.
pub open spec fn is_triple(v: Seq<char>) -> bool {
    let parts = split(v, "."@);
    parts.len() == 3 && parts[0].len() > 0 && parts[1].len() > 0 && parts[2].len() > 0
}

/// The version that a commit message syncs to.
pub open spec fn sync_version(message: Seq<char>) -> Option<Seq<char>> {
    let parts = split(message, SYNC_MARK@);
    if parts.len() < 2 {
        None
    } else {
        let v = parts[1].take(version_end(parts[1], 0));
        if is_triple(v) {
            Some(v)
        } else {
            None
        }
    }
}

/// Pull `0.3.172` out of `Sync extension v0.3.172 (cbd05e1)`. Returns `None`
/// when the message is not a version sync, so a changed commit convention fails
/// soft (no version item) rather than surfacing garbage.
pub fn extract_sync_version(message: &str) -> (r: Option<String>)
    ensures
        opt_view(r) == sync_version(message@),
{
    proof {
        reveal_strlit("Sync extension v");
        reveal_strlit(".");
    }
    let parts = split_at_each(message, SYNC_MARK);
    assert(views(parts@).len() == parts@.len());
    if parts.len() < 2 {
        return None;
    }
    assert(views(parts@)[1] == parts@[1]@);
    let after = chars_of(parts[1].as_str());
    let mut end: usize = 0;
    while end < after.len() && (digit(after[end]) || after[end] == '.')
        invariant
            end <= after@.len(),
            version_end(after@, 0) == version_end(after@, end as int),
        decreases after@.len() - end,
    {
        end = end + 1;
    }
    assert(after@.subrange(0, end as int) =~= after@.take(end as int));
    let version = text_between(&after, 0, end);
    // Require a dotted triple so a stray "v1" cannot masquerade as a version.
    let dotted = split_at_each(version.as_str(), ".");
    assert(views(dotted@).len() == dotted@.len());
    if dotted.len() != 3 {
        return None;
    }
    assert(views(dotted@)[0] == dotted@[0]@);
    assert(views(dotted@)[1] == dotted@[1]@);
    assert(views(dotted@)[2] == dotted@[2]@);
    if char_count(dotted[0].as_str()) > 0 && char_count(dotted[1].as_str()) > 0 && char_count(
        dotted[2].as_str(),
    ) > 0 {
        Some(version)
    } else {
        None
    }
}

/// The index of the first commit at or after `k` that syncs a version.
pub open spec fn sync_commit(commits: Seq<CommitItem>, k: int) -> Option<int>
    decreases commits.len() - k,
{
    if k < 0 || k >= commits.len() {
        None
    } else if sync_version(commits[k].commit.message@) is Some {
        Some(k)
    } else {
        sync_commit(commits, k + 1)
    }
}

/// Find the newest `Sync extension vX.Y.Z` across recent commits, which come
/// newest first; nothing where the response could not be decoded.
pub fn parse_latest_version(decoded: Option<Vec<CommitItem>>) -> (r: Option<VersionSync>)
    ensures
        match decoded {
            Some(commits) => match sync_commit(commits@, 0) {
                Some(k) => {
                    &&& r is Some
                    &&& sync_version(commits@[k].commit.message@) == Some(r->0.version@)
                    &&& r->0.ts_ms == instant_of(commits@[k].commit.author.date)
                },
                None => r is None,
            },
            None => r is None,
        },
        decoded is Some && (exists|k: int|
            0 <= k < decoded->0@.len() && sync_version(
                (#[trigger] decoded->0@[k]).commit.message@,
            ) is Some) ==> r is Some,
        r is Some ==> decoded is Some && exists|k: int|
            #![trigger decoded->0@[k]]
            0 <= k < decoded->0@.len() && sync_version(decoded->0@[k].commit.message@) == Some(
                r->0.version@,
            ) && r->0.ts_ms == instant_of(decoded->0@[k].commit.author.date) && forall|j: int|
                0 <= j < k ==> sync_version((#[trigger] decoded->0@[j]).commit.message@) is None,
{
    let commits = match decoded {
        Some(commits) => commits,
        None => return None,
    };
    let mut k: usize = 0;
    while k < commits.len()
        invariant
            k <= commits@.len(),
            sync_commit(commits@, 0) == sync_commit(commits@, k as int),
            decoded == Some(commits),
            forall|j: int|
                0 <= j < k ==> sync_version((#[trigger] commits@[j]).commit.message@) is None,
        decreases commits@.len() - k,
    {
        if let Some(version) = extract_sync_version(commits[k].commit.message.as_str()) {
            let ts_ms = optional_millis(&commits[k].commit.author.date);
            return Some(VersionSync { version, ts_ms });
        }
        k = k + 1;
    }
    None
}

proof fn lemma_sync_commit(commits: Seq<CommitItem>, k: int)
    requires
        0 <= k <= commits.len(),
    ensures
        match sync_commit(commits, k) {
            Some(i) => k <= i < commits.len() && sync_version(commits[i].commit.message@) is Some
                && forall|j: int|
                k <= j < i ==> sync_version((#[trigger] commits[j]).commit.message@) is None,
            None => forall|j: int|
                k <= j < commits.len() ==> sync_version(
                    (#[trigger] commits[j]).commit.message@,
                ) is None,
        },
    decreases commits.len() - k,
{
    if k < commits.len() && sync_version(commits[k].commit.message@) is None {
        lemma_sync_commit(commits, k + 1);
    }
}

/// A version is found wherever any commit syncs one, however many commits that
/// sync none come before it; and it is found in the first that does.
pub proof fn the_first_sync_is_found(commits: Seq<CommitItem>, i: int)
    requires
        0 <= i < commits.len(),
        sync_version(commits[i].commit.message@) is Some,
    ensures
        sync_commit(commits, 0) matches Some(k) && 0 <= k <= i && sync_version(
            commits[k].commit.message@,
        ) is Some && forall|j: int|
            0 <= j < k ==> sync_version((#[trigger] commits[j]).commit.message@) is None,
{
    lemma_sync_commit(commits, 0);
}

/// What the first commit that syncs a version decides is whatever it syncs, and a
/// log in which none does decides nothing.
pub proof fn the_first_sync_decides(commits: Seq<CommitItem>, i: int)
    requires
        0 <= i < commits.len(),
        forall|j: int|
            0 <= j < i ==> sync_version((#[trigger] commits[j]).commit.message@) is None,
    ensures
        sync_version(commits[i].commit.message@) is Some ==> sync_commit(commits, 0) == Some(i),
        i == commits.len() - 1 && sync_version(commits[i].commit.message@) is None
            ==> sync_commit(commits, 0) is None,
{
    lemma_sync_commit(commits, 0);
    if let Some(k) = sync_commit(commits, 0) {
        if k < i {
            assert(sync_version(commits[k].commit.message@) is None);
        }
        if i < k {
            assert(sync_version(commits[i].commit.message@) is None);
        }
    }
}

// ---- what a version sync is -------------------------------------------------

/// Whether a text is a number: digits, and at least one.
pub open spec fn is_number(s: Seq<char>) -> bool {
    s.len() > 0 && forall|i: int| 0 <= i < s.len() ==> is_digit(#[trigger] s[i])
}

/// Whether the first place at which a message has the mark of a version sync is
/// right after `pre`.
pub open spec fn is_first_mark(message: Seq<char>, pre: Seq<char>) -> bool {
    &&& occurs_at(message, "Sync extension v"@, pre.len() as int)
    &&& message.take(pre.len() as int) == pre
    &&& forall|k: int| 0 <= k < pre.len() ==> !occurs_at(message, "Sync extension v"@, k)
}

proof fn lemma_version_end(s: Seq<char>, i: int)
    requires
        0 <= i <= s.len(),
    ensures
        i <= version_end(s, i) <= s.len(),
        forall|k: int|
            i <= k < version_end(s, i) ==> is_digit(#[trigger] s[k]) || s[k] == '.',
        version_end(s, i) < s.len() ==> !is_digit(s[version_end(s, i)]) && s[version_end(s, i)]
            != '.',
    decreases s.len() - i,
{
    if i < s.len() && (is_digit(s[i]) || s[i] == '.') {
        lemma_version_end(s, i + 1);
    }
}

proof fn lemma_triple(x: Seq<char>, y: Seq<char>, z: Seq<char>)
    requires
        is_number(x),
        is_number(y),
        is_number(z),
    ensures
        is_triple(x.push('.') + y.push('.') + z),
{
    reveal_strlit(".");
    assert("."@ =~= seq!['.']);
    let dot = seq!['.'];
    lemma_find_from(x, dot, 0);
    if let Some(k) = find_from(x, dot, 0) {
        assert(x.subrange(k, k + 1)[0] == x[k]);
        assert(dot[0] == '.');
        assert(is_digit(x[k]));
    }
    assert(x.skip(0) =~= x);
    assert(split(x, dot) =~= seq![x]);
    split_of_appended(x, y, '.');
    split_of_appended(x.push('.') + y, z, '.');
    assert((x.push('.') + y).push('.') + z =~= x.push('.') + y.push('.') + z);
    let parts = split(x.push('.') + y.push('.') + z, dot);
    assert(parts =~= seq![x, y, z]);
}

/// The part after the first mark, up to a second one.
proof fn lemma_after_mark(message: Seq<char>, pre: Seq<char>) -> (n: int)
    requires
        is_first_mark(message, pre),
    ensures
        pre.len() + 16 <= n <= message.len(),
        n < message.len() ==> message[n] == 'S',
        split(message, SYNC_MARK@).len() >= 2,
        split(message, SYNC_MARK@)[1] == message.subrange(pre.len() as int + 16, n),
{
    reveal_strlit("Sync extension v");
    let mark = SYNC_MARK@;
    assert(mark.len() == 16 && mark[0] == 'S');
    let p = pre.len() as int;
    lemma_find_from(message, mark, 0);
    assert(find_from(message, mark, 0) == Some(p));
    let rest = split_from(message, mark, p + 16);
    lemma_find_from(message, mark, p + 16);
    assert(split(message, mark) == seq![message.subrange(0, p)] + rest);
    match find_from(message, mark, p + 16) {
        Some(j) => {
            assert(message.subrange(j, j + 16)[0] == message[j]);
            assert(rest[0] == message.subrange(p + 16, j));
            j
        },
        None => {
            let n = message.len() as int;
            assert(message.skip(p + 16) =~= message.subrange(p + 16, n));
            assert(rest[0] == message.skip(p + 16));
            n
        },
    }
}

/// A message that says `Sync extension v`, first right after `pre`, and goes on
/// with three dotted numbers that no further digit or dot follows, syncs the
/// version that those make.
pub proof fn a_dotted_triple_is_synced(
    pre: Seq<char>,
    x: Seq<char>,
    y: Seq<char>,
    z: Seq<char>,
    post: Seq<char>,
)
    requires
        is_number(x),
        is_number(y),
        is_number(z),
        post.len() > 0 ==> !is_digit(post[0]) && post[0] != '.',
        is_first_mark(pre + "Sync extension v"@ + (x.push('.') + y.push('.') + z) + post, pre),
    ensures
        sync_version(pre + "Sync extension v"@ + (x.push('.') + y.push('.') + z) + post) == Some(
            x.push('.') + y.push('.') + z,
        ),
{
    reveal_strlit("Sync extension v");
    let v = x.push('.') + y.push('.') + z;
    let message = pre + "Sync extension v"@ + v + post;
    let p = pre.len() as int + 16;
    let n = lemma_after_mark(message, pre);
    let part = message.subrange(p, n);
    assert forall|i: int| 0 <= i < v.len() implies is_digit(#[trigger] v[i]) || v[i] == '.' by {
        if i < x.len() {
            assert(v[i] == x[i]);
        } else if i == x.len() {
        } else if i < x.len() + 1 + y.len() {
            assert(v[i] == y[i - x.len() - 1]);
        } else if i == x.len() + 1 + y.len() {
        } else {
            assert(v[i] == z[i - x.len() - y.len() - 2]);
        }
    }
    assert(forall|i: int| 0 <= i < v.len() ==> message[p + i] == #[trigger] v[i]);
    assert(n >= p + v.len()) by {
        if n < p + v.len() {
            assert(message[n] == v[n - p]);
        }
    }
    assert(forall|i: int| 0 <= i < v.len() ==> part[i] == #[trigger] v[i]);
    lemma_version_end(part, 0);
    let e = version_end(part, 0);
    if e < v.len() {
        assert(part[e] == v[e]);
    }
    if e > v.len() {
        assert(part[v.len() as int] == post[0]);
    }
    assert(part.take(e) =~= v);
    lemma_triple(x, y, z);
}

/// The version that a message syncs stands right after the first mark, and is
/// three dotted numbers that no further digit or dot follows.
pub proof fn what_is_synced_is_a_dotted_triple(message: Seq<char>) -> (r: (
    Seq<char>,
    Seq<char>,
    Seq<char>,
    Seq<char>,
    Seq<char>,
))
    requires
        sync_version(message) is Some,
    ensures
        ({
            let (pre, x, y, z, post) = r;
            &&& is_number(x) && is_number(y) && is_number(z)
            &&& sync_version(message) == Some(x.push('.') + y.push('.') + z)
            &&& message == pre + "Sync extension v"@ + (x.push('.') + y.push('.') + z) + post
            &&& is_first_mark(message, pre)
            &&& post.len() > 0 ==> !is_digit(post[0]) && post[0] != '.'
        }),
{
    reveal_strlit("Sync extension v");
    reveal_strlit(".");
    let mark = SYNC_MARK@;
    lemma_find_from(message, mark, 0);
    if find_from(message, mark, 0) is None {
        assert(split(message, mark).len() == 1);
    }
    let p = find_from(message, mark, 0)->0;
    let pre = message.take(p);
    let n = lemma_after_mark(message, pre);
    let part = message.subrange(p + 16, n);
    lemma_version_end(part, 0);
    let e = version_end(part, 0);
    let v = part.take(e);
    let parts = split(v, "."@);
    split_is_undone_by_join(v, "."@);
    let x = parts[0];
    let y = parts[1];
    let z = parts[2];
    let front = parts.drop_last();
    assert(front.drop_last().len() == 1 && front.drop_last()[0] == x);
    assert(join(front.drop_last(), "."@) == x);
    assert(front.last() == y);
    assert(join(front, "."@) == x + "."@ + y);
    assert(join(parts, "."@) == x + "."@ + y + "."@ + z);
    assert(x + "."@ + y + "."@ + z =~= x.push('.') + y.push('.') + z);
    assert forall|i: int, k: int|
        #![trigger parts[i][k]]
        0 <= i < 3 && 0 <= k < parts[i].len() && is_triple(v) implies parts[i][k] != '.' by {
        let one = parts[i];
        assert(!contains(one, "."@));
        if one[k] == '.' {
            assert(one.subrange(k, k + 1) =~= "."@);
            assert(occurs_at(one, "."@, k));
        }
    }
    assert(forall|i: int| 0 <= i < v.len() ==> is_digit(#[trigger] v[i]) || v[i] == '.') by {
        assert(forall|i: int| 0 <= i < v.len() ==> #[trigger] v[i] == part[i]);
    }
    assert forall|k: int| 0 <= k < x.len() implies is_digit(#[trigger] x[k]) by {
        assert(v[k] == x[k]);
        assert(parts[0][k] != '.');
    }
    assert forall|k: int| 0 <= k < y.len() implies is_digit(#[trigger] y[k]) by {
        assert(v[x.len() + 1 + k] == y[k]);
        assert(parts[1][k] != '.');
    }
    assert forall|k: int| 0 <= k < z.len() implies is_digit(#[trigger] z[k]) by {
        assert(v[x.len() + y.len() + 2 + k] == z[k]);
        assert(parts[2][k] != '.');
    }
    let post = message.skip(p + 16 + e);
    assert(message.subrange(p, p + 16) == mark);
    assert(message =~= pre + mark + v + post);
    if post.len() > 0 {
        if e < part.len() {
            assert(post[0] == part[e]);
        } else {
            assert(post[0] == message[n]);
        }
    }
    (pre, x, y, z, post)
}

/// The feed item of a synced version.
pub open spec fn version_row(
    version: Seq<char>,
    ts_ms: Option<i64>,
    source: Seq<char>,
) -> FeedItemView {
    built_item(
        FeedKind::Version,
        VERSION_TITLE@ + version,
        "kickbacks.ai VS Code extension"@,
        Some(upstream_page("/commits/main"@)),
        ts_ms,
        source,
    )
}

/// Build the version feed item.
pub fn version_item(v: &VersionSync, source: &str) -> (r: FeedItem)
    ensures
        r@ == version_row(v.version@, v.ts_ms, source@),
{
    let title = concat(VERSION_TITLE, v.version.as_str());
    FeedItem::new(
        FeedKind::Version,
        title.as_str(),
        "kickbacks.ai VS Code extension",
        Some(page("/commits/main")),
        v.ts_ms,
        source,
    )
}

// ---- issues -----------------------------------------------------------------

/// One entry of an `/issues` response.
#[derive(Debug)]
pub struct Issue {
    pub number: u64,
    pub title: String,
    pub html_url: Option<String>,
    pub created_at: Option<String>,
    pub updated_at: Option<String>,
    /// Set only on pull requests: the endpoint lists them among the issues.
    pub is_pull_request: bool,
}

/// Whether an entry is a real issue: no pull request, and with a title.
pub open spec fn is_real(i: Issue) -> bool {
    !i.is_pull_request && i.title@.len() > 0
}

/// When an issue was made, or last changed where that is not given.
pub open spec fn issue_instant(i: Issue) -> Option<i64> {
    if i.created_at is Some {
        instant_of(i.created_at)
    } else {
        instant_of(i.updated_at)
    }
}

/// The feed item of an issue of some instant.
pub open spec fn issue_item(i: Issue, ts_ms: Option<i64>, source: Seq<char>) -> FeedItemView {
    built_item(
        FeedKind::Issue,
        "#"@ + decimal(i.number as nat) + " "@ + i.title@,
        "open issue on kickbacks.ai"@,
        Some(
            match opt_view(i.html_url) {
                Some(u) => u,
                None => upstream_page("/issues/"@ + decimal(i.number as nat)),
            },
        ),
        ts_ms,
        source,
    )
}

/// The items of the real issues among the first `k`, at most `limit` of them.
pub open spec fn issue_items(
    issues: Seq<Issue>,
    limit: int,
    source: Seq<char>,
    k: int,
) -> Seq<FeedItemView>
    decreases k,
{
    if k <= 0 {
        Seq::empty()
    } else {
        let before = issue_items(issues, limit, source, k - 1);
        if before.len() < limit && is_real(issues[k - 1]) {
            before.push(issue_item(issues[k - 1], issue_instant(issues[k - 1]), source))
        } else {
            before
        }
    }
}

/// Build the feed item of an issue, with its time given as an instant.
pub fn item_of_issue(i: &Issue, ts_ms: Option<i64>, source: &str) -> (r: FeedItem)
    ensures
        r@ == issue_item(*i, ts_ms, source@),
{
    let number = unsigned_text(i.number);
    let mut title = concat("#", number.as_str());
    title.push_str(" ");
    title.push_str(i.title.as_str());
    let url = match &i.html_url {
        Some(u) => u.clone(),
        None => {
            let path = concat("/issues/", number.as_str());
            page(path.as_str())
        },
    };
    FeedItem::new(
        FeedKind::Issue,
        title.as_str(),
        "open issue on kickbacks.ai",
        Some(url),
        ts_ms,
        source,
    )
}

/// Turn a decoded issues response into feed items, dropping pull requests and
/// keeping at most `limit` real issues, in the order of the response, which is
/// newest first; nothing where the response could not be decoded.
pub fn parse_issues(decoded: Option<Vec<Issue>>, limit: usize, source: &str) -> (r: Vec<FeedItem>)
    ensures
        item_views(r@) == (match decoded {
            Some(issues) => issue_items(
                issues@,
                limit as int,
                source@,
                issues@.len() as int,
            ),
            None => Seq::empty(),
        }),
        r@.len() <= limit,
{
    let mut out: Vec<FeedItem> = Vec::new();
    assert(item_views(out@) =~= Seq::<FeedItemView>::empty());
    let issues = match decoded {
        Some(issues) => issues,
        None => return out,
    };
    let mut k: usize = 0;
    while k < issues.len()
        invariant
            k <= issues@.len(),
            out@.len() <= limit,
            item_views(out@) == issue_items(issues@, limit as int, source@, k as int),
        decreases issues@.len() - k,
    {
        let ghost before = out@;
        assert(item_views(out@).len() == out@.len());
        let issue = &issues[k];
        if out.len() < limit && !issue.is_pull_request && char_count(issue.title.as_str()) > 0 {
            let ts_ms = if issue.created_at.is_some() {
                optional_millis(&issue.created_at)
            } else {
                optional_millis(&issue.updated_at)
            };
            let item = item_of_issue(issue, ts_ms, source);
            let ghost shown = item@;
            out.push(item);
            assert(item_views(out@) =~= item_views(before).push(shown));
        }
        k = k + 1;
    }
    out
}

proof fn lemma_issue_items(
    issues: Seq<Issue>,
    limit: int,
    source: Seq<char>,
    k: int,
) -> (at: Seq<int>)
    requires
        0 <= k <= issues.len(),
        0 <= limit,
    ensures
        at.len() == issue_items(issues, limit, source, k).len(),
        at.len() <= limit,
        forall|i: int|
            #![trigger at[i]]
            0 <= i < at.len() ==> 0 <= at[i] < k && is_real(issues[at[i]]) && issue_items(
                issues,
                limit,
                source,
                k,
            )[i] == issue_item(issues[at[i]], issue_instant(issues[at[i]]), source),
        forall|i: int, j: int|
            #![trigger at[i], at[j]]
            0 <= i < j < at.len() ==> at[i] < at[j],
        forall|x: int|
            #![trigger issues[x]]
            0 <= x < k && is_real(issues[x]) && !at.contains(x) ==> at.len() == limit
                && forall|i: int| 0 <= i < at.len() ==> #[trigger] at[i] < x,
    decreases k,
{
    if k <= 0 {
        Seq::empty()
    } else {
        let before = lemma_issue_items(issues, limit, source, k - 1);
        if before.len() < limit && is_real(issues[k - 1]) {
            let at = before.push(k - 1);
            assert forall|x: int|
                #![trigger issues[x]]
                0 <= x < k && is_real(issues[x]) && !at.contains(x) implies at.len() == limit
                && forall|i: int| 0 <= i < at.len() ==> #[trigger] at[i] < x by {
                if x == k - 1 {
                    assert(at[before.len() as int] == x);
                } else if before.contains(x) {
                    let i = choose|i: int| 0 <= i < before.len() && before[i] == x;
                    assert(at[i] == x);
                }
            }
            at
        } else {
            before
        }
    }
}

/// The issues of a feed are the entries of the response that are no pull request
/// and have a title, in its order, and the limit leaves out only those after
/// the ones that it keeps. Each says its number and title, and when it was made.
pub proof fn real_issues_are_kept_in_order(
    issues: Seq<Issue>,
    limit: int,
    source: Seq<char>,
) -> (at: Seq<int>)
    requires
        0 <= limit,
    ensures
        ({
            let r = issue_items(issues, limit, source, issues.len() as int);
            &&& r.len() == at.len() <= limit
            &&& forall|i: int, j: int|
                #![trigger at[i], at[j]]
                0 <= i < j < at.len() ==> at[i] < at[j]
            &&& forall|i: int|
                #![trigger at[i]]
                0 <= i < at.len() ==> {
                    let x = issues[at[i]];
                    &&& 0 <= at[i] < issues.len()
                    &&& !x.is_pull_request && x.title@.len() > 0
                    &&& r[i] == built_item(
                        FeedKind::Issue,
                        "#"@ + decimal(x.number as nat) + " "@ + x.title@,
                        "open issue on kickbacks.ai"@,
                        Some(
                            match x.html_url {
                                Some(u) => u@,
                                None => "https://github.com/"@ + UPSTREAM_REPO@ + ("/issues/"@
                                    + decimal(x.number as nat)),
                            },
                        ),
                        match x.created_at {
                            Some(t) => rfc3339_millis(t@),
                            None => match x.updated_at {
                                Some(t) => rfc3339_millis(t@),
                                None => None,
                            },
                        },
                        source,
                    )
                }
            &&& forall|x: int|
                #![trigger issues[x]]
                0 <= x < issues.len() && !issues[x].is_pull_request && issues[x].title@.len() > 0
                    && !at.contains(x) ==> at.len() == limit && forall|i: int|
                    0 <= i < at.len() ==> #[trigger] at[i] < x
        }),
{
    lemma_issue_items(issues, limit, source, issues.len() as int)
}

} // verus!

//! Data shapes. `CliAd` mirrors what the extension writes for its status line;
//! it is only ever read.

use vstd::prelude::*;
use vstd::utf8::encode_utf8;

use crate::digest::{identify, push_text};
use crate::text::{
    blank, char_count, cut, cut_at_any, rest_after_last, split_at_each, trimmed, without_prefix,
};
use crate::text_laws::{cut_is_at_the_first_stop, cutting_parts_at_the_first, rest_is_after_the_last};

verus! {

/// The current ad served to the CLI status line.
#[derive(Debug)]
pub struct CliAd {
    pub ad_text: String,
    pub click_url: Option<String>,
    pub icon_url: Option<String>,
    /// Kept for fidelity with the extension's file; not used yet.
    pub icon_ref: Option<String>,
    /// Rotation timestamp in epoch milliseconds (set by the extension).
    pub ts: i64,
}

/// What an ad holds.
pub struct CliAdView {
    pub ad_text: Seq<char>,
    pub click_url: Option<Seq<char>>,
    pub icon_url: Option<Seq<char>>,
    pub icon_ref: Option<Seq<char>>,
    pub ts: i64,
}

impl View for CliAd {
    type V = CliAdView;

    open spec fn view(&self) -> CliAdView {
        CliAdView {
            ad_text: self.ad_text@,
            click_url: crate::text::opt_view(self.click_url),
            icon_url: crate::text::opt_view(self.icon_url),
            icon_ref: crate::text::opt_view(self.icon_ref),
            ts: self.ts,
        }
    }
}

/// What an optional ad holds.
pub open spec fn opt_ad(o: Option<&CliAd>) -> Option<CliAdView> {
    match o {
        Some(ad) => Some(ad@),
        None => None,
    }
}

/// What stands between the advertiser and the tagline of a creative.
pub const MIDDOT: &'static str = " \u{b7} ";

/// The bytes that identify a creative: its click URL, a newline, its text.
pub open spec fn creative_bytes(click_url: Option<Seq<char>>, ad_text: Seq<char>) -> Seq<u8> {
    encode_utf8(crate::text::or_empty(click_url)).push(10u8) + encode_utf8(ad_text)
}

/// The identifier of a creative.
pub open spec fn creative_id(click_url: Option<Seq<char>>, ad_text: Seq<char>) -> Seq<char> {
    crate::digest::short_id(creative_bytes(click_url, ad_text))
}

/// The advertiser's name in a creative, where it names one.
pub open spec fn named_advertiser(ad_text: Seq<char>) -> Option<Seq<char>> {
    match crate::text::split_once(ad_text, MIDDOT@) {
        Some((head, _)) => if crate::text::trim(head).len() > 0 {
            Some(crate::text::trim(head))
        } else {
            None
        },
        None => None,
    }
}

/// The advertiser of a creative: the name it gives, else the host that it
/// links to, else `unknown`.
pub open spec fn advertiser_of(ad_text: Seq<char>, click_url: Option<Seq<char>>) -> Seq<char> {
    match named_advertiser(ad_text) {
        Some(name) => name,
        None => match click_url {
            Some(url) => match host(url) {
                Some(h) => h,
                None => "unknown"@,
            },
            None => "unknown"@,
        },
    }
}

/// The tagline of a creative: what follows the advertiser's name.
pub open spec fn tagline_of(ad_text: Seq<char>) -> Seq<char> {
    match crate::text::split_once(ad_text, MIDDOT@) {
        Some((_, tail)) => crate::text::trim(tail),
        None => ad_text,
    }
}

impl CliAd {
    /// Stable id for an ad creative: first 16 hex chars of
    /// sha256(click_url \n ad_text). Two rotations of the same creative
    /// collapse to one row in the archive.
    pub fn id(&self) -> (r: String)
        ensures
            r@ == creative_id(crate::text::opt_view(self.click_url), self.ad_text@),
            r@.len() == 16,
    {
        let mut data: Vec<u8> = Vec::new();
        match &self.click_url {
            Some(url) => {
                push_text(&mut data, url.as_str());
                assert(data@ =~= encode_utf8(url@));
            },
            None => {
                push_text(&mut data, "");
                proof {
                    reveal_strlit("");
                    assert(""@ =~= Seq::<char>::empty());
                    assert(data@ =~= encode_utf8(Seq::<char>::empty()));
                }
            },
        }
        data.push(10u8);
        push_text(&mut data, self.ad_text.as_str());
        identify(&data)
    }

    /// Best-effort advertiser name. The extension's creatives follow the
    /// pattern "Advertiser · tagline" (middot separator), so we take the part
    /// before the first middot; otherwise fall back to the click_url host.
    pub fn advertiser(&self) -> (r: String)
        ensures
            r@ == advertiser_of(self.ad_text@, crate::text::opt_view(self.click_url)),
            forall|head: Seq<char>, tail: Seq<char>|
                self.ad_text@ == #[trigger] (head + " \u{b7} "@ + tail) && crate::text::trim(
                    head,
                ).len() > 0 && (forall|i: int|
                    0 <= i < head.len() ==> !crate::text::occurs_at(
                        self.ad_text@,
                        " \u{b7} "@,
                        i,
                    )) ==> r@ == crate::text::trim(head),
    {
        proof {
            assert forall|head: Seq<char>, tail: Seq<char>|
                self.ad_text@ == #[trigger] (head + " \u{b7} "@ + tail) && crate::text::trim(
                    head,
                ).len() > 0 && (forall|i: int|
                    0 <= i < head.len() ==> !crate::text::occurs_at(
                        self.ad_text@,
                        " \u{b7} "@,
                        i,
                    )) implies advertiser_of(
                self.ad_text@,
                crate::text::opt_view(self.click_url),
            ) == crate::text::trim(head) by {
                the_name_before_the_middot_wins(
                    head,
                    tail,
                    crate::text::opt_view(self.click_url),
                );
            }
        }
        if let Some((head, _)) = cut(self.ad_text.as_str(), MIDDOT) {
            let name = trimmed(head.as_str());
            if char_count(name.as_str()) > 0 {
                return name;
            }
        }
        match &self.click_url {
            Some(url) => match host_of(url.as_str()) {
                Some(h) => h,
                None => "unknown".to_owned(),
            },
            None => "unknown".to_owned(),
        }
    }

    /// The creative without its advertiser.
    pub fn tagline(&self) -> (r: String)
        ensures
            r@ == tagline_of(self.ad_text@),
    {
        match cut(self.ad_text.as_str(), MIDDOT) {
            Some((_, tail)) => trimmed(tail.as_str()),
            None => self.ad_text.clone(),
        }
    }

    /// A copy of this ad.
    pub fn copy(&self) -> (r: CliAd)
        ensures
            r == *self,
    {
        CliAd {
            ad_text: self.ad_text.clone(),
            click_url: crate::text::clone_opt(&self.click_url),
            icon_url: crate::text::clone_opt(&self.icon_url),
            icon_ref: crate::text::clone_opt(&self.icon_ref),
            ts: self.ts,
        }
    }
}

/// One row of the archive's ads: a distinct creative we have observed.
#[derive(Debug)]
pub struct AdRow {
    pub id: String,
    pub advertiser: String,
    pub ad_text: String,
    pub click_url: Option<String>,
    pub first_seen_ms: i64,
    pub last_seen_ms: i64,
    pub times_seen: i64,
}

impl AdRow {
    /// A copy of this row.
    pub fn copy(&self) -> (r: AdRow)
        ensures
            r == *self,
    {
        AdRow {
            id: self.id.clone(),
            advertiser: self.advertiser.clone(),
            ad_text: self.ad_text.clone(),
            click_url: crate::text::clone_opt(&self.click_url),
            first_seen_ms: self.first_seen_ms,
            last_seen_ms: self.last_seen_ms,
            times_seen: self.times_seen,
        }
    }
}

/// What follows the scheme of a URL, up to a second scheme mark; the whole URL
/// where it has no scheme.
pub open spec fn after_scheme(url: Seq<char>) -> Seq<char> {
    let parts = crate::text::split(url, "://"@);
    if parts.len() > 1 {
        parts[1]
    } else {
        url
    }
}

/// The host with the user information and the port dropped.
pub open spec fn bare_host(url: Seq<char>) -> Seq<char> {
    crate::text::until(
        crate::text::after_last(crate::text::until(after_scheme(url), "/?#"@), '@'),
        ":"@,
    )
}

/// The host portion of a URL, without a leading `www.`.
pub open spec fn host(url: Seq<char>) -> Option<Seq<char>> {
    let h = match crate::text::strip_prefix(bare_host(url), "www."@) {
        Some(rest) => rest,
        None => bare_host(url),
    };
    if h.len() == 0 {
        None
    } else {
        Some(h)
    }
}

/// Extract the host portion of a URL without pulling in a URL crate.
pub fn host_of(url: &str) -> (r: Option<String>)
    ensures
        crate::text::opt_view(r) == host(url@),
{
    proof {
        reveal_strlit("://");
    }
    let parts = split_at_each(url, "://");
    let rest: String = if parts.len() > 1 {
        assert(crate::text::views(parts@)[1] == parts@[1]@);
        parts[1].clone()
    } else {
        url.to_owned()
    };
    assert(crate::text::views(parts@).len() == parts@.len());
    assert(rest@ == after_scheme(url@));
    let authority = cut_at_any(rest.as_str(), "/?#");
    let name = rest_after_last(authority.as_str(), '@');
    let bare = cut_at_any(name.as_str(), ":");
    let found = match without_prefix(bare.as_str(), "www.") {
        Some(h) => h,
        None => bare,
    };
    if char_count(found.as_str()) == 0 {
        None
    } else {
        Some(found)
    }
}

/// Whether the text of the extension's ad file holds an ad at all: an absent or
/// blank file means that there is none, which is a normal state.
pub fn has_ad(raw: Option<&str>) -> (r: bool)
    ensures
        r == (match raw {
            Some(text) => crate::text::trim(text@).len() > 0,
            None => false,
        }),
{
    match raw {
        Some(text) => !blank(text),
        None => false,
    }
}

// ---- what the names mean ----------------------------------------------------

/// A creative that reads `name · tagline` is by that name, whatever it links to,
/// and its tagline is the rest; only the first separator counts.
pub proof fn the_name_before_the_middot_wins(
    head: Seq<char>,
    tail: Seq<char>,
    click_url: Option<Seq<char>>,
)
    requires
        forall|i: int|
            0 <= i < head.len() ==> !crate::text::occurs_at(
                head + " \u{b7} "@ + tail,
                " \u{b7} "@,
                i,
            ),
    ensures
        crate::text::trim(head).len() > 0 ==> advertiser_of(
            head + " \u{b7} "@ + tail,
            click_url,
        ) == crate::text::trim(head),
        tagline_of(head + " \u{b7} "@ + tail) == crate::text::trim(tail),
{
    cutting_parts_at_the_first(head, " \u{b7} "@, tail);
}

/// A creative that gives no name is by the host that it links to, or by nobody
/// known; without a separator all of it is the tagline.
pub proof fn without_a_name_the_host_names_the_advertiser(
    ad_text: Seq<char>,
    click_url: Option<Seq<char>>,
)
    requires
        forall|head: Seq<char>, tail: Seq<char>|
            ad_text == #[trigger] (head + " \u{b7} "@ + tail) && (forall|i: int|
                0 <= i < head.len() ==> !crate::text::occurs_at(ad_text, " \u{b7} "@, i))
                ==> crate::text::trim(head).len() == 0,
    ensures
        click_url is None ==> advertiser_of(ad_text, click_url) == "unknown"@,
        click_url is Some && host(click_url->0) is None ==> advertiser_of(ad_text, click_url)
            == "unknown"@,
        click_url is Some && host(click_url->0) is Some ==> advertiser_of(ad_text, click_url)
            == host(click_url->0)->0,
        !crate::text::contains(ad_text, " \u{b7} "@) ==> tagline_of(ad_text) == ad_text,
{
    let sep = " \u{b7} "@;
    crate::text::lemma_find_from(ad_text, sep, 0);
    if let Some(k) = crate::text::find_from(ad_text, sep, 0) {
        let head = ad_text.take(k);
        let tail = ad_text.skip(k + sep.len());
        assert(ad_text.subrange(k, k + sep.len()) == sep);
        assert(ad_text =~= head + sep + tail);
    }
}

/// Whether a text has none of the characters that end the authority of a URL.
pub open spec fn within_authority(s: Seq<char>) -> bool {
    forall|i: int| 0 <= i < s.len() ==> #[trigger] s[i] != '/' && s[i] != '?' && s[i] != '#'
}

proof fn lemma_bare(user: Seq<char>, name: Seq<char>, port: Seq<char>, path: Seq<char>)
    requires
        within_authority(user),
        user.len() > 0 ==> user.last() == '@',
        within_authority(name),
        forall|i: int| 0 <= i < name.len() ==> #[trigger] name[i] != '@' && name[i] != ':',
        within_authority(port),
        forall|i: int| 0 <= i < port.len() ==> #[trigger] port[i] != '@',
        port.len() > 0 ==> port[0] == ':',
        path.len() > 0 ==> path[0] == '/' || path[0] == '?' || path[0] == '#',
    ensures
        crate::text::until(
            crate::text::after_last(
                crate::text::until(user + name + port + path, "/?#"@),
                '@',
            ),
            ":"@,
        ) == name,
{
    reveal_strlit("/?#");
    reveal_strlit(":");
    let stops = "/?#"@;
    assert(stops.len() == 3 && stops[0] == '/' && stops[1] == '?' && stops[2] == '#');
    assert(":"@.len() == 1 && ":"@[0] == ':');
    let auth = user + name + port;
    assert forall|i: int| 0 <= i < auth.len() implies !stops.contains(#[trigger] auth[i]) by {
        if i < user.len() {
            assert(auth[i] == user[i]);
        } else if i < user.len() + name.len() {
            assert(auth[i] == name[i - user.len()]);
        } else {
            assert(auth[i] == port[i - user.len() - name.len()]);
        }
    }
    cut_is_at_the_first_stop(auth, path, stops);
    let last = name + port;
    assert forall|i: int| 0 <= i < last.len() implies #[trigger] last[i] != '@' by {
        if i < name.len() {
            assert(last[i] == name[i]);
        } else {
            assert(last[i] == port[i - name.len()]);
        }
    }
    if user.len() > 0 {
        rest_is_after_the_last(user.drop_last(), '@', last);
        assert(user.drop_last().push('@') =~= user);
        assert(user + last =~= auth);
    } else {
        rest_is_after_the_last(user, '@', last);
        assert(last =~= auth);
    }
    assert forall|i: int| 0 <= i < name.len() implies !":"@.contains(#[trigger] name[i]) by {}
    cut_is_at_the_first_stop(name, port, ":"@);
}

proof fn lemma_after_scheme(scheme: Seq<char>, rest: Seq<char>) -> (at: Option<int>)
    requires
        forall|i: int| 0 <= i < scheme.len() ==> #[trigger] scheme[i] != ':',
    ensures
        match at {
            Some(at) => 0 <= at && at + 1 < rest.len() && rest[at] == ':' && rest[at + 1] == '/'
                && after_scheme(scheme + "://"@ + rest) == rest.take(at),
            None => after_scheme(scheme + "://"@ + rest) == rest,
        },
{
    reveal_strlit("://");
    let mark = "://"@;
    assert(mark.len() == 3 && mark[0] == ':' && mark[1] == '/');
    let url = scheme + mark + rest;
    let n = scheme.len() as int;
    assert forall|k: int| 0 <= k < scheme.len() implies !crate::text::occurs_at(url, mark, k) by {
        if crate::text::occurs_at(url, mark, k) {
            assert(url.subrange(k, k + 3)[0] == url[k]);
            assert(url[k] == scheme[k]);
        }
    }
    cutting_parts_at_the_first(scheme, mark, rest);
    let parts = crate::text::split(url, mark);
    let second = crate::text::split_from(url, mark, n + 3);
    assert(parts == seq![url.subrange(0, n)] + second);
    crate::text::lemma_find_from(url, mark, n + 3);
    assert(url.skip(n + 3) =~= rest);
    assert(parts[1] == second[0]);
    match crate::text::find_from(url, mark, n + 3) {
        None => {
            assert(parts[1] == rest);
            None
        },
        Some(j) => {
            let at = j - n - 3;
            assert(url.subrange(n + 3, j) =~= rest.take(at));
            assert(second[0] == url.subrange(n + 3, j));
            assert(url.subrange(j, j + 3)[0] == url[j]);
            assert(url.subrange(j, j + 3)[1] == url[j + 1]);
            assert(rest[at] == url[j] && rest[at + 1] == url[j + 1]);
            Some(at)
        },
    }
}

proof fn lemma_bare_up_to(
    user: Seq<char>,
    name: Seq<char>,
    port: Seq<char>,
    path: Seq<char>,
    at: int,
)
    requires
        within_authority(user),
        user.len() > 0 ==> user.last() == '@',
        within_authority(name),
        forall|i: int| 0 <= i < name.len() ==> #[trigger] name[i] != '@' && name[i] != ':',
        within_authority(port),
        forall|i: int| 0 <= i < port.len() ==> #[trigger] port[i] != '@',
        port.len() > 0 ==> port[0] == ':',
        path.len() > 0 ==> path[0] == '/' || path[0] == '?' || path[0] == '#',
        0 <= at,
        at + 1 < (user + name + port + path).len(),
        (user + name + port + path)[at] == ':',
        (user + name + port + path)[at + 1] == '/',
    ensures
        crate::text::until(
            crate::text::after_last(
                crate::text::until((user + name + port + path).take(at), "/?#"@),
                '@',
            ),
            ":"@,
        ) == name,
{
    let rest = user + name + port + path;
    let u = user.len() as int;
    let n = user.len() + name.len();
    let p = user.len() + name.len() + port.len();
    assert(at + 1 >= p) by {
        if at + 1 < u {
            assert(rest[at + 1] == user[at + 1]);
        } else if at + 1 < n {
            assert(rest[at + 1] == name[at + 1 - u]);
        } else if at + 1 < p {
            assert(rest[at + 1] == port[at + 1 - n]);
        }
    }
    if at >= p {
        let cut = path.take(at - p);
        assert(rest.take(at) =~= user + name + port + cut);
        if cut.len() > 0 {
            assert(cut[0] == path[0]);
        }
        lemma_bare(user, name, port, cut);
    } else {
        assert(at == p - 1);
        assert(port.len() > 0) by {
            if port.len() == 0 {
                if name.len() > 0 {
                    assert(rest[at] == name[name.len() - 1]);
                } else {
                    assert(rest[at] == user.last());
                }
            }
        }
        let short = port.drop_last();
        assert forall|i: int| 0 <= i < short.len() implies #[trigger] short[i] != '/' && short[i]
            != '?' && short[i] != '#' && short[i] != '@' by {
            assert(short[i] == port[i]);
        }
        if short.len() > 0 {
            assert(short[0] == port[0]);
        }
        let nothing = Seq::<char>::empty();
        assert(rest.take(at) =~= user + name + short + nothing);
        lemma_bare(user, name, short, nothing);
    }
}

/// The host of a URL is what its authority holds without the user information
/// before the last `@`, the port after the `:`, and a leading `www.`; neither the
/// scheme nor what follows the authority matters.
pub proof fn host_is_the_bare_authority(
    scheme: Seq<char>,
    user: Seq<char>,
    www: bool,
    name: Seq<char>,
    port: Seq<char>,
    path: Seq<char>,
)
    requires
        forall|i: int| 0 <= i < scheme.len() ==> #[trigger] scheme[i] != ':',
        within_authority(user),
        user.len() > 0 ==> user.last() == '@',
        within_authority(name),
        forall|i: int| 0 <= i < name.len() ==> #[trigger] name[i] != '@' && name[i] != ':',
        !www ==> !crate::text::starts_with(name, "www."@),
        within_authority(port),
        forall|i: int| 0 <= i < port.len() ==> #[trigger] port[i] != '@',
        port.len() > 0 ==> port[0] == ':',
        path.len() > 0 ==> path[0] == '/' || path[0] == '?' || path[0] == '#',
    ensures
        ({
            let full = if www {
                "www."@ + name
            } else {
                name
            };
            host(scheme + "://"@ + (user + full + port + path)) == if name.len() > 0 {
                Some(name)
            } else {
                None
            }
        }),
{
    reveal_strlit("www.");
    let full = if www {
        "www."@ + name
    } else {
        name
    };
    assert forall|i: int| 0 <= i < full.len() implies #[trigger] full[i] != '@' && full[i] != ':'
        && full[i] != '/' && full[i] != '?' && full[i] != '#' by {
        if www {
            if i < 4 {
                assert(full[i] == "www."@[i]);
            } else {
                assert(full[i] == name[i - 4]);
            }
        }
    }
    let rest = user + full + port + path;
    let url = scheme + "://"@ + rest;
    match lemma_after_scheme(scheme, rest) {
        None => {
            lemma_bare(user, full, port, path);
        },
        Some(at) => {
            lemma_bare_up_to(user, full, port, path, at);
        },
    }
    assert(bare_host(url) == full);
    if www {
        assert(full.take(4) =~= "www."@);
        assert(full.skip(4) =~= name);
    }
}

/// A URL without a scheme starts with its authority.
pub proof fn host_needs_no_scheme(
    user: Seq<char>,
    name: Seq<char>,
    port: Seq<char>,
    path: Seq<char>,
)
    requires
        !crate::text::contains(user + name + port + path, "://"@),
        within_authority(user),
        user.len() > 0 ==> user.last() == '@',
        within_authority(name),
        forall|i: int| 0 <= i < name.len() ==> #[trigger] name[i] != '@' && name[i] != ':',
        !crate::text::starts_with(name, "www."@),
        within_authority(port),
        forall|i: int| 0 <= i < port.len() ==> #[trigger] port[i] != '@',
        port.len() > 0 ==> port[0] == ':',
        path.len() > 0 ==> path[0] == '/' || path[0] == '?' || path[0] == '#',
    ensures
        host(user + name + port + path) == if name.len() > 0 {
            Some(name)
        } else {
            None
        },
{
    let url = user + name + port + path;
    crate::text::lemma_find_from(url, "://"@, 0);
    assert(crate::text::split(url, "://"@).len() == 1);
    lemma_bare(user, name, port, path);
}

/// The identifier of a creative is that of its URL and its text on a line each;
/// a creative without a URL has an empty first line. What is identified tells
/// creatives apart, but for a URL with a line break in it.
pub proof fn ids_are_of_the_url_and_the_text(
    url: Option<Seq<char>>,
    text: Seq<char>,
    other_url: Option<Seq<char>>,
    other_text: Seq<char>,
)
    ensures
        creative_id(url, text) == crate::digest::short_id(
            encode_utf8(crate::text::or_empty(url).push('\n') + text),
        ),
        creative_bytes(url, text) == creative_bytes(other_url, other_text)
            && !crate::text::or_empty(url).contains('\n') && !crate::text::or_empty(
            other_url,
        ).contains('\n') ==> crate::text::or_empty(url) == crate::text::or_empty(other_url) && text
            == other_text,
{
    lemma_creative_bytes(url, text);
    lemma_creative_bytes(other_url, other_text);
    let a = crate::text::or_empty(url);
    let b = crate::text::or_empty(other_url);
    if creative_bytes(url, text) == creative_bytes(other_url, other_text) && !a.contains('\n')
        && !b.contains('\n') {
        crate::digest::encodings_tell_texts_apart(
            a.push('\n') + text,
            b.push('\n') + other_text,
        );
        crate::digest::lines_tell_their_texts(a, text, b, other_text);
    }
}

proof fn lemma_creative_bytes(url: Option<Seq<char>>, text: Seq<char>)
    ensures
        creative_bytes(url, text) == encode_utf8(crate::text::or_empty(url).push('\n') + text),
{
    let u = crate::text::or_empty(url);
    let nl = seq!['\n'];
    crate::digest::texts_are_encoded_in_order(u, nl);
    crate::digest::texts_are_encoded_in_order(u + nl, text);
    assert(u + nl =~= u.push('\n'));
    assert(encode_utf8(u) + seq![10u8] =~= encode_utf8(u).push(10u8));
}

} // verus!

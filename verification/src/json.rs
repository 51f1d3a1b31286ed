//! JSON values as plain data.

use vstd::prelude::*;

use crate::digest::hex_digit;

verus! {

/// One member of a JSON object, as far as it is read here.
#[derive(Debug)]
pub enum Member {
    /// `true` or `false`.
    Bool(bool),
    /// A string.
    Text(String),
    /// Any other value, no member of that name, or no object at all.
    Other,
}

/// What a member holds.
pub enum MemberView {
    Bool(bool),
    Text(Seq<char>),
    Other,
}

impl View for Member {
    type V = MemberView;

    open spec fn view(&self) -> MemberView {
        match self {
            Member::Bool(b) => MemberView::Bool(*b),
            Member::Text(s) => MemberView::Text(s@),
            Member::Other => MemberView::Other,
        }
    }
}

/// Whether a text is a JSON document.
pub uninterp spec fn json_parses(text: Seq<char>) -> bool;

/// The member `key` of the JSON document that `text` writes. It is `Other` where
/// the document is not an object, and where there is no such member.
pub uninterp spec fn json_member(text: Seq<char>, key: Seq<char>) -> MemberView;

/// `serde_json::from_str` into a `serde_json::Value`, then `Value::get` for each
/// key: a boolean or a string is handed out as such, all else as `Other`. Whether
/// there is a document depends on the text alone, and its members on the text and
/// the key alone; of a text that is no document there are none.
#[verifier::external_body]
pub(crate) fn json_members(text: &str, keys: &Vec<&str>) -> (r: Option<Vec<Member>>)
    ensures
        r is Some == json_parses(text@),
        r is Some ==> r->0@.len() == keys@.len(),
        r is Some ==> forall|i: int|
            0 <= i < keys@.len() ==> (#[trigger] r->0@[i])@ == json_member(text@, keys@[i]@),
{
    let doc = serde_json::from_str::<serde_json::Value>(text).ok()?;
    let members = keys.iter().map(|k| match doc.get(*k) {
        Some(serde_json::Value::Bool(b)) => Member::Bool(*b),
        Some(serde_json::Value::String(s)) => Member::Text(s.clone()),
        _ => Member::Other,
    });
    Some(members.collect())
}

/// The boolean that a member holds.
pub open spec fn bool_of(m: MemberView) -> Option<bool> {
    match m {
        MemberView::Bool(b) => Some(b),
        _ => None,
    }
}

/// The string that a member holds.
pub open spec fn text_of(m: MemberView) -> Option<Seq<char>> {
    match m {
        MemberView::Text(s) => Some(s),
        _ => None,
    }
}

impl Member {
    /// The boolean in this member, where it is one.
    pub fn as_bool(&self) -> (r: Option<bool>)
        ensures
            r == bool_of(self@),
    {
        match self {
            Member::Bool(b) => Some(*b),
            _ => None,
        }
    }

    /// The string in this member, where it is one.
    pub fn as_text(&self) -> (r: Option<String>)
        ensures
            crate::text::opt_view(r) == text_of(self@),
    {
        match self {
            Member::Text(s) => Some(s.clone()),
            _ => None,
        }
    }
}

/// What stands for a character in a JSON string literal: a short escape where
/// there is one, a numbered one for any other character below the space, and
/// otherwise the character itself.
pub open spec fn json_escape(c: char) -> Seq<char> {
    if c == '"' || c == '\\' {
        seq!['\\', c]
    } else if c == '\u{8}' {
        seq!['\\', 'b']
    } else if c == '\t' {
        seq!['\\', 't']
    } else if c == '\n' {
        seq!['\\', 'n']
    } else if c == '\u{c}' {
        seq!['\\', 'f']
    } else if c == '\r' {
        seq!['\\', 'r']
    } else if c <= '\u{1f}' {
        seq!['\\', 'u', '0', '0', hex_digit(c as int / 16), hex_digit(c as int % 16)]
    } else {
        seq![c]
    }
}

/// A text with each character as it stands in a JSON string literal.
pub open spec fn json_escaped(text: Seq<char>) -> Seq<char>
    decreases text.len(),
{
    if text.len() == 0 {
        Seq::empty()
    } else {
        json_escaped(text.drop_last()) + json_escape(text.last())
    }
}

/// The JSON string literal that stands for a text.
pub open spec fn json_string(text: Seq<char>) -> Seq<char> {
    seq!['"'] + json_escaped(text) + seq!['"']
}

/// `serde_json::Error`, handed through as it is.
#[verifier::external_type_specification]
#[verifier::external_body]
pub struct ExJsonError(serde_json::Error);

/// `serde_json::to_string` on a string slice: writing to memory does not fail,
/// and the text is put in quotes with serde_json's table of escapes.
#[verifier::external_body]
pub(crate) fn quote(text: &str) -> (r: Result<String, serde_json::Error>)
    ensures
        r is Ok,
        r->Ok_0@ == json_string(text@),
{
    serde_json::to_string(text)
}

proof fn lemma_escaped_is_inert(text: Seq<char>)
    ensures
        forall|i: int| 0 <= i < json_escaped(text).len() ==> #[trigger] json_escaped(text)[i] >= ' ',
    decreases text.len(),
{
    if text.len() > 0 {
        lemma_escaped_is_inert(text.drop_last());
        let head = json_escaped(text.drop_last());
        let tail = json_escape(text.last());
        let all = json_escaped(text);
        assert forall|i: int| 0 <= i < tail.len() implies #[trigger] tail[i] >= ' ' by {}
        assert forall|i: int| 0 <= i < all.len() implies #[trigger] all[i] >= ' ' by {
            if i < head.len() {
                assert(all[i] == head[i]);
            } else {
                assert(all[i] == tail[i - head.len()]);
            }
        }
    }
}

/// A JSON string literal has no character below the space, whatever the text: it
/// stands on one line.
pub proof fn json_strings_stand_on_one_line(text: Seq<char>)
    ensures
        forall|i: int| 0 <= i < json_string(text).len() ==> #[trigger] json_string(text)[i] >= ' ',
        !json_string(text).contains('\n'),
{
    lemma_escaped_is_inert(text);
    let all = json_string(text);
    assert forall|i: int| 0 <= i < all.len() implies #[trigger] all[i] >= ' ' by {
        if 0 < i < all.len() - 1 {
            assert(all[i] == json_escaped(text)[i - 1]);
        }
    }
}

/// A member is read as a flag or as a text only where it is one.
pub proof fn members_are_read_by_kind(b: bool, s: Seq<char>)
    ensures
        bool_of(MemberView::Bool(b)) == Some(b) && text_of(MemberView::Bool(b)) is None,
        text_of(MemberView::Text(s)) == Some(s) && bool_of(MemberView::Text(s)) is None,
        bool_of(MemberView::Other) is None && text_of(MemberView::Other) is None,
{
}

} // verus!

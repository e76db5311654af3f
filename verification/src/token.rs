//! The token as the decks, zones and agents handle it.
//!
//! Its tags are a set: a list in which no tag is looked for twice.

use vstd::prelude::*;
use crate::json::{empty_object, new_object, JsonObject};
use crate::types::{Timestamp, TokenView};

verus! {

/// A token: a card, an item, an agent, whatever a game moves about.
#[derive(Debug, Clone)]
pub struct Token {
    pub id: String,
    pub group: Option<String>,
    pub label: Option<String>,
    pub text: String,
    pub meta: JsonObject,
    pub char: String,
    pub kind: String,
    pub index: i32,
    pub rev: Option<bool>,
    pub tags: Option<Vec<String>>,
    pub attachments: Option<Vec<serde_json::Value>>,
    pub attached_to: Option<String>,
    pub attachment_type: Option<String>,
    pub merged: Option<bool>,
    pub merged_into: Option<String>,
    pub merged_from: Option<Vec<String>>,
    pub merged_at: Option<Timestamp>,
    pub split: Option<bool>,
    pub split_into: Option<Vec<String>>,
    pub split_from: Option<String>,
    pub split_index: Option<i32>,
    pub split_at: Option<Timestamp>,
}

impl View for Token {
    type V = TokenView;

    open spec fn view(&self) -> TokenView {
        TokenView {
            id: self.id@,
            label: self.label.deep_view(),
            group: self.group.deep_view(),
            text: self.text@,
            meta: self.meta,
            glyph: self.char@,
            kind: self.kind@,
            index: self.index,
            rev: self.rev,
            tags: self.tags.deep_view(),
            attachments: match self.attachments {
                Some(a) => Some(a@),
                None => None,
            },
            attached_to: self.attached_to.deep_view(),
            attachment_type: self.attachment_type.deep_view(),
            merged: self.merged,
            merged_into: self.merged_into.deep_view(),
            merged_from: self.merged_from.deep_view(),
            merged_at: self.merged_at,
            split: self.split,
            split_into: self.split_into.deep_view(),
            split_from: self.split_from.deep_view(),
            split_index: self.split_index,
            split_at: self.split_at,
        }
    }
}

/// The views of a list of tokens.
pub open spec fn views(v: Seq<Token>) -> Seq<TokenView> {
    v.map_values(|t: Token| t@)
}

/// A copy of a text that may be absent.
pub fn copy_text(s: &Option<String>) -> (r: Option<String>)
    ensures
        r.deep_view() == s.deep_view(),
{
    match s {
        Some(v) => Some(v.clone()),
        None => None,
    }
}

/// A copy of a list of texts.
pub fn copy_texts(v: &Vec<String>) -> (r: Vec<String>)
    ensures
        r.deep_view() == v.deep_view(),
{
    let mut out: Vec<String> = Vec::new();
    let mut i: usize = 0;
    while i < v.len()
        invariant
            0 <= i <= v.len(),
            out.deep_view() == v.deep_view().take(i as int),
        decreases v.len() - i,
    {
        let ghost before = out.deep_view();
        out.push(v[i].clone());
        proof {
            assert(v.deep_view()[i as int] == v[i as int]@);
            assert(out.deep_view() =~= before.push(v[i as int]@));
            assert(v.deep_view().take(i + 1) =~= v.deep_view().take(i as int).push(v[i as int]@));
        }
        i = i + 1;
    }
    proof {
        assert(v.deep_view().take(v.len() as int) =~= v.deep_view());
    }
    out
}

/// A copy of a list of texts that may be absent.
pub fn copy_text_list(v: &Option<Vec<String>>) -> (r: Option<Vec<String>>)
    ensures
        r.deep_view() == v.deep_view(),
{
    match v {
        Some(l) => Some(copy_texts(l)),
        None => None,
    }
}

/// A copy of a list of JSON values.
pub fn copy_values(v: &Vec<serde_json::Value>) -> (r: Vec<serde_json::Value>)
    ensures
        r@ == v@,
{
    let mut out: Vec<serde_json::Value> = Vec::new();
    let mut i: usize = 0;
    while i < v.len()
        invariant
            0 <= i <= v.len(),
            out@ == v@.take(i as int),
        decreases v.len() - i,
    {
        out.push(v[i].clone());
        proof {
            assert(v@.take(i + 1) =~= v@.take(i as int).push(v[i as int]));
        }
        i = i + 1;
    }
    proof {
        assert(v@.take(v.len() as int) =~= v@);
    }
    out
}

/// Whether `tag` is among `tags`.
pub fn contains_text(tags: &Vec<String>, tag: &str) -> (r: bool)
    ensures
        r == tags.deep_view().contains(tag@),
{
    let wanted = tag.to_owned();
    let mut i: usize = 0;
    while i < tags.len()
        invariant
            0 <= i <= tags.len(),
            wanted@ == tag@,
            forall|j: int| 0 <= j < i ==> tags.deep_view()[j] != tag@,
        decreases tags.len() - i,
    {
        proof {
            assert(tags.deep_view()[i as int] == tags[i as int]@);
        }
        if tags[i] == wanted {
            return true;
        }
        i = i + 1;
    }
    false
}

/// The tags of a token as a set.
pub open spec fn tag_set(tags: Option<Seq<Seq<char>>>) -> Set<Seq<char>> {
    match tags {
        Some(l) => l.to_set(),
        None => Set::empty(),
    }
}

impl Token {
    /// A token with the given identity and index, and with the defaults for
    /// everything else.
    pub fn new(id: String, index: i32) -> (r: Token)
        ensures
            r@.id == id@,
            r@.index == index,
            r@.kind == "default"@,
            r@.glyph == "□"@,
            r@.text == Seq::<char>::empty(),
            r@.meta == empty_object(),
            r@.group is None && r@.label is None && r@.rev is None && r@.tags is None && r@.attachments is None,
            r@.attached_to is None && r@.attachment_type is None,
            r@.merged is None && r@.merged_into is None && r@.merged_from is None && r@.merged_at is None,
            r@.split is None && r@.split_into is None && r@.split_from is None && r@.split_index is None
                && r@.split_at is None,
    {
        Token {
            id,
            group: None,
            label: None,
            text: String::new(),
            meta: new_object(),
            char: "□".to_owned(),
            kind: "default".to_owned(),
            index,
            rev: None,
            tags: None,
            attachments: None,
            attached_to: None,
            attachment_type: None,
            merged: None,
            merged_into: None,
            merged_from: None,
            merged_at: None,
            split: None,
            split_into: None,
            split_from: None,
            split_index: None,
            split_at: None,
        }
    }

    /// A token with the given properties and no runtime marks.
    pub fn with_properties(
        id: String,
        group: Option<String>,
        label: Option<String>,
        text: String,
        meta: JsonObject,
        char: String,
        kind: String,
        index: i32,
    ) -> (r: Token)
        ensures
            r@.id == id@,
            r@.group == group.deep_view(),
            r@.label == label.deep_view(),
            r@.text == text@,
            r@.meta == meta,
            r@.glyph == char@,
            r@.kind == kind@,
            r@.index == index,
            r@.rev is None && r@.tags is None && r@.attachments is None,
            r@.attached_to is None && r@.attachment_type is None,
            r@.merged is None && r@.merged_into is None && r@.merged_from is None && r@.merged_at is None,
            r@.split is None && r@.split_into is None && r@.split_from is None && r@.split_index is None
                && r@.split_at is None,
    {
        Token {
            id,
            group,
            label,
            text,
            meta,
            char,
            kind,
            index,
            rev: None,
            tags: None,
            attachments: None,
            attached_to: None,
            attachment_type: None,
            merged: None,
            merged_into: None,
            merged_from: None,
            merged_at: None,
            split: None,
            split_into: None,
            split_from: None,
            split_index: None,
            split_at: None,
        }
    }

    /// A copy that shares nothing with the token.
    pub fn deep_clone(&self) -> (r: Token)
        ensures
            r@ == self@,
    {
        Token {
            id: self.id.clone(),
            group: copy_text(&self.group),
            label: copy_text(&self.label),
            text: self.text.clone(),
            meta: self.meta.clone(),
            char: self.char.clone(),
            kind: self.kind.clone(),
            index: self.index,
            rev: self.rev,
            tags: copy_text_list(&self.tags),
            attachments: match &self.attachments {
                Some(a) => Some(copy_values(a)),
                None => None,
            },
            attached_to: copy_text(&self.attached_to),
            attachment_type: copy_text(&self.attachment_type),
            merged: self.merged,
            merged_into: copy_text(&self.merged_into),
            merged_from: copy_text_list(&self.merged_from),
            merged_at: self.merged_at,
            split: self.split,
            split_into: copy_text_list(&self.split_into),
            split_from: copy_text(&self.split_from),
            split_index: self.split_index,
            split_at: self.split_at,
        }
    }

    /// Adds a tag. A tag that is there already is not added again.
    pub fn add_tag(&mut self, tag: String)
        ensures
            tag_set(final(self)@.tags) == tag_set(old(self)@.tags).insert(tag@),
            final(self)@.tags is Some,
            *final(self) == (Token { tags: final(self).tags, ..*old(self) }),
    {
        let mut tags = match self.tags.take() {
            Some(t) => t,
            None => Vec::new(),
        };
        let ghost before = tags.deep_view();
        proof {
            assert(tag_set(old(self)@.tags) =~= before.to_set());
        }
        if !contains_text(&tags, tag.as_str()) {
            tags.push(tag);
            proof {
                assert(tags.deep_view() =~= before.push(tag@));
                lemma_push_to_set(before, tag@);
            }
        } else {
            proof {
                assert(before.to_set().insert(tag@) =~= before.to_set());
            }
        }
        self.tags = Some(tags);
    }

    /// Removes a tag. Returns whether it was there.
    pub fn remove_tag(&mut self, tag: &str) -> (r: bool)
        ensures
            r == tag_set(old(self)@.tags).contains(tag@),
            tag_set(final(self)@.tags) == tag_set(old(self)@.tags).remove(tag@),
            final(self)@.tags is Some == old(self)@.tags is Some,
            *final(self) == (Token { tags: final(self).tags, ..*old(self) }),
    {
        match self.tags.take() {
            Some(tags) => {
                let wanted = tag.to_owned();
                let ghost all = tags.deep_view();
                let mut kept: Vec<String> = Vec::new();
                let mut found = false;
                let mut i: usize = 0;
                proof {
                    assert(all.take(0) =~= Seq::empty());
                    assert(kept.deep_view().to_set() =~= all.take(0).to_set().remove(tag@));
                }
                while i < tags.len()
                    invariant
                        0 <= i <= tags.len(),
                        wanted@ == tag@,
                        all == tags.deep_view(),
                        found == all.take(i as int).contains(tag@),
                        kept.deep_view().to_set() == all.take(i as int).to_set().remove(tag@),
                    decreases tags.len() - i,
                {
                    let ghost kept_before = kept.deep_view();
                    proof {
                        assert(all[i as int] == tags[i as int]@);
                        assert(all.take(i + 1) =~= all.take(i as int).push(all[i as int]));
                        lemma_push_to_set(all.take(i as int), all[i as int]);
                        lemma_push_contains(all.take(i as int), all[i as int], tag@);
                    }
                    if tags[i] == wanted {
                        found = true;
                        proof {
                            assert(all.take(i + 1).to_set().remove(tag@) =~= all.take(i as int).to_set().remove(
                                tag@,
                            ));
                        }
                    } else {
                        kept.push(tags[i].clone());
                        proof {
                            assert(kept.deep_view() =~= kept_before.push(all[i as int]));
                            lemma_push_to_set(kept_before, all[i as int]);
                            assert(all.take(i + 1).to_set().remove(tag@) =~= all.take(i as int).to_set().remove(
                                tag@,
                            ).insert(all[i as int]));
                        }
                    }
                    i = i + 1;
                }
                proof {
                    assert(all.take(tags.len() as int) =~= all);
                }
                self.tags = Some(kept);
                found
            },
            None => {
                proof {
                    assert(Set::<Seq<char>>::empty().remove(tag@) =~= Set::empty());
                }
                false
            },
        }
    }

    /// Whether the token has the tag.
    pub fn has_tag(&self, tag: &str) -> (r: bool)
        ensures
            r == tag_set(self@.tags).contains(tag@),
    {
        match &self.tags {
            Some(tags) => contains_text(tags, tag),
            None => false,
        }
    }

    /// Turns the token over.
    pub fn flip(&mut self)
        ensures
            final(self)@.rev == Some(!old(self).is_reversed_spec()),
            *final(self) == (Token { rev: final(self).rev, ..*old(self) }),
    {
        let current = match self.rev {
            Some(b) => b,
            None => false,
        };
        self.rev = Some(!current);
    }

    pub open spec fn is_reversed_spec(&self) -> bool {
        self.rev == Some(true)
    }

    /// Whether the token is turned over. A token that was never turned is not.
    #[verifier::when_used_as_spec(is_reversed_spec)]
    pub fn is_reversed(&self) -> (r: bool)
        ensures
            r == self.is_reversed_spec(),
    {
        match self.rev {
            Some(b) => b,
            None => false,
        }
    }

    pub fn get_id(&self) -> (r: String)
        ensures
            r@ == self@.id,
    {
        self.id.clone()
    }

    pub fn get_index(&self) -> (r: i32)
        ensures
            r == self@.index,
    {
        self.index
    }
}

/// The items of a list with one more at its end are those of the list, and that one.
pub proof fn lemma_push_to_set<A>(s: Seq<A>, a: A)
    ensures
        s.push(a).to_set() == s.to_set().insert(a),
{
    assert forall|x: A| s.push(a).to_set().contains(x) <==> s.to_set().insert(a).contains(x) by {
        if s.push(a).contains(x) {
            let i = choose|i: int| 0 <= i < s.push(a).len() && s.push(a)[i] == x;
            if i < s.len() {
                assert(s[i] == x);
            }
        }
        if s.contains(x) {
            let i = choose|i: int| 0 <= i < s.len() && s[i] == x;
            assert(s.push(a)[i] == x);
        }
        assert(s.push(a)[s.len() as int] == a);
    }
    assert(s.push(a).to_set() =~= s.to_set().insert(a));
}

/// An item is in a list with one more at its end if it is in the list or is that one.
pub proof fn lemma_push_contains<A>(s: Seq<A>, a: A, x: A)
    ensures
        s.push(a).contains(x) == (s.contains(x) || a == x),
{
    lemma_push_to_set(s, a);
    assert(s.push(a).to_set().contains(x) == s.push(a).contains(x));
    assert(s.to_set().contains(x) == s.contains(x));
}

} // verus!

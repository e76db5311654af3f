//! Changes to single tokens: setting properties, attaching and detaching,
//! merging several into one and splitting one into several.
//!
//! What such a change notes about a token it notes in the token's meta
//! data: `_attachments`, `_mergedFrom`, `_mergedAt`, `_splitFrom`,
//! `_splitIndex`, `_splitAt`. A token is not changed in place; the changed
//! token is handed back.

#![allow(non_snake_case)]

use vstd::prelude::*;
use vstd::string::StringExecFns;
use crate::gamestate::utc_now;
use crate::json::{
    array_value, as_items, as_object, as_text, decode_value, index_value, number_value, object_entries,
    object_fields, object_get, object_insert, object_order, object_remove, string_value, text_value,
    value_items, value_object, value_of_index, value_of_items, value_of_number, value_of_string,
    value_string, JsonObject,
};
use crate::types::{HyperTokenError, IToken, TokenView};
use crate::utils::{decimal, push_decimal};

verus! {

/// A token attached to another, with the kind and the time of the attachment.
#[derive(Debug, Clone)]
pub struct Attachment {
    pub token: IToken,
    pub attachment_type: String,
    pub attached_at: i64,
    pub id: String,
}

/// Values by key.
pub type Fields = Map<Seq<char>, serde_json::Value>;

/// Keys with their values, in some order.
pub type Entries = Seq<(Seq<char>, serde_json::Value)>;

pub open spec fn entries_view(v: Seq<(String, serde_json::Value)>) -> Entries {
    v.map_values(|e: (String, serde_json::Value)| (e.0@, e.1))
}

/// The entries of an object in the order in which it hands them out.
pub open spec fn object_list(o: JsonObject) -> Entries {
    object_order(o).map_values(|k: Seq<char>| (k, object_fields(o)[k]))
}

/// The fields with each entry set in turn.
pub open spec fn with_entries(fields: Fields, entries: Entries) -> Fields
    decreases entries.len(),
{
    if entries.len() == 0 {
        fields
    } else {
        with_entries(fields, entries.drop_last()).insert(entries.last().0, entries.last().1)
    }
}

/// The fields with each entry set in turn, but for the key `meta`.
pub open spec fn with_entries_but_meta(fields: Fields, entries: Entries) -> Fields
    decreases entries.len(),
{
    if entries.len() == 0 {
        fields
    } else if entries.last().0 == "meta"@ {
        with_entries_but_meta(fields, entries.drop_last())
    } else {
        with_entries_but_meta(fields, entries.drop_last()).insert(entries.last().0, entries.last().1)
    }
}

/// What `transform` can change of a token.
pub ghost struct Shape {
    pub label: Option<Seq<char>>,
    pub group: Option<Seq<char>>,
    pub glyph: Seq<char>,
    pub kind: Seq<char>,
    pub meta: Fields,
}

/// The shape after one property was set: `meta`, if it is an object, is
/// merged into the meta data; `char`, `kind`, `label` and `group`, if they
/// are strings, set the field of that name; any other property goes into
/// the meta data.
pub open spec fn with_property(s: Shape, key: Seq<char>, value: serde_json::Value) -> Shape {
    if key == "meta"@ {
        match as_object(value) {
            Some(o) => Shape { meta: with_entries(s.meta, object_list(o)), ..s },
            None => s,
        }
    } else if key == "char"@ {
        match as_text(value) {
            Some(t) => Shape { glyph: t, ..s },
            None => s,
        }
    } else if key == "kind"@ {
        match as_text(value) {
            Some(t) => Shape { kind: t, ..s },
            None => s,
        }
    } else if key == "label"@ {
        match as_text(value) {
            Some(t) => Shape { label: Some(t), ..s },
            None => s,
        }
    } else if key == "group"@ {
        match as_text(value) {
            Some(t) => Shape { group: Some(t), ..s },
            None => s,
        }
    } else {
        Shape { meta: s.meta.insert(key, value), ..s }
    }
}

/// The shape after each property was set in turn.
pub open spec fn with_properties(s: Shape, entries: Entries) -> Shape
    decreases entries.len(),
{
    if entries.len() == 0 {
        s
    } else {
        with_property(with_properties(s, entries.drop_last()), entries.last().0, entries.last().1)
    }
}

pub open spec fn shape_of(t: TokenView) -> Shape {
    Shape { label: t.label, group: t.group, glyph: t.glyph, kind: t.kind, meta: object_fields(t.meta) }
}

/// `r` is `t` with the shape `s`.
pub open spec fn reshaped(r: TokenView, t: TokenView, s: Shape) -> bool {
    &&& r == (TokenView { label: s.label, group: s.group, glyph: s.glyph, kind: s.kind, meta: r.meta, ..t })
    &&& object_fields(r.meta) == s.meta
}

/// `r` is `t` with the meta data `meta` and, where one is given, the identifier `id`.
pub open spec fn with_meta(r: TokenView, t: TokenView, meta: Fields) -> bool {
    &&& r == (TokenView { meta: r.meta, ..t })
    &&& object_fields(r.meta) == meta
}

/// The entries that the executable list shows are those of the object.
proof fn lemma_entries(o: JsonObject, v: Seq<(String, serde_json::Value)>)
    requires
        v.map_values(|e: (String, serde_json::Value)| e.0@) == object_order(o),
        forall|i: int| 0 <= i < v.len() ==> (#[trigger] v[i]).1 == object_fields(o)[v[i].0@],
    ensures
        entries_view(v) == object_list(o),
{
    let names = v.map_values(|e: (String, serde_json::Value)| e.0@);
    assert forall|i: int| 0 <= i < v.len() implies entries_view(v)[i] == object_list(o)[i] by {
        assert(names[i] == v[i].0@);
    }
    assert(entries_view(v) =~= object_list(o));
}

/// The entries of an object.
fn entries_of(o: &JsonObject) -> (r: Vec<(String, serde_json::Value)>)
    ensures
        entries_view(r@) == object_list(*o),
{
    let r = object_entries(o);
    proof {
        lemma_entries(*o, r@);
    }
    r
}

/// Sets each entry in turn.
fn set_entries(m: &mut JsonObject, entries: Vec<(String, serde_json::Value)>, skip_meta: bool)
    ensures
        object_fields(*final(m)) == if skip_meta {
            with_entries_but_meta(object_fields(*old(m)), entries_view(entries@))
        } else {
            with_entries(object_fields(*old(m)), entries_view(entries@))
        },
{
    let ghost all = entries_view(entries@);
    let ghost start = object_fields(*m);
    let n = entries.len();
    let meta = "meta".to_owned();
    let mut i: usize = 0;
    proof {
        assert(all.take(0) =~= Seq::empty());
    }
    while i < n
        invariant
            0 <= i <= n,
            n == entries.len(),
            meta@ == "meta"@,
            all == entries_view(entries@),
            object_fields(*m) == if skip_meta {
                with_entries_but_meta(start, all.take(i as int))
            } else {
                with_entries(start, all.take(i as int))
            },
        decreases n - i,
    {
        proof {
            assert(all.take(i + 1).drop_last() =~= all.take(i as int));
            assert(all.take(i + 1).last() == (entries[i as int].0@, entries[i as int].1));
        }
        if !(skip_meta && entries[i].0 == meta) {
            object_insert(m, entries[i].0.clone(), entries[i].1.clone());
        }
        i = i + 1;
    }
    proof {
        assert(all.take(n as int) =~= all);
    }
}

/// The texts as JSON strings.
pub open spec fn string_values(ids: Seq<Seq<char>>) -> Seq<serde_json::Value> {
    ids.map_values(|s: Seq<char>| string_value(s))
}

/// The meta data of a merged token: those of all the tokens, one over the
/// other in turn; then the properties given, but for `meta`; then
/// `_mergedFrom`, the identifiers of the tokens, and `_mergedAt`, the time.
pub open spec fn merged_meta(tokens: Seq<TokenView>, properties: Option<serde_json::Value>, at: i64) -> Fields {
    let all = metas_over(object_fields(tokens[0].meta), tokens);
    let set = match properties {
        Some(p) => match as_object(p) {
            Some(o) => with_entries_but_meta(all, object_list(o)),
            None => all,
        },
        None => all,
    };
    set.insert("_mergedFrom"@, array_value(string_values(tokens.map_values(|t: TokenView| t.id)))).insert(
        "_mergedAt"@,
        number_value(at),
    )
}

/// `r` is the first of the tokens with the meta data of their merger at
/// the time `at`, the properties being what the text given parses to.
pub open spec fn is_merged(r: TokenView, tokens: Seq<TokenView>, properties_json: Option<String>, at: i64) -> bool {
    with_meta(
        r,
        tokens[0],
        merged_meta(
            tokens,
            match properties_json {
                Some(text) => text_value(text@),
                None => None,
            },
            at,
        ),
    )
}

/// The fields with the meta data of each token set over them in turn.
pub open spec fn metas_over(fields: Fields, tokens: Seq<TokenView>) -> Fields
    decreases tokens.len(),
{
    if tokens.len() == 0 {
        fields
    } else {
        with_entries(metas_over(fields, tokens.drop_last()), object_list(tokens.last().meta))
    }
}

/// The identifier of the part `i` of a split token: that of the token,
/// `-split-`, and the number of the part in decimal.
pub open spec fn split_name(base: Seq<char>, i: nat) -> Seq<char> {
    base + "-split-"@ + decimal(i)
}

/// The identifier of the part `i` of a split token.
pub fn split_id(base: &str, i: usize) -> (r: String)
    ensures
        r@ == split_name(base@, i as nat),
{
    let mut id = base.to_owned();
    id.append("-split-");
    push_decimal(&mut id, i);
    id
}

/// The meta data of the part `i` of a split token: those of the token,
/// the properties given for the part if they are an object, and then
/// `_splitFrom`, `_splitIndex` and `_splitAt`.
pub open spec fn split_meta(t: TokenView, custom: Option<serde_json::Value>, i: nat, at: i64) -> Fields {
    let base = object_fields(t.meta);
    let set = match custom {
        Some(c) => match as_object(c) {
            Some(o) => with_entries(base, object_list(o)),
            None => base,
        },
        None => base,
    };
    set.insert("_splitFrom"@, string_value(t.id)).insert("_splitIndex"@, index_value(i)).insert(
        "_splitAt"@,
        number_value(at),
    )
}

/// `r` is the part `i` of the token `t` split at the time `at`: the token
/// under the identifier of the part, with the meta data of the part.
pub open spec fn is_part(r: TokenView, t: TokenView, custom: Option<serde_json::Value>, i: nat, at: i64) -> bool {
    &&& r == (TokenView { id: split_name(t.id, i), meta: r.meta, ..t })
    &&& object_fields(r.meta) == split_meta(t, custom, i, at)
}

/// The parts are those of the token `t` split at the time `at`; the
/// properties of the part `i` are the item `i` of those given, if there is one.
pub open spec fn is_split(parts: Seq<IToken>, t: TokenView, properties: Seq<serde_json::Value>, at: i64) -> bool {
    forall|i: int|
        0 <= i < parts.len() ==> is_part(
            (#[trigger] parts[i])@,
            t,
            if i < properties.len() {
                Some(properties[i])
            } else {
                None
            },
            i as nat,
            at,
        )
}

/// The identifier under which an attachment is noted: the string under
/// `id` of the object that notes it.
pub open spec fn noted_id(record: serde_json::Value) -> Option<Seq<char>> {
    match as_object(record) {
        Some(o) => if object_fields(o).contains_key("id"@) {
            as_text(object_fields(o)["id"@])
        } else {
            None
        },
        None => None,
    }
}

/// Where the first attachment noted under `id` stands; the number of
/// records where there is none.
pub open spec fn noted_at(records: Seq<serde_json::Value>, id: Seq<char>) -> int
    decreases records.len(),
{
    if records.len() == 0 {
        0
    } else if noted_id(records[0]) == Some(id) {
        0
    } else {
        1 + noted_at(records.drop_first(), id)
    }
}

proof fn lemma_noted_at(records: Seq<serde_json::Value>, id: Seq<char>, i: int)
    requires
        0 <= i <= records.len(),
        forall|j: int| 0 <= j < i ==> noted_id(records[j]) != Some(id),
        i < records.len() ==> noted_id(records[i]) == Some(id),
    ensures
        noted_at(records, id) == i,
    decreases records.len(),
{
    if records.len() > 0 && noted_id(records[0]) != Some(id) {
        assert forall|j: int| 0 <= j < i - 1 implies noted_id(records.drop_first()[j]) != Some(id) by {
            assert(records.drop_first()[j] == records[j + 1]);
        }
        if i - 1 < records.drop_first().len() {
            assert(records.drop_first()[i - 1] == records[i]);
        }
        lemma_noted_at(records.drop_first(), id, i - 1);
    }
}

/// A record that goes to the end of a list in which nothing is noted
/// under its identifier is the one found under that identifier: what was
/// attached last is what detaching hands out.
pub proof fn law_attached_is_found(records: Seq<serde_json::Value>, record: serde_json::Value, id: Seq<char>)
    requires
        noted_id(record) == Some(id),
        forall|j: int| 0 <= j < records.len() ==> noted_id(records[j]) != Some(id),
    ensures
        noted_at(records.push(record), id) == records.len(),
        records.push(record)[noted_at(records.push(record), id)] == record,
{
    let all = records.push(record);
    assert forall|j: int| 0 <= j < records.len() implies noted_id(all[j]) != Some(id) by {
        assert(all[j] == records[j]);
    }
    lemma_noted_at(all, id, records.len() as int);
}

/// The records of the attachments of a token: the items under
/// `_attachments` of its meta data, none where no array is there.
pub open spec fn attachments_of(t: TokenView) -> Seq<serde_json::Value> {
    if object_fields(t.meta).contains_key("_attachments"@) {
        match as_items(object_fields(t.meta)["_attachments"@]) {
            Some(items) => items,
            None => Seq::empty(),
        }
    } else {
        Seq::empty()
    }
}

/// The token that a record of an attachment holds: what is under `token`
/// of the object that notes it.
pub open spec fn noted_token(record: serde_json::Value) -> Option<serde_json::Value> {
    match as_object(record) {
        Some(o) => if object_fields(o).contains_key("token"@) {
            Some(object_fields(o)["token"@])
        } else {
            None
        },
        None => None,
    }
}

/// Changes to tokens. It holds nothing.
pub struct TokenOps {}

impl TokenOps {
    pub fn new() -> TokenOps {
        TokenOps {  }
    }

    /// Sets the properties of a token: those of the object given, in the
    /// order in which the object hands them out. See `with_property`.
    /// Properties that are no object change nothing.
    pub fn transform(&self, token: IToken, properties: &serde_json::Value) -> (r: Result<IToken, HyperTokenError>)
        ensures
            r is Ok,
            reshaped(
                r->Ok_0@,
                token@,
                match as_object(*properties) {
                    Some(o) => with_properties(shape_of(token@), object_list(o)),
                    None => shape_of(token@),
                },
            ),
    {
        let mut token = token;
        let ghost start = token@;
        let props = match value_object(properties) {
            Some(o) => o,
            None => {
                return Ok(token);
            },
        };
        let entries = entries_of(&props);
        let ghost all = entries_view(entries@);
        let n = entries.len();
        let mut i: usize = 0;
        proof {
            assert(all.take(0) =~= Seq::empty());
        }
        while i < n
            invariant
                0 <= i <= n,
                n == entries.len(),
                all == entries_view(entries@),
                reshaped(token@, start, with_properties(shape_of(start), all.take(i as int))),
            decreases n - i,
        {
            proof {
                assert(all.take(i + 1).drop_last() =~= all.take(i as int));
                assert(all.take(i + 1).last() == (entries[i as int].0@, entries[i as int].1));
            }
            let key = entries[i].0.clone();
            if key == "meta".to_owned() {
                match value_object(&entries[i].1) {
                    Some(new_meta) => {
                        let more = entries_of(&new_meta);
                        set_entries(&mut token.meta, more, false);
                    },
                    None => {},
                }
            } else if key == "char".to_owned() {
                match value_string(&entries[i].1) {
                    Some(s) => {
                        token.char = s;
                    },
                    None => {},
                }
            } else if key == "kind".to_owned() {
                match value_string(&entries[i].1) {
                    Some(s) => {
                        token.kind = s;
                    },
                    None => {},
                }
            } else if key == "label".to_owned() {
                match value_string(&entries[i].1) {
                    Some(s) => {
                        token.label = Some(s);
                    },
                    None => {},
                }
            } else if key == "group".to_owned() {
                match value_string(&entries[i].1) {
                    Some(s) => {
                        token.group = Some(s);
                    },
                    None => {},
                }
            } else {
                object_insert(&mut token.meta, key, entries[i].1.clone());
            }
            i = i + 1;
        }
        proof {
            assert(all.take(n as int) =~= all);
        }
        Ok(token)
    }

    /// Notes an attachment in the meta data of its host: the record goes
    /// to the end of the array under `_attachments`, which is made anew
    /// where no array is there.
    pub fn attach_record(&self, host: IToken, record: serde_json::Value) -> (r: Result<IToken, HyperTokenError>)
        ensures
            r is Ok,
            with_meta(
                r->Ok_0@,
                host@,
                object_fields(host@.meta).insert(
                    "_attachments"@,
                    array_value(attachments_of(host@).push(record)),
                ),
            ),
            attachments_of(r->Ok_0@) == attachments_of(host@).push(record),
    {
        let mut host = host;
        let mut records = match object_get(&host.meta, "_attachments") {
            Some(existing) => match value_items(&existing) {
                Some(items) => items,
                None => Vec::new(),
            },
            None => Vec::new(),
        };
        records.push(record);
        object_insert(&mut host.meta, "_attachments".to_owned(), value_of_items(records));
        Ok(host)
    }

    /// Finds the first attachment noted under `attachment_id` in the meta
    /// data of its host and hands out the token that the record holds.
    /// Fails where no attachment is noted under that identifier, or its
    /// record holds no token.
    pub fn detach_record(&self, host: &IToken, attachment_id: &str) -> (r: Result<serde_json::Value, HyperTokenError>)
        ensures
            ({
                let records = attachments_of(host@);
                let at = noted_at(records, attachment_id@);
                if at < records.len() && noted_token(records[at]) is Some {
                    r == Ok::<serde_json::Value, HyperTokenError>(noted_token(records[at])->0)
                } else {
                    r is Err && r->Err_0 is InvalidOperation
                }
            }),
    {
        let records = match object_get(&host.meta, "_attachments") {
            Some(existing) => match value_items(&existing) {
                Some(items) => items,
                None => Vec::new(),
            },
            None => Vec::new(),
        };
        let wanted = attachment_id.to_owned();
        let mut i: usize = 0;
        while i < records.len()
            invariant
                0 <= i <= records.len(),
                wanted@ == attachment_id@,
                records@ == attachments_of(host@),
                forall|j: int| 0 <= j < i ==> noted_id(records@[j]) != Some(attachment_id@),
            decreases records.len() - i,
        {
            let noted = match value_object(&records[i]) {
                Some(o) => match object_get(&o, "id") {
                    Some(v) => value_string(&v),
                    None => None,
                },
                None => None,
            };
            let found = match noted {
                Some(id) => id == wanted,
                None => false,
            };
            if found {
                proof {
                    lemma_noted_at(records@, attachment_id@, i as int);
                }
                let token = match value_object(&records[i]) {
                    Some(o) => object_get(&o, "token"),
                    None => None,
                };
                return match token {
                    Some(t) => Ok(t),
                    None => Err(Self::no_attachment(attachment_id)),
                };
            }
            i = i + 1;
        }
        proof {
            lemma_noted_at(records@, attachment_id@, i as int);
        }
        Err(Self::no_attachment(attachment_id))
    }

    /// The error for an attachment that is not noted, with its
    /// identifier in the message.
    fn no_attachment(attachment_id: &str) -> (e: HyperTokenError)
        ensures
            e is InvalidOperation,
            e->InvalidOperation_0@ == "Attachment "@ + attachment_id@ + " not found"@,
    {
        let mut text = "Attachment ".to_owned();
        text.append(attachment_id);
        text.append(" not found");
        HyperTokenError::InvalidOperation(text)
    }

    /// Takes from a detached token what was noted of its attachment:
    /// `_attachedTo` and `_attachmentType` leave its meta data.
    pub fn clean_detached(&self, token: IToken) -> (r: IToken)
        ensures
            with_meta(r@, token@, object_fields(token@.meta).remove("_attachedTo"@).remove("_attachmentType"@)),
    {
        let mut token = token;
        object_remove(&mut token.meta, "_attachedTo");
        object_remove(&mut token.meta, "_attachmentType");
        token
    }

    /// Merges tokens into one at the time `at`: the first token with the
    /// meta data of all of them. See `merged_meta`. Fails where fewer than
    /// two tokens are given, or the properties are no JSON.
    pub fn merge_at(
        &self,
        tokens: &Vec<IToken>,
        result_properties_json: Option<String>,
        keep_originals: bool,
        at: i64,
    ) -> (r: Result<IToken, HyperTokenError>)
        ensures
            tokens.len() < 2 ==> r is Err && r->Err_0 is InvalidOperation,
            tokens.len() >= 2 && result_properties_json is Some && text_value(result_properties_json->0@) is None
                ==> r is Err && r->Err_0 is SerializationError,
            tokens.len() >= 2 && !(result_properties_json is Some && text_value(result_properties_json->0@) is None)
                ==> r is Ok && is_merged(r->Ok_0@, crate::types::tokens_view(tokens@), result_properties_json, at),
    {
        if tokens.len() < 2 {
            return Err(HyperTokenError::InvalidOperation("At least 2 tokens required to merge".to_owned()));
        }
        let ghost ts = crate::types::tokens_view(tokens@);
        let mut merged = tokens[0].deep_clone();
        let ghost start = object_fields(merged.meta);
        let n = tokens.len();
        let mut i: usize = 0;
        proof {
            assert(ts.take(0) =~= Seq::empty());
            assert(ts[0] == tokens[0]@);
        }
        while i < n
            invariant
                0 <= i <= n,
                n == tokens.len(),
                n >= 2,
                ts == crate::types::tokens_view(tokens@),
                start == object_fields(tokens[0]@.meta),
                merged@ == (TokenView { meta: merged@.meta, ..tokens[0]@ }),
                object_fields(merged.meta) == metas_over(start, ts.take(i as int)),
            decreases n - i,
        {
            proof {
                assert(ts.take(i + 1).drop_last() =~= ts.take(i as int));
                assert(ts.take(i + 1).last() == tokens[i as int]@);
            }
            let entries = entries_of(&tokens[i].meta);
            set_entries(&mut merged.meta, entries, false);
            i = i + 1;
        }
        proof {
            assert(ts.take(n as int) =~= ts);
        }
        match result_properties_json {
            Some(props_json) => {
                let props = match decode_value(props_json.as_str()) {
                    Some(v) => v,
                    None => {
                        return Err(HyperTokenError::SerializationError("invalid JSON".to_owned()));
                    },
                };
                match value_object(&props) {
                    Some(o) => {
                        let entries = entries_of(&o);
                        set_entries(&mut merged.meta, entries, true);
                    },
                    None => {},
                }
            },
            None => {},
        }
        let mut ids: Vec<serde_json::Value> = Vec::new();
        let ghost names = ts.map_values(|t: TokenView| t.id);
        let mut k: usize = 0;
        proof {
            assert(ids@ =~= string_values(names.take(0)));
        }
        while k < n
            invariant
                0 <= k <= n,
                n == tokens.len(),
                ts == crate::types::tokens_view(tokens@),
                names == ts.map_values(|t: TokenView| t.id),
                ids@ == string_values(names.take(k as int)),
            decreases n - k,
        {
            let ghost before = ids@;
            ids.push(value_of_string(tokens[k].id.clone()));
            proof {
                assert(names[k as int] == tokens[k as int]@.id);
                assert(names.take(k + 1) =~= names.take(k as int).push(names[k as int]));
                assert(ids@ =~= string_values(names.take(k + 1)));
            }
            k = k + 1;
        }
        proof {
            assert(names.take(n as int) =~= names);
        }
        object_insert(&mut merged.meta, "_mergedFrom".to_owned(), value_of_items(ids));
        object_insert(&mut merged.meta, "_mergedAt".to_owned(), value_of_number(at));
        // the tokens given stay as they are, whether or not they are to be kept
        let _ = keep_originals;
        Ok(merged)
    }

    /// Merges tokens into one now. See `merge_at`.
    pub fn merge(&self, tokens: &Vec<IToken>, result_properties_json: Option<String>, keep_originals: bool) -> (r:
        Result<IToken, HyperTokenError>)
        ensures
            tokens.len() < 2 ==> r is Err && r->Err_0 is InvalidOperation,
            tokens.len() >= 2 && result_properties_json is Some && text_value(result_properties_json->0@) is None
                ==> r is Err && r->Err_0 is SerializationError,
            tokens.len() >= 2 && !(result_properties_json is Some && text_value(result_properties_json->0@) is None)
                ==> r is Ok && exists|at: i64| #[trigger]
                is_merged(r->Ok_0@, crate::types::tokens_view(tokens@), result_properties_json, at),
    {
        self.merge_at(tokens, result_properties_json, keep_originals, utc_now())
    }

    /// Splits a token into `count` parts at the time `at`. See `is_split`.
    /// Fails where `count` is less than 2.
    pub fn split_at(&self, token: &IToken, count: usize, properties_array: &Vec<serde_json::Value>, at: i64) -> (r:
        Result<Vec<IToken>, HyperTokenError>)
        ensures
            count < 2 ==> r is Err && r->Err_0 is InvalidOperation,
            count >= 2 ==> r is Ok && r->Ok_0.len() == count && is_split(r->Ok_0@, token@, properties_array@, at),
    {
        if count < 2 {
            return Err(HyperTokenError::InvalidOperation("Split count must be at least 2".to_owned()));
        }
        let mut parts: Vec<IToken> = Vec::new();
        let mut i: usize = 0;
        while i < count
            invariant
                0 <= i <= count,
                parts.len() == i,
                is_split(parts@, token@, properties_array@, at),
            decreases count - i,
        {
            let mut part = token.deep_clone();
            part.id = split_id(token.id.as_str(), i);
            if i < properties_array.len() {
                match value_object(&properties_array[i]) {
                    Some(custom) => {
                        let entries = entries_of(&custom);
                        set_entries(&mut part.meta, entries, false);
                    },
                    None => {},
                }
            }
            object_insert(&mut part.meta, "_splitFrom".to_owned(), value_of_string(token.id.clone()));
            object_insert(&mut part.meta, "_splitIndex".to_owned(), value_of_index(i));
            object_insert(&mut part.meta, "_splitAt".to_owned(), value_of_number(at));
            let ghost before = parts@;
            parts.push(part);
            proof {
                assert forall|j: int| 0 <= j < parts.len() implies is_part(
                    (#[trigger] parts@[j])@,
                    token@,
                    if j < properties_array@.len() {
                        Some(properties_array@[j])
                    } else {
                        None
                    },
                    j as nat,
                    at,
                ) by {
                    if j < i {
                        assert(parts@[j] == before[j]);
                    }
                }
            }
            i = i + 1;
        }
        Ok(parts)
    }

    /// Splits a token into `count` parts now. See `split_at`.
    pub fn split(&self, token: &IToken, count: usize, properties_array: &Vec<serde_json::Value>) -> (r: Result<
        Vec<IToken>,
        HyperTokenError,
    >)
        ensures
            count < 2 ==> r is Err && r->Err_0 is InvalidOperation,
            count >= 2 ==> r is Ok && r->Ok_0.len() == count && exists|at: i64| #[trigger]
                is_split(r->Ok_0@, token@, properties_array@, at),
    {
        self.split_at(token, count, properties_array, utc_now())
    }
}

impl Default for TokenOps {
    fn default() -> TokenOps {
        TokenOps::new()
    }
}

} // verus!

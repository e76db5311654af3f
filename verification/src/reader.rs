//! The schema reader: the typed state that a document shows.
//!
//! Reading never fails. What is missing or of another kind than expected
//! reads as absent, and an absent part takes its default. The `*_from` and
//! `*_read` functions say what is read; the executable functions read it.

#![allow(non_snake_case)]

use vstd::prelude::*;
use crate::engine::{
    doc_get, doc_get_at, doc_keys, doc_length, doc_objects, is_map, items_at, keys_at, obj_key, root, root_key,
    scalar_cell, Cell, Found, ObjKey, Objects, Scalar, Slot,
};
use crate::json::{
    as_items, decode_object, decode_strings, decode_value, empty_object, new_object, string_value, text_object,
    text_strings, text_value, value_items, value_of_string, JsonObject,
};
use crate::types::{
    default_policy, entries_map, lemma_entries_push, placements_view, stamps_view, tokens_view, values_view,
    zones_view, GameLoopView, HyperTokenError, HyperTokenState, IGameLoopState, IPlacementCRDT, IRuleState,
    ISourceState, IStackState, IToken, PlacementView, PolicyView, ReshufflePolicy, RuleView, SourceView, StackView,
    StateView, TokenView,
};
use crate::writer::known_names;

verus! {

/// The fields of the object `k`; none where `k` is no object.
pub open spec fn fields_of(objs: Objects, k: ObjKey) -> Map<Seq<char>, Slot> {
    if objs.contains_key(k) {
        objs[k].fields
    } else {
        Map::empty()
    }
}

/// The fields of the object in `slot`; none where the slot holds a scalar.
pub open spec fn slot_fields(objs: Objects, slot: Slot) -> Map<Seq<char>, Slot> {
    match slot {
        Slot::Object(k) => fields_of(objs, k),
        Slot::Value(_) => Map::empty(),
    }
}

/// The items of the object in `slot`; none where the slot holds a scalar.
pub open spec fn slot_items(objs: Objects, slot: Slot) -> Seq<Option<Slot>> {
    match slot {
        Slot::Object(k) => items_at(objs, k),
        Slot::Value(_) => Seq::empty(),
    }
}

/// The keys of the object in `slot`; none where the slot holds a scalar.
pub open spec fn slot_keys(objs: Objects, slot: Slot) -> Seq<Seq<char>> {
    match slot {
        Slot::Object(k) => keys_at(objs, k),
        Slot::Value(_) => Seq::empty(),
    }
}

/// The names that the engine enumerates for the object `k`: for a map,
/// those under which a lookup finds something.
pub open spec fn names_at(objs: Objects, k: ObjKey) -> Set<Seq<char>> {
    if is_map(objs, k) {
        objs[k].fields.dom()
    } else {
        keys_at(objs, k).to_set()
    }
}

/// The names of the object in `slot`; none where the slot holds a scalar.
pub open spec fn slot_names(objs: Objects, slot: Slot) -> Set<Seq<char>> {
    match slot {
        Slot::Object(k) => names_at(objs, k),
        Slot::Value(_) => Set::empty(),
    }
}

/// The scalar under `name`, if a scalar is there.
pub open spec fn scalar_in(f: Map<Seq<char>, Slot>, name: Seq<char>) -> Option<Scalar> {
    if f.contains_key(name) {
        match f[name] {
            Slot::Value(s) => Some(s),
            Slot::Object(_) => None,
        }
    } else {
        None
    }
}

pub open spec fn as_str(s: Option<Scalar>) -> Option<Seq<char>> {
    match s {
        Some(Scalar::Str(v)) => Some(v),
        _ => None,
    }
}

/// A signed integer as it is, an unsigned one by its low 64 bits.
pub open spec fn as_int(s: Option<Scalar>) -> Option<i64> {
    match s {
        Some(Scalar::Int(v)) => Some(v),
        Some(Scalar::Uint(v)) => Some(v as i64),
        _ => None,
    }
}

pub open spec fn as_bool(s: Option<Scalar>) -> Option<bool> {
    match s {
        Some(Scalar::Bool(v)) => Some(v),
        _ => None,
    }
}

/// A float or an integer, kept as the scalar it is.
pub open spec fn as_number(s: Option<Scalar>) -> Option<Scalar> {
    match s {
        Some(Scalar::Real(v)) => Some(Scalar::Real(v)),
        Some(Scalar::Int(v)) => Some(Scalar::Int(v)),
        Some(Scalar::Uint(v)) => Some(Scalar::Uint(v)),
        _ => None,
    }
}

pub open spec fn str_in(f: Map<Seq<char>, Slot>, name: Seq<char>) -> Option<Seq<char>> {
    as_str(scalar_in(f, name))
}

pub open spec fn int_in(f: Map<Seq<char>, Slot>, name: Seq<char>) -> Option<i64> {
    as_int(scalar_in(f, name))
}

pub open spec fn bool_in(f: Map<Seq<char>, Slot>, name: Seq<char>) -> Option<bool> {
    as_bool(scalar_in(f, name))
}

pub open spec fn number_in(f: Map<Seq<char>, Slot>, name: Seq<char>) -> Option<Scalar> {
    as_number(scalar_in(f, name))
}

pub open spec fn str_or(s: Option<Seq<char>>, default: Seq<char>) -> Seq<char> {
    match s {
        Some(v) => v,
        None => default,
    }
}

pub open spec fn int_or(i: Option<i64>, default: i64) -> i64 {
    match i {
        Some(v) => v,
        None => default,
    }
}

pub open spec fn bool_or(b: Option<bool>, default: bool) -> bool {
    match b {
        Some(v) => v,
        None => default,
    }
}

/// An integer cut to its low 32 bits.
pub open spec fn narrow(i: Option<i64>) -> Option<i32> {
    match i {
        Some(v) => Some(v as i32),
        None => None,
    }
}

/// The list of strings in the text under `name`, if one is there.
pub open spec fn list_in(f: Map<Seq<char>, Slot>, name: Seq<char>) -> Option<Seq<Seq<char>>> {
    match str_in(f, name) {
        Some(t) => text_strings(t),
        None => None,
    }
}

/// The list of JSON values in a text, if the text holds one.
pub open spec fn items_read(t: Option<Seq<char>>) -> Option<Seq<serde_json::Value>> {
    match t {
        Some(s) => match text_value(s) {
            Some(v) => as_items(v),
            None => None,
        },
        None => None,
    }
}

/// The list of JSON values in the text under `name`, if one is there.
pub open spec fn items_in(f: Map<Seq<char>, Slot>, name: Seq<char>) -> Option<Seq<serde_json::Value>> {
    items_read(str_in(f, name))
}

/// The object in the text `t`; the empty one where `t` holds none.
pub open spec fn object_or_empty(t: Option<Seq<char>>) -> JsonObject {
    match t {
        Some(s) => match text_object(s) {
            Some(m) => m,
            None => empty_object(),
        },
        None => empty_object(),
    }
}

/// The token that a map with the fields `f` shows.
pub open spec fn token_from(f: Map<Seq<char>, Slot>) -> TokenView {
    TokenView {
        id: str_or(str_in(f, "id"@), Seq::empty()),
        label: str_in(f, "label"@),
        group: str_in(f, "group"@),
        text: str_or(str_in(f, "text"@), Seq::empty()),
        meta: object_or_empty(str_in(f, "meta"@)),
        glyph: str_or(str_in(f, "char"@), "□"@),
        kind: str_or(str_in(f, "kind"@), "default"@),
        index: int_or(int_in(f, "index"@), 0) as i32,
        rev: bool_in(f, "_rev"@),
        tags: list_in(f, "_tags"@),
        attachments: items_in(f, "_attachments"@),
        attached_to: str_in(f, "_attachedTo"@),
        attachment_type: str_in(f, "_attachmentType"@),
        merged: bool_in(f, "_merged"@),
        merged_into: str_in(f, "_mergedInto"@),
        merged_from: list_in(f, "_mergedFrom"@),
        merged_at: int_in(f, "_mergedAt"@),
        split: bool_in(f, "_split"@),
        split_into: list_in(f, "_splitInto"@),
        split_from: str_in(f, "_splitFrom"@),
        split_index: narrow(int_in(f, "_splitIndex"@)),
        split_at: int_in(f, "_splitAt"@),
    }
}

/// The tokens that a list with the items `items` shows: one for each item
/// that a lookup finds, the defaults for an item that is no map.
pub open spec fn tokens_read(objs: Objects, items: Seq<Option<Slot>>) -> Seq<TokenView>
    decreases items.len(),
{
    if items.len() == 0 {
        Seq::empty()
    } else {
        let rest = tokens_read(objs, items.drop_last());
        match items.last() {
            Some(slot) => rest.push(token_from(slot_fields(objs, slot))),
            None => rest,
        }
    }
}

/// The tokens in the list under `name`; none where nothing is there.
pub open spec fn tokens_in(objs: Objects, f: Map<Seq<char>, Slot>, name: Seq<char>) -> Seq<TokenView> {
    if f.contains_key(name) {
        tokens_read(objs, slot_items(objs, f[name]))
    } else {
        Seq::empty()
    }
}

/// The stack that a map with the fields `f` shows.
pub open spec fn stack_from(objs: Objects, f: Map<Seq<char>, Slot>) -> StackView {
    StackView {
        stack: tokens_in(objs, f, "stack"@),
        drawn: tokens_in(objs, f, "drawn"@),
        discards: tokens_in(objs, f, "discards"@),
    }
}

/// What a lookup found says about the object it names.
pub proof fn lemma_found(found: Found, objs: Objects, slot: Slot)
    requires
        found.shows(objs, slot),
    ensures
        fields_of(objs, obj_key(found.id)) == slot_fields(objs, slot),
        items_at(objs, obj_key(found.id)) == slot_items(objs, slot),
        keys_at(objs, obj_key(found.id)) == slot_keys(objs, slot),
        names_at(objs, obj_key(found.id)) == slot_names(objs, slot),
{
    match slot {
        Slot::Value(_) => {
            assert(keys_at(objs, obj_key(found.id)).to_set() =~= Set::empty());
        },
        Slot::Object(_) => {},
    }
}

/// The scalar under `key` of `obj`, if a scalar is there.
fn read_cell(doc: &automerge::Automerge, obj: &automerge::ObjId, key: &str) -> (r: Option<Cell>)
    ensures
        match r {
            Some(c) => scalar_in(fields_of(doc_objects(*doc), obj_key(*obj)), key@) == Some(c@),
            None => scalar_in(fields_of(doc_objects(*doc), obj_key(*obj)), key@) is None,
        },
{
    match doc_get(doc, obj, key) {
        Some(found) => match found.scalar {
            Some(v) => Some(scalar_cell(&v)),
            None => None,
        },
        None => None,
    }
}

/// The string under `key` of `obj`; `None` where there is none or
/// something else.
pub fn read_string(doc: &automerge::Automerge, obj: &automerge::ObjId, key: &str) -> (r: Result<Option<String>, HyperTokenError>)
    ensures
        r is Ok,
        r->Ok_0.deep_view() == str_in(fields_of(doc_objects(*doc), obj_key(*obj)), key@),
{
    match read_cell(doc, obj, key) {
        Some(Cell::Str(v)) => Ok(Some(v)),
        _ => Ok(None),
    }
}

/// The integer under `key` of `obj`, an unsigned one by its low 64 bits;
/// `None` where there is none or something else.
pub fn read_i64(doc: &automerge::Automerge, obj: &automerge::ObjId, key: &str) -> (r: Result<Option<i64>, HyperTokenError>)
    ensures
        r is Ok,
        r->Ok_0 == int_in(fields_of(doc_objects(*doc), obj_key(*obj)), key@),
{
    match read_cell(doc, obj, key) {
        Some(Cell::Int(v)) => Ok(Some(v)),
        Some(Cell::Uint(v)) => Ok(Some(#[verifier::truncate] (v as i64))),
        _ => Ok(None),
    }
}

/// The boolean under `key` of `obj`; `None` where there is none or
/// something else.
pub fn read_bool(doc: &automerge::Automerge, obj: &automerge::ObjId, key: &str) -> (r: Result<Option<bool>, HyperTokenError>)
    ensures
        r is Ok,
        r->Ok_0 == bool_in(fields_of(doc_objects(*doc), obj_key(*obj)), key@),
{
    match read_cell(doc, obj, key) {
        Some(Cell::Bool(v)) => Ok(Some(v)),
        _ => Ok(None),
    }
}

/// The list of strings in the text under `key` of `obj`.
fn read_string_list(doc: &automerge::Automerge, obj: &automerge::ObjId, key: &str) -> (r: Result<Option<Vec<String>>, HyperTokenError>)
    ensures
        r is Ok,
        r->Ok_0.deep_view() == list_in(fields_of(doc_objects(*doc), obj_key(*obj)), key@),
{
    match read_string(doc, obj, key)? {
        Some(json) => Ok(decode_strings(json.as_str())),
        None => Ok(None),
    }
}

/// The list of JSON values in the text under `key` of `obj`.
fn read_value_list(doc: &automerge::Automerge, obj: &automerge::ObjId, key: &str) -> (r: Result<Option<Vec<serde_json::Value>>, HyperTokenError>)
    ensures
        r is Ok,
        match r->Ok_0 {
            Some(v) => items_in(fields_of(doc_objects(*doc), obj_key(*obj)), key@) == Some(v@),
            None => items_in(fields_of(doc_objects(*doc), obj_key(*obj)), key@) is None,
        },
{
    match read_string(doc, obj, key)? {
        Some(json) => match decode_value(json.as_str()) {
            Some(v) => Ok(value_items(&v)),
            None => Ok(None),
        },
        None => Ok(None),
    }
}

/// The token with nothing in it: what an empty map shows.
pub fn blank_token() -> (r: IToken)
    ensures
        r@ == token_from(Map::empty()),
{
    IToken {
        id: String::new(),
        label: None,
        group: None,
        text: String::new(),
        meta: new_object(),
        char: "□".to_owned(),
        kind: "default".to_owned(),
        index: 0,
        _rev: None,
        _tags: None,
        _attachments: None,
        _attachedTo: None,
        _attachmentType: None,
        _merged: None,
        _mergedInto: None,
        _mergedFrom: None,
        _mergedAt: None,
        _split: None,
        _splitInto: None,
        _splitFrom: None,
        _splitIndex: None,
        _splitAt: None,
    }
}

fn string_or(s: Option<String>, default: &str) -> (r: String)
    ensures
        r@ == str_or(s.deep_view(), default@),
{
    match s {
        Some(v) => v,
        None => default.to_owned(),
    }
}

/// Reads a token from the map `obj`, field by field.
pub fn read_token(doc: &automerge::Automerge, obj: &automerge::ObjId) -> (r: Result<IToken, HyperTokenError>)
    ensures
        r is Ok,
        r->Ok_0@ == token_from(fields_of(doc_objects(*doc), obj_key(*obj))),
{
    let id = string_or(read_string(doc, obj, "id")?, "");
    let label = read_string(doc, obj, "label")?;
    let group = read_string(doc, obj, "group")?;
    let text = string_or(read_string(doc, obj, "text")?, "");
    let char = string_or(read_string(doc, obj, "char")?, "□");
    let kind = string_or(read_string(doc, obj, "kind")?, "default");
    let index = match read_i64(doc, obj, "index")? {
        Some(v) => #[verifier::truncate] (v as i32),
        None => 0,
    };

    let meta = match read_string(doc, obj, "meta")? {
        Some(meta_json) => match decode_object(meta_json.as_str()) {
            Some(m) => m,
            None => new_object(),
        },
        None => new_object(),
    };

    let _rev = read_bool(doc, obj, "_rev")?;
    let _tags = read_string_list(doc, obj, "_tags")?;
    let _attachments = read_value_list(doc, obj, "_attachments")?;
    let _attachedTo = read_string(doc, obj, "_attachedTo")?;
    let _attachmentType = read_string(doc, obj, "_attachmentType")?;

    let _merged = read_bool(doc, obj, "_merged")?;
    let _mergedInto = read_string(doc, obj, "_mergedInto")?;
    let _mergedFrom = read_string_list(doc, obj, "_mergedFrom")?;
    let _mergedAt = read_i64(doc, obj, "_mergedAt")?;
    let _split = read_bool(doc, obj, "_split")?;
    let _splitInto = read_string_list(doc, obj, "_splitInto")?;
    let _splitFrom = read_string(doc, obj, "_splitFrom")?;
    let _splitIndex = match read_i64(doc, obj, "_splitIndex")? {
        Some(v) => Some(#[verifier::truncate] (v as i32)),
        None => None,
    };
    let _splitAt = read_i64(doc, obj, "_splitAt")?;

    proof {
        reveal_strlit("");
        assert(""@ =~= Seq::<char>::empty());
    }
    Ok(
        IToken {
            id,
            label,
            group,
            text,
            meta,
            char,
            kind,
            index,
            _rev,
            _tags,
            _attachments,
            _attachedTo,
            _attachmentType,
            _merged,
            _mergedInto,
            _mergedFrom,
            _mergedAt,
            _split,
            _splitInto,
            _splitFrom,
            _splitIndex,
            _splitAt,
        },
    )
}

/// Reads the tokens of the list `list_id`, one for each index at which a
/// lookup finds something.
pub fn read_token_list(doc: &automerge::Automerge, list_id: &automerge::ObjId) -> (r: Result<Vec<IToken>, HyperTokenError>)
    ensures
        r is Ok,
        tokens_view(r->Ok_0@) == tokens_read(doc_objects(*doc), items_at(doc_objects(*doc), obj_key(*list_id))),
{
    let ghost objs = doc_objects(*doc);
    let ghost items = items_at(objs, obj_key(*list_id));
    let mut tokens: Vec<IToken> = Vec::new();
    let len = doc_length(doc, list_id);
    let mut i: usize = 0;
    proof {
        assert(tokens_view(tokens@) =~= Seq::empty());
        assert(items.take(0) =~= Seq::empty());
    }
    while i < len
        invariant
            0 <= i <= len,
            len == items.len(),
            objs == doc_objects(*doc),
            items == items_at(objs, obj_key(*list_id)),
            tokens_view(tokens@) == tokens_read(objs, items.take(i as int)),
        decreases len - i,
    {
        let ghost before = tokens@;
        match doc_get_at(doc, list_id, i) {
            Some(found) => {
                let token = read_token(doc, &found.id)?;
                proof {
                    lemma_found(found, objs, items[i as int]->0);
                }
                tokens.push(token);
                proof {
                    assert(tokens_view(tokens@) =~= tokens_view(before).push(token@));
                }
            },
            None => {},
        }
        proof {
            assert(items.take(i + 1).drop_last() =~= items.take(i as int));
            assert(items.take(i + 1).last() == items[i as int]);
        }
        i = i + 1;
    }
    proof {
        assert(items.take(len as int) =~= items);
    }
    Ok(tokens)
}

/// The tokens of the list under `key` of `obj`; none where nothing is there.
fn read_tokens_in(doc: &automerge::Automerge, obj: &automerge::ObjId, key: &str) -> (r: Result<Vec<IToken>, HyperTokenError>)
    ensures
        r is Ok,
        tokens_view(r->Ok_0@) == tokens_in(doc_objects(*doc), fields_of(doc_objects(*doc), obj_key(*obj)), key@),
{
    match doc_get(doc, obj, key) {
        Some(found) => {
            proof {
                let objs = doc_objects(*doc);
                lemma_found(found, objs, fields_of(objs, obj_key(*obj))[key@]);
            }
            read_token_list(doc, &found.id)
        },
        None => {
            let tokens: Vec<IToken> = Vec::new();
            proof {
                assert(tokens_view(tokens@) =~= Seq::empty());
            }
            Ok(tokens)
        },
    }
}

/// Reads the three piles of a stack from the map `obj`.
pub fn read_stack_state(doc: &automerge::Automerge, obj: &automerge::ObjId) -> (r: Result<IStackState, HyperTokenError>)
    ensures
        r is Ok,
        r->Ok_0@ == stack_from(doc_objects(*doc), fields_of(doc_objects(*doc), obj_key(*obj))),
{
    let stack = read_tokens_in(doc, obj, "stack")?;
    let drawn = read_tokens_in(doc, obj, "drawn")?;
    let discards = read_tokens_in(doc, obj, "discards")?;
    Ok(IStackState { stack, drawn, discards })
}

/// The list of strings in the text `t`; the empty one where `t` holds none.
pub open spec fn list_or_empty(t: Option<Seq<char>>) -> Seq<Seq<char>> {
    match t {
        Some(s) => match text_strings(s) {
            Some(l) => l,
            None => Seq::empty(),
        },
        None => Seq::empty(),
    }
}

/// The placement that a map with the fields `f` shows.
pub open spec fn placement_from(objs: Objects, f: Map<Seq<char>, Slot>) -> PlacementView {
    PlacementView {
        id: str_or(str_in(f, "id"@), Seq::empty()),
        token_id: str_or(str_in(f, "tokenId"@), Seq::empty()),
        token: if f.contains_key("tokenSnapshot"@) {
            token_from(slot_fields(objs, f["tokenSnapshot"@]))
        } else {
            token_from(Map::empty())
        },
        x: number_in(f, "x"@),
        y: number_in(f, "y"@),
        face_up: bool_or(bool_in(f, "faceUp"@), true),
        label: str_in(f, "label"@),
        ts: int_or(int_in(f, "ts"@), 0),
        reversed: bool_or(bool_in(f, "reversed"@), false),
        tags: list_or_empty(str_in(f, "tags"@)),
    }
}

/// The placements that a list with the items `items` shows.
pub open spec fn placements_read(objs: Objects, items: Seq<Option<Slot>>) -> Seq<PlacementView>
    decreases items.len(),
{
    if items.len() == 0 {
        Seq::empty()
    } else {
        let rest = placements_read(objs, items.drop_last());
        match items.last() {
            Some(slot) => rest.push(placement_from(objs, slot_fields(objs, slot))),
            None => rest,
        }
    }
}

/// One entry for each of `keys` under which a lookup in `f` finds
/// something: the name and the placements of the list found.
pub open spec fn zone_entries(objs: Objects, f: Map<Seq<char>, Slot>, keys: Seq<Seq<char>>) -> Seq<(Seq<char>, Seq<PlacementView>)>
    decreases keys.len(),
{
    if keys.len() == 0 {
        Seq::empty()
    } else {
        let rest = zone_entries(objs, f, keys.drop_last());
        let name = keys.last();
        if f.contains_key(name) {
            rest.push((name, placements_read(objs, slot_items(objs, f[name]))))
        } else {
            rest
        }
    }
}

/// The zones that a map with the fields `f` and the names `names` shows:
/// for each name under which a lookup finds something, the placements of
/// the list found.
pub open spec fn zones_from(objs: Objects, f: Map<Seq<char>, Slot>, names: Set<Seq<char>>) -> Map<Seq<char>, Seq<PlacementView>> {
    Map::new(
        |n: Seq<char>| names.contains(n) && f.contains_key(n),
        |n: Seq<char>| placements_read(objs, slot_items(objs, f[n])),
    )
}

/// The names in a list of keys are those in all but the last, and the last.
pub proof fn lemma_last_key(keys: Seq<Seq<char>>)
    requires
        keys.len() > 0,
    ensures
        keys.to_set() == keys.drop_last().to_set().insert(keys.last()),
{
    let front = keys.drop_last();
    let name = keys.last();
    assert forall|n: Seq<char>| keys.to_set().contains(n) <==> front.to_set().insert(name).contains(n) by {
        if keys.contains(n) {
            let i = choose|i: int| 0 <= i < keys.len() && keys[i] == n;
            if i < front.len() {
                assert(front[i] == n);
            }
        }
        if front.contains(n) {
            let i = choose|i: int| 0 <= i < front.len() && front[i] == n;
            assert(keys[i] == n);
        }
        assert(keys[keys.len() - 1] == name);
    }
    assert(keys.to_set() =~= front.to_set().insert(name));
}

/// The entries read in the order of the keys make the map of the zones.
pub proof fn lemma_zone_entries(objs: Objects, f: Map<Seq<char>, Slot>, keys: Seq<Seq<char>>)
    ensures
        entries_map(zone_entries(objs, f, keys)) == zones_from(objs, f, keys.to_set()),
    decreases keys.len(),
{
    if keys.len() == 0 {
        assert(keys.to_set() =~= Set::empty());
        assert(entries_map(zone_entries(objs, f, keys)) =~= zones_from(objs, f, keys.to_set()));
    } else {
        let front = keys.drop_last();
        let name = keys.last();
        lemma_zone_entries(objs, f, front);
        lemma_last_key(keys);
        if f.contains_key(name) {
            lemma_entries_push(
                zone_entries(objs, f, front),
                (name, placements_read(objs, slot_items(objs, f[name]))),
            );
        }
        assert(entries_map(zone_entries(objs, f, keys)) =~= zones_from(objs, f, keys.to_set()));
    }
}

/// The number, float or integer, under `key` of `obj`, as the scalar it is.
pub fn read_number(doc: &automerge::Automerge, obj: &automerge::ObjId, key: &str) -> (r: Result<Option<automerge::ScalarValue>, HyperTokenError>)
    ensures
        r is Ok,
        crate::types::scalar_view(r->Ok_0) == number_in(fields_of(doc_objects(*doc), obj_key(*obj)), key@),
{
    match doc_get(doc, obj, key) {
        Some(found) => match found.scalar {
            Some(v) => match scalar_cell(&v) {
                Cell::Real(_) => Ok(Some(v)),
                Cell::Int(_) => Ok(Some(v)),
                Cell::Uint(_) => Ok(Some(v)),
                _ => Ok(None),
            },
            None => Ok(None),
        },
        None => Ok(None),
    }
}

/// Reads a placement from the map `obj`; the copy of its token from the
/// map under `tokenSnapshot`.
pub fn read_placement(doc: &automerge::Automerge, obj: &automerge::ObjId) -> (r: Result<IPlacementCRDT, HyperTokenError>)
    ensures
        r is Ok,
        r->Ok_0@ == placement_from(doc_objects(*doc), fields_of(doc_objects(*doc), obj_key(*obj))),
{
    let ghost objs = doc_objects(*doc);
    let ghost f = fields_of(objs, obj_key(*obj));
    let id = string_or(read_string(doc, obj, "id")?, "");
    let tokenId = string_or(read_string(doc, obj, "tokenId")?, "");

    let tokenSnapshot = match doc_get(doc, obj, "tokenSnapshot") {
        Some(found) => {
            proof {
                lemma_found(found, objs, f["tokenSnapshot"@]);
            }
            read_token(doc, &found.id)?
        },
        None => blank_token(),
    };

    let x = read_number(doc, obj, "x")?;
    let y = read_number(doc, obj, "y")?;
    let faceUp = match read_bool(doc, obj, "faceUp")? {
        Some(v) => v,
        None => true,
    };
    let label = read_string(doc, obj, "label")?;
    let ts = match read_i64(doc, obj, "ts")? {
        Some(v) => v,
        None => 0,
    };
    let reversed = match read_bool(doc, obj, "reversed")? {
        Some(v) => v,
        None => false,
    };

    let tags = match read_string_list(doc, obj, "tags")? {
        Some(l) => l,
        None => Vec::new(),
    };

    proof {
        reveal_strlit("");
        assert(""@ =~= Seq::<char>::empty());
        assert(tags.deep_view() =~= list_or_empty(str_in(f, "tags"@)));
    }
    Ok(IPlacementCRDT { id, tokenId, tokenSnapshot, x, y, faceUp, label, ts, reversed, tags })
}

/// Reads the placements of the list `list_id`.
pub fn read_placement_list(doc: &automerge::Automerge, list_id: &automerge::ObjId) -> (r: Result<Vec<IPlacementCRDT>, HyperTokenError>)
    ensures
        r is Ok,
        placements_view(r->Ok_0@) == placements_read(
            doc_objects(*doc),
            items_at(doc_objects(*doc), obj_key(*list_id)),
        ),
{
    let ghost objs = doc_objects(*doc);
    let ghost items = items_at(objs, obj_key(*list_id));
    let mut placements: Vec<IPlacementCRDT> = Vec::new();
    let len = doc_length(doc, list_id);
    let mut i: usize = 0;
    proof {
        assert(placements_view(placements@) =~= Seq::empty());
        assert(items.take(0) =~= Seq::empty());
    }
    while i < len
        invariant
            0 <= i <= len,
            len == items.len(),
            objs == doc_objects(*doc),
            items == items_at(objs, obj_key(*list_id)),
            placements_view(placements@) == placements_read(objs, items.take(i as int)),
        decreases len - i,
    {
        let ghost before = placements@;
        match doc_get_at(doc, list_id, i) {
            Some(found) => {
                let p = read_placement(doc, &found.id)?;
                proof {
                    lemma_found(found, objs, items[i as int]->0);
                }
                placements.push(p);
                proof {
                    assert(placements_view(placements@) =~= placements_view(before).push(p@));
                }
            },
            None => {},
        }
        proof {
            assert(items.take(i + 1).drop_last() =~= items.take(i as int));
            assert(items.take(i + 1).last() == items[i as int]);
        }
        i = i + 1;
    }
    proof {
        assert(items.take(len as int) =~= items);
    }
    Ok(placements)
}

/// Reads the zones from the map `obj`: for each of its keys, the
/// placements of the list under it.
pub fn read_zones(doc: &automerge::Automerge, obj: &automerge::ObjId) -> (r: Result<Vec<(String, Vec<IPlacementCRDT>)>, HyperTokenError>)
    ensures
        r is Ok,
        zones_view(r->Ok_0@) == zone_entries(
            doc_objects(*doc),
            fields_of(doc_objects(*doc), obj_key(*obj)),
            keys_at(doc_objects(*doc), obj_key(*obj)),
        ),
        entries_map(zones_view(r->Ok_0@)) == zones_from(
            doc_objects(*doc),
            fields_of(doc_objects(*doc), obj_key(*obj)),
            names_at(doc_objects(*doc), obj_key(*obj)),
        ),
{
    let ghost objs = doc_objects(*doc);
    let ghost f = fields_of(objs, obj_key(*obj));
    let ghost all = keys_at(objs, obj_key(*obj));
    let mut zones: Vec<(String, Vec<IPlacementCRDT>)> = Vec::new();
    let keys = doc_keys(doc, obj);
    let n = keys.len();
    let mut i: usize = 0;
    proof {
        assert(zones_view(zones@) =~= Seq::empty());
        assert(all.take(0) =~= Seq::empty());
    }
    while i < n
        invariant
            0 <= i <= n,
            n == keys.len(),
            keys.deep_view() == all,
            objs == doc_objects(*doc),
            f == fields_of(objs, obj_key(*obj)),
            zones_view(zones@) == zone_entries(objs, f, all.take(i as int)),
        decreases n - i,
    {
        let ghost before = zones@;
        proof {
            assert(keys.deep_view()[i as int] == keys[i as int]@);
        }
        match doc_get(doc, obj, keys[i].as_str()) {
            Some(found) => {
                proof {
                    lemma_found(found, objs, f[keys[i as int]@]);
                }
                let placements = read_placement_list(doc, &found.id)?;
                let entry = (keys[i].clone(), placements);
                zones.push(entry);
                proof {
                    assert(zones_view(zones@) =~= zones_view(before).push(
                        (keys[i as int]@, placements_view(placements@)),
                    ));
                }
            },
            None => {},
        }
        proof {
            assert(all.take(i + 1).drop_last() =~= all.take(i as int));
            assert(all.take(i + 1).last() == all[i as int]);
        }
        i = i + 1;
    }
    proof {
        assert(all.take(n as int) =~= all);
        lemma_zone_entries(objs, f, all);
    }
    Ok(zones)
}

/// The strings among `items`, in order; an item that is no string is skipped.
pub open spec fn strings_read(items: Seq<Option<Slot>>) -> Seq<Seq<char>>
    decreases items.len(),
{
    if items.len() == 0 {
        Seq::empty()
    } else {
        let rest = strings_read(items.drop_last());
        match items.last() {
            Some(Slot::Value(Scalar::Str(s))) => rest.push(s),
            _ => rest,
        }
    }
}

/// The policy that a map with the fields `f` shows.
pub open spec fn policy_from(f: Map<Seq<char>, Slot>) -> PolicyView {
    PolicyView { threshold: narrow(int_in(f, "threshold"@)), mode: str_or(str_in(f, "mode"@), "auto"@) }
}

/// The source that a map with the fields `f` shows.
pub open spec fn source_from(objs: Objects, f: Map<Seq<char>, Slot>) -> SourceView {
    SourceView {
        stack_ids: if f.contains_key("stackIds"@) {
            strings_read(slot_items(objs, f["stackIds"@]))
        } else {
            Seq::empty()
        },
        tokens: tokens_in(objs, f, "tokens"@),
        burned: tokens_in(objs, f, "burned"@),
        seed: narrow(int_in(f, "seed"@)),
        policy: if f.contains_key("reshufflePolicy"@) {
            policy_from(slot_fields(objs, f["reshufflePolicy"@]))
        } else {
            default_policy()
        },
    }
}

/// The string at `index` of `list`; `None` where something else is
/// there, or the list is shorter.
pub fn read_list_string(doc: &automerge::Automerge, list: &automerge::ObjId, index: usize) -> (r: Result<Option<String>, HyperTokenError>)
    ensures
        r is Ok,
        r->Ok_0.deep_view() == if index < items_at(doc_objects(*doc), obj_key(*list)).len() {
            match items_at(doc_objects(*doc), obj_key(*list))[index as int] {
                Some(Slot::Value(Scalar::Str(s))) => Some(s),
                _ => None,
            }
        } else {
            None
        },
{
    if index >= doc_length(doc, list) {
        return Ok(None);
    }
    match doc_get_at(doc, list, index) {
        Some(found) => match found.scalar {
            Some(v) => match scalar_cell(&v) {
                Cell::Str(s) => Ok(Some(s)),
                _ => Ok(None),
            },
            None => Ok(None),
        },
        None => Ok(None),
    }
}

/// Reads a source from the map `obj`.
pub fn read_source_state(doc: &automerge::Automerge, obj: &automerge::ObjId) -> (r: Result<ISourceState, HyperTokenError>)
    ensures
        r is Ok,
        r->Ok_0@ == source_from(doc_objects(*doc), fields_of(doc_objects(*doc), obj_key(*obj))),
{
    let ghost objs = doc_objects(*doc);
    let ghost f = fields_of(objs, obj_key(*obj));
    let mut source = ISourceState::default();

    match doc_get(doc, obj, "stackIds") {
        Some(found) => {
            let ghost items = items_at(objs, obj_key(found.id));
            proof {
                lemma_found(found, objs, f["stackIds"@]);
                assert(items.take(0) =~= Seq::empty());
            }
            let len = doc_length(doc, &found.id);
            let mut ids: Vec<String> = Vec::new();
            let mut i: usize = 0;
            while i < len
                invariant
                    0 <= i <= len,
                    len == items.len(),
                    objs == doc_objects(*doc),
                    items == items_at(objs, obj_key(found.id)),
                    ids.deep_view() == strings_read(items.take(i as int)),
                decreases len - i,
            {
                let ghost before = ids.deep_view();
                match read_list_string(doc, &found.id, i)? {
                    Some(id) => {
                        ids.push(id);
                        proof {
                            assert(ids.deep_view() =~= before.push(id@));
                        }
                    },
                    None => {
                        proof {
                            assert(ids.deep_view() =~= before);
                        }
                    },
                }
                proof {
                    assert(items.take(i + 1).drop_last() =~= items.take(i as int));
                    assert(items.take(i + 1).last() == items[i as int]);
                }
                i = i + 1;
            }
            proof {
                assert(items.take(len as int) =~= items);
            }
            source.stackIds = ids;
        },
        None => {},
    }

    source.tokens = read_tokens_in(doc, obj, "tokens")?;
    source.burned = read_tokens_in(doc, obj, "burned")?;

    source.seed = match read_i64(doc, obj, "seed")? {
        Some(v) => Some(#[verifier::truncate] (v as i32)),
        None => None,
    };

    match doc_get(doc, obj, "reshufflePolicy") {
        Some(found) => {
            proof {
                lemma_found(found, objs, f["reshufflePolicy"@]);
            }
            let threshold = match read_i64(doc, &found.id, "threshold")? {
                Some(v) => Some(#[verifier::truncate] (v as i32)),
                None => None,
            };
            let mode = string_or(read_string(doc, &found.id, "mode")?, "auto");
            source.reshufflePolicy = ReshufflePolicy { threshold, mode };
        },
        None => {},
    }

    Ok(source)
}

/// The game loop that a map with the fields `f` shows.
pub open spec fn game_loop_from(f: Map<Seq<char>, Slot>) -> GameLoopView {
    GameLoopView {
        turn: int_or(int_in(f, "turn"@), 0) as i32,
        running: bool_or(bool_in(f, "running"@), false),
        active_agent: int_or(int_in(f, "activeAgentIndex"@), 0) as i32,
        phase: str_or(str_in(f, "phase"@), Seq::empty()),
        max_turns: int_or(int_in(f, "maxTurns"@), 0) as i32,
    }
}

/// Reads a game loop from the map `obj`.
pub fn read_game_loop_state(doc: &automerge::Automerge, obj: &automerge::ObjId) -> (r: Result<IGameLoopState, HyperTokenError>)
    ensures
        r is Ok,
        r->Ok_0@ == game_loop_from(fields_of(doc_objects(*doc), obj_key(*obj))),
{
    let turn = match read_i64(doc, obj, "turn")? {
        Some(v) => #[verifier::truncate] (v as i32),
        None => 0,
    };
    let running = match read_bool(doc, obj, "running")? {
        Some(v) => v,
        None => false,
    };
    let activeAgentIndex = match read_i64(doc, obj, "activeAgentIndex")? {
        Some(v) => #[verifier::truncate] (v as i32),
        None => 0,
    };
    let phase = string_or(read_string(doc, obj, "phase")?, "");
    let maxTurns = match read_i64(doc, obj, "maxTurns")? {
        Some(v) => #[verifier::truncate] (v as i32),
        None => 0,
    };
    proof {
        reveal_strlit("");
        assert(""@ =~= Seq::<char>::empty());
    }
    Ok(IGameLoopState { turn, running, activeAgentIndex, phase, maxTurns })
}

/// One entry for each of `keys` that holds an integer in `f`.
pub open spec fn stamp_entries(f: Map<Seq<char>, Slot>, keys: Seq<Seq<char>>) -> Seq<(Seq<char>, i64)>
    decreases keys.len(),
{
    if keys.len() == 0 {
        Seq::empty()
    } else {
        let rest = stamp_entries(f, keys.drop_last());
        match int_in(f, keys.last()) {
            Some(ts) => rest.push((keys.last(), ts)),
            None => rest,
        }
    }
}

/// The timestamps that a map with the fields `f` and the names `names`
/// shows: one for each name that holds an integer.
pub open spec fn stamps_from(f: Map<Seq<char>, Slot>, names: Set<Seq<char>>) -> Map<Seq<char>, i64> {
    Map::new(|n: Seq<char>| names.contains(n) && int_in(f, n) is Some, |n: Seq<char>| int_in(f, n)->0)
}

/// The entries read in the order of the keys make the map of the timestamps.
pub proof fn lemma_stamp_entries(f: Map<Seq<char>, Slot>, keys: Seq<Seq<char>>)
    ensures
        entries_map(stamp_entries(f, keys)) == stamps_from(f, keys.to_set()),
    decreases keys.len(),
{
    if keys.len() == 0 {
        assert(keys.to_set() =~= Set::empty());
        assert(entries_map(stamp_entries(f, keys)) =~= stamps_from(f, keys.to_set()));
    } else {
        let front = keys.drop_last();
        let name = keys.last();
        lemma_stamp_entries(f, front);
        lemma_last_key(keys);
        match int_in(f, name) {
            Some(ts) => {
                lemma_entries_push(stamp_entries(f, front), (name, ts));
            },
            None => {},
        }
        assert(entries_map(stamp_entries(f, keys)) =~= stamps_from(f, keys.to_set()));
    }
}

/// Reads a map from names to timestamps from `obj`: one entry for each key
/// that holds an integer.
pub fn read_nullifiers(doc: &automerge::Automerge, obj: &automerge::ObjId) -> (r: Result<Vec<(String, i64)>, HyperTokenError>)
    ensures
        r is Ok,
        stamps_view(r->Ok_0@) == stamp_entries(
            fields_of(doc_objects(*doc), obj_key(*obj)),
            keys_at(doc_objects(*doc), obj_key(*obj)),
        ),
        entries_map(stamps_view(r->Ok_0@)) == stamps_from(
            fields_of(doc_objects(*doc), obj_key(*obj)),
            names_at(doc_objects(*doc), obj_key(*obj)),
        ),
{
    let ghost objs = doc_objects(*doc);
    let ghost f = fields_of(objs, obj_key(*obj));
    let ghost all = keys_at(objs, obj_key(*obj));
    let mut stamps: Vec<(String, i64)> = Vec::new();
    let keys = doc_keys(doc, obj);
    let n = keys.len();
    let mut i: usize = 0;
    proof {
        assert(stamps_view(stamps@) =~= Seq::empty());
        assert(all.take(0) =~= Seq::empty());
    }
    while i < n
        invariant
            0 <= i <= n,
            n == keys.len(),
            keys.deep_view() == all,
            objs == doc_objects(*doc),
            f == fields_of(objs, obj_key(*obj)),
            stamps_view(stamps@) == stamp_entries(f, all.take(i as int)),
        decreases n - i,
    {
        let ghost before = stamps@;
        proof {
            assert(keys.deep_view()[i as int] == keys[i as int]@);
        }
        match read_i64(doc, obj, keys[i].as_str())? {
            Some(ts) => {
                stamps.push((keys[i].clone(), ts));
                proof {
                    assert(stamps_view(stamps@) =~= stamps_view(before).push((keys[i as int]@, ts)));
                }
            },
            None => {},
        }
        proof {
            assert(all.take(i + 1).drop_last() =~= all.take(i as int));
            assert(all.take(i + 1).last() == all[i as int]);
        }
        i = i + 1;
    }
    proof {
        assert(all.take(n as int) =~= all);
        lemma_stamp_entries(f, all);
    }
    Ok(stamps)
}

/// The rule state that a map with the fields `f` shows.
pub open spec fn rules_from(objs: Objects, f: Map<Seq<char>, Slot>) -> RuleView {
    RuleView {
        fired: if f.contains_key("fired"@) {
            stamps_from(slot_fields(objs, f["fired"@]), slot_names(objs, f["fired"@]))
        } else {
            Map::empty()
        },
    }
}

/// Reads the rule state from the map `obj`.
pub fn read_rule_state(doc: &automerge::Automerge, obj: &automerge::ObjId) -> (r: Result<IRuleState, HyperTokenError>)
    ensures
        r is Ok,
        r->Ok_0@ == rules_from(doc_objects(*doc), fields_of(doc_objects(*doc), obj_key(*obj))),
{
    let mut rules = IRuleState::default();
    match doc_get(doc, obj, "fired") {
        Some(found) => {
            proof {
                let objs = doc_objects(*doc);
                lemma_found(found, objs, fields_of(objs, obj_key(*obj))["fired"@]);
            }
            rules.fired = read_nullifiers(doc, &found.id)?;
        },
        None => {},
    }
    Ok(rules)
}

/// One entry for each of `keys` that holds, in `f`, a string that is the
/// text of a JSON value.
pub open spec fn agent_entries(f: Map<Seq<char>, Slot>, keys: Seq<Seq<char>>) -> Seq<(Seq<char>, serde_json::Value)>
    decreases keys.len(),
{
    if keys.len() == 0 {
        Seq::empty()
    } else {
        let rest = agent_entries(f, keys.drop_last());
        match str_in(f, keys.last()) {
            Some(t) => match text_value(t) {
                Some(v) => rest.push((keys.last(), v)),
                None => rest,
            },
            None => rest,
        }
    }
}

/// The text under `n` of `f`, where it is the text of a JSON value.
pub open spec fn agent_in(f: Map<Seq<char>, Slot>, n: Seq<char>) -> Option<serde_json::Value> {
    match str_in(f, n) {
        Some(t) => text_value(t),
        None => None,
    }
}

/// The agents that a map with the fields `f` and the names `names` shows:
/// one for each name that holds the text of a JSON value.
pub open spec fn agents_from(f: Map<Seq<char>, Slot>, names: Set<Seq<char>>) -> Map<Seq<char>, serde_json::Value> {
    Map::new(|n: Seq<char>| names.contains(n) && agent_in(f, n) is Some, |n: Seq<char>| agent_in(f, n)->0)
}

/// The entries read in the order of the keys make the map of the agents.
pub proof fn lemma_agent_entries(f: Map<Seq<char>, Slot>, keys: Seq<Seq<char>>)
    ensures
        entries_map(agent_entries(f, keys)) == agents_from(f, keys.to_set()),
    decreases keys.len(),
{
    if keys.len() == 0 {
        assert(keys.to_set() =~= Set::empty());
        assert(entries_map(agent_entries(f, keys)) =~= agents_from(f, keys.to_set()));
    } else {
        let front = keys.drop_last();
        let name = keys.last();
        lemma_agent_entries(f, front);
        lemma_last_key(keys);
        match agent_in(f, name) {
            Some(v) => {
                lemma_entries_push(agent_entries(f, front), (name, v));
            },
            None => {},
        }
        assert(entries_map(agent_entries(f, keys)) =~= agents_from(f, keys.to_set()));
    }
}

/// Reads the agents from the map `obj`: one entry for each key that holds
/// the text of a JSON value.
pub fn read_agents(doc: &automerge::Automerge, obj: &automerge::ObjId) -> (r: Result<Vec<(String, serde_json::Value)>, HyperTokenError>)
    ensures
        r is Ok,
        values_view(r->Ok_0@) == agent_entries(
            fields_of(doc_objects(*doc), obj_key(*obj)),
            keys_at(doc_objects(*doc), obj_key(*obj)),
        ),
        entries_map(values_view(r->Ok_0@)) == agents_from(
            fields_of(doc_objects(*doc), obj_key(*obj)),
            names_at(doc_objects(*doc), obj_key(*obj)),
        ),
{
    let ghost objs = doc_objects(*doc);
    let ghost f = fields_of(objs, obj_key(*obj));
    let ghost all = keys_at(objs, obj_key(*obj));
    let mut agents: Vec<(String, serde_json::Value)> = Vec::new();
    let keys = doc_keys(doc, obj);
    let n = keys.len();
    let mut i: usize = 0;
    proof {
        assert(values_view(agents@) =~= Seq::empty());
        assert(all.take(0) =~= Seq::empty());
    }
    while i < n
        invariant
            0 <= i <= n,
            n == keys.len(),
            keys.deep_view() == all,
            objs == doc_objects(*doc),
            f == fields_of(objs, obj_key(*obj)),
            values_view(agents@) == agent_entries(f, all.take(i as int)),
        decreases n - i,
    {
        let ghost before = agents@;
        proof {
            assert(keys.deep_view()[i as int] == keys[i as int]@);
        }
        match read_string(doc, obj, keys[i].as_str())? {
            Some(json_str) => match decode_value(json_str.as_str()) {
                Some(value) => {
                    agents.push((keys[i].clone(), value));
                    proof {
                        assert(values_view(agents@) =~= values_view(before).push((keys[i as int]@, value)));
                    }
                },
                None => {},
            },
            None => {},
        }
        proof {
            assert(all.take(i + 1).drop_last() =~= all.take(i as int));
            assert(all.take(i + 1).last() == all[i as int]);
        }
        i = i + 1;
    }
    proof {
        assert(all.take(n as int) =~= all);
        lemma_agent_entries(f, all);
    }
    Ok(agents)
}

/// The value in the text `t`: the JSON value that it is the text of, or
/// else the text itself as a JSON string.
pub open spec fn value_or_string(t: Seq<char>) -> serde_json::Value {
    match text_value(t) {
        Some(v) => v,
        None => string_value(t),
    }
}

/// One entry for each of `keys` that is no known name and holds a string in `f`.
pub open spec fn extra_entries(f: Map<Seq<char>, Slot>, keys: Seq<Seq<char>>) -> Seq<(Seq<char>, serde_json::Value)>
    decreases keys.len(),
{
    if keys.len() == 0 {
        Seq::empty()
    } else {
        let rest = extra_entries(f, keys.drop_last());
        let name = keys.last();
        if known_names().contains(name) {
            rest
        } else {
            match str_in(f, name) {
                Some(t) => rest.push((name, value_or_string(t))),
                None => rest,
            }
        }
    }
}

/// The unknown fields that a root with the fields `f` and the names
/// `names` shows: one for each name that is not known and holds a string.
pub open spec fn extras_from(f: Map<Seq<char>, Slot>, names: Set<Seq<char>>) -> Map<Seq<char>, serde_json::Value> {
    Map::new(
        |n: Seq<char>| names.contains(n) && !known_names().contains(n) && str_in(f, n) is Some,
        |n: Seq<char>| value_or_string(str_in(f, n)->0),
    )
}

/// The entries read in the order of the keys make the map of the unknown fields.
pub proof fn lemma_extra_entries(f: Map<Seq<char>, Slot>, keys: Seq<Seq<char>>)
    ensures
        entries_map(extra_entries(f, keys)) == extras_from(f, keys.to_set()),
    decreases keys.len(),
{
    if keys.len() == 0 {
        assert(keys.to_set() =~= Set::empty());
        assert(entries_map(extra_entries(f, keys)) =~= extras_from(f, keys.to_set()));
    } else {
        let front = keys.drop_last();
        let name = keys.last();
        lemma_extra_entries(f, front);
        lemma_last_key(keys);
        if !known_names().contains(name) {
            match str_in(f, name) {
                Some(t) => {
                    lemma_entries_push(extra_entries(f, front), (name, value_or_string(t)));
                },
                None => {},
            }
        }
        assert(entries_map(extra_entries(f, keys)) =~= extras_from(f, keys.to_set()));
    }
}

/// The state that a document with the objects `objs` shows.
///
/// A known field is absent where the root has nothing under its name. The
/// version is absent too where something other than a string is there.
/// Every other root key that holds a string is an unknown field.
pub open spec fn state_read(objs: Objects) -> StateView {
    let f = fields_of(objs, root_key());
    StateView {
        zones: if f.contains_key("zones"@) {
            Some(zones_from(objs, slot_fields(objs, f["zones"@]), slot_names(objs, f["zones"@])))
        } else {
            None
        },
        stack: if f.contains_key("stack"@) {
            Some(stack_from(objs, slot_fields(objs, f["stack"@])))
        } else {
            None
        },
        source: if f.contains_key("source"@) {
            Some(source_from(objs, slot_fields(objs, f["source"@])))
        } else {
            None
        },
        game_loop: if f.contains_key("gameLoop"@) {
            Some(game_loop_from(slot_fields(objs, f["gameLoop"@])))
        } else {
            None
        },
        rules: if f.contains_key("rules"@) {
            Some(rules_from(objs, slot_fields(objs, f["rules"@])))
        } else {
            None
        },
        agents: if f.contains_key("agents"@) {
            Some(agents_from(slot_fields(objs, f["agents"@]), slot_names(objs, f["agents"@])))
        } else {
            None
        },
        version: str_in(f, "version"@),
        nullifiers: if f.contains_key("nullifiers"@) {
            Some(stamps_from(slot_fields(objs, f["nullifiers"@]), slot_names(objs, f["nullifiers"@])))
        } else {
            None
        },
        extra: extras_from(f, names_at(objs, root_key())),
    }
}

/// Whether `key` is the name of a field that this version knows.
pub fn is_known_key(key: &String) -> (r: bool)
    ensures
        r == known_names().contains(key@),
{
    let known = ["stack", "zones", "source", "gameLoop", "rules", "agents", "version", "nullifiers"];
    let mut i: usize = 0;
    while i < 8
        invariant
            0 <= i <= 8,
            known@ == seq!["stack", "zones", "source", "gameLoop", "rules", "agents", "version", "nullifiers"],
            forall|j: int| 0 <= j < i ==> known@[j]@ != key@,
        decreases 8 - i,
    {
        let name = known[i].to_owned();
        if *key == name {
            return true;
        }
        i = i + 1;
    }
    false
}

/// Reads the whole state from the root of the document.
pub fn read_state(doc: &automerge::Automerge) -> (r: Result<HyperTokenState, HyperTokenError>)
    ensures
        r is Ok,
        r->Ok_0@ == state_read(doc_objects(*doc)),
{
    let ghost objs = doc_objects(*doc);
    let ghost f = fields_of(objs, root_key());
    let top = root();
    let mut state = HyperTokenState::default();

    match doc_get(doc, &top, "stack") {
        Some(found) => {
            proof {
                lemma_found(found, objs, f["stack"@]);
            }
            state.stack = Some(read_stack_state(doc, &found.id)?);
        },
        None => {},
    }

    match doc_get(doc, &top, "zones") {
        Some(found) => {
            proof {
                lemma_found(found, objs, f["zones"@]);
            }
            state.zones = Some(read_zones(doc, &found.id)?);
        },
        None => {},
    }

    match doc_get(doc, &top, "source") {
        Some(found) => {
            proof {
                lemma_found(found, objs, f["source"@]);
            }
            state.source = Some(read_source_state(doc, &found.id)?);
        },
        None => {},
    }

    match doc_get(doc, &top, "gameLoop") {
        Some(found) => {
            proof {
                lemma_found(found, objs, f["gameLoop"@]);
            }
            state.gameLoop = Some(read_game_loop_state(doc, &found.id)?);
        },
        None => {},
    }

    match doc_get(doc, &top, "rules") {
        Some(found) => {
            proof {
                lemma_found(found, objs, f["rules"@]);
            }
            state.rules = Some(read_rule_state(doc, &found.id)?);
        },
        None => {},
    }

    match doc_get(doc, &top, "agents") {
        Some(found) => {
            proof {
                lemma_found(found, objs, f["agents"@]);
            }
            state.agents = Some(read_agents(doc, &found.id)?);
        },
        None => {},
    }

    state.version = read_string(doc, &top, "version")?;

    match doc_get(doc, &top, "nullifiers") {
        Some(found) => {
            proof {
                lemma_found(found, objs, f["nullifiers"@]);
            }
            state.nullifiers = Some(read_nullifiers(doc, &found.id)?);
        },
        None => {},
    }

    let ghost all = keys_at(objs, root_key());
    let keys = doc_keys(doc, &top);
    let n = keys.len();
    let mut extra: Vec<(String, serde_json::Value)> = Vec::new();
    let mut i: usize = 0;
    proof {
        assert(values_view(extra@) =~= Seq::empty());
        assert(all.take(0) =~= Seq::empty());
    }
    while i < n
        invariant
            0 <= i <= n,
            n == keys.len(),
            keys.deep_view() == all,
            objs == doc_objects(*doc),
            f == fields_of(objs, root_key()),
            obj_key(top) == root_key(),
            values_view(extra@) == extra_entries(f, all.take(i as int)),
        decreases n - i,
    {
        let ghost before = extra@;
        proof {
            assert(keys.deep_view()[i as int] == keys[i as int]@);
        }
        if !is_known_key(&keys[i]) {
            match read_string(doc, &top, keys[i].as_str())? {
                Some(json_str) => {
                    let value = match decode_value(json_str.as_str()) {
                        Some(v) => v,
                        None => value_of_string(json_str),
                    };
                    extra.push((keys[i].clone(), value));
                    proof {
                        assert(values_view(extra@) =~= values_view(before).push((keys[i as int]@, value)));
                    }
                },
                None => {},
            }
        }
        proof {
            assert(all.take(i + 1).drop_last() =~= all.take(i as int));
            assert(all.take(i + 1).last() == all[i as int]);
        }
        i = i + 1;
    }
    proof {
        assert(all.take(n as int) =~= all);
        lemma_extra_entries(f, all);
    }
    state.extra = extra;

    Ok(state)
}

} // verus!

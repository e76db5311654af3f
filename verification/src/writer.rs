//! The schema writer: how a typed state is laid out in a document.
//!
//! Each record is a map, each ordered collection a list that is written
//! anew, and each JSON part a single string. The `*_stored` predicates say
//! what a document holds once a value has been written; the functions
//! write it inside a transaction.

use vstd::prelude::*;
use crate::engine::{
    doc_changes, doc_objects, doc_pending, heads_of, is_list, is_map, obj_key, root, root_key, same_except, scalar_bool, scalar_int,
    scalar_str, tx_delete, tx_insert, tx_insert_map, tx_objects, tx_put, tx_put_list, tx_put_map, NodeKind, ObjKey,
    Objects, Scalar, Slot,
};
use crate::keys::lemma_keys;
use crate::json::{
    array_value, encode_object, encode_strings, encode_value, object_text, strings_text, value_of_items, value_text,
    JsonObject,
};
use crate::token::copy_values;
use crate::types::{
    GameLoopView, HyperTokenState, IGameLoopState, IPlacementCRDT, IRuleState, ISourceState, IStackState, IToken,
    PlacementView, PolicyView, RuleView, SourceView, StackView, StateView, TokenView, entries_map, lemma_entries_push,
    placements_view, scalar_view, stamps_view, tokens_view, values_view, zones_view,
};

verus! {

pub open spec fn str_slot(s: Seq<char>) -> Slot {
    Slot::Value(Scalar::Str(s))
}

pub open spec fn int_slot(v: int) -> Slot {
    Slot::Value(Scalar::Int(v as i64))
}

pub open spec fn bool_slot(b: bool) -> Slot {
    Slot::Value(Scalar::Bool(b))
}

pub open spec fn opt_str_slot(s: Option<Seq<char>>) -> Option<Slot> {
    match s {
        Some(v) => Some(str_slot(v)),
        None => None,
    }
}

pub open spec fn opt_bool_slot(b: Option<bool>) -> Option<Slot> {
    match b {
        Some(v) => Some(bool_slot(v)),
        None => None,
    }
}

pub open spec fn opt_i64_slot(i: Option<i64>) -> Option<Slot> {
    match i {
        Some(v) => Some(int_slot(v as int)),
        None => None,
    }
}

pub open spec fn opt_i32_slot(i: Option<i32>) -> Option<Slot> {
    match i {
        Some(v) => Some(int_slot(v as int)),
        None => None,
    }
}

/// The text under which a list of strings is stored.
pub open spec fn list_text(l: Seq<Seq<char>>) -> Seq<char> {
    match strings_text(l) {
        Some(t) => t,
        None => "[]"@,
    }
}

pub open spec fn opt_list_slot(l: Option<Seq<Seq<char>>>) -> Option<Slot> {
    match l {
        Some(v) => Some(str_slot(list_text(v))),
        None => None,
    }
}

/// The text under which a list of JSON values is stored.
pub open spec fn items_text(l: Seq<serde_json::Value>) -> Seq<char> {
    match value_text(array_value(l)) {
        Some(t) => t,
        None => "[]"@,
    }
}

pub open spec fn opt_items_slot(l: Option<Seq<serde_json::Value>>) -> Option<Slot> {
    match l {
        Some(v) => Some(str_slot(items_text(v))),
        None => None,
    }
}

/// The text under which a token's metadata is stored: one string, not a map.
pub open spec fn meta_text(m: JsonObject) -> Seq<char> {
    match object_text(m) {
        Some(t) => t,
        None => "{}"@,
    }
}

/// The text under which an agent's data is stored.
pub open spec fn agent_text(v: serde_json::Value) -> Seq<char> {
    match value_text(v) {
        Some(t) => t,
        None => "{}"@,
    }
}

/// The text under which an unknown top-level field is stored.
pub open spec fn extra_text(v: serde_json::Value) -> Seq<char> {
    match value_text(v) {
        Some(t) => t,
        None => Seq::empty(),
    }
}

/// `m` with `name` set where there is something to set.
pub open spec fn with_opt(m: Map<Seq<char>, Slot>, name: Seq<char>, slot: Option<Slot>) -> Map<Seq<char>, Slot> {
    match slot {
        Some(s) => m.insert(name, s),
        None => m,
    }
}

/// The fields of `base` after a token has been written over them.
pub open spec fn token_over(base: Map<Seq<char>, Slot>, t: TokenView) -> Map<Seq<char>, Slot> {
    let m = base.insert("id"@, str_slot(t.id));
    let m = with_opt(m, "label"@, opt_str_slot(t.label));
    let m = with_opt(m, "group"@, opt_str_slot(t.group));
    let m = m.insert("text"@, str_slot(t.text));
    let m = m.insert("char"@, str_slot(t.glyph));
    let m = m.insert("kind"@, str_slot(t.kind));
    let m = m.insert("index"@, int_slot(t.index as int));
    let m = m.insert("meta"@, str_slot(meta_text(t.meta)));
    let m = with_opt(m, "_rev"@, opt_bool_slot(t.rev));
    let m = with_opt(m, "_tags"@, opt_list_slot(t.tags));
    let m = with_opt(m, "_attachedTo"@, opt_str_slot(t.attached_to));
    let m = with_opt(m, "_attachmentType"@, opt_str_slot(t.attachment_type));
    let m = with_opt(m, "_merged"@, opt_bool_slot(t.merged));
    let m = with_opt(m, "_mergedInto"@, opt_str_slot(t.merged_into));
    let m = with_opt(m, "_mergedFrom"@, opt_list_slot(t.merged_from));
    let m = with_opt(m, "_mergedAt"@, opt_i64_slot(t.merged_at));
    let m = with_opt(m, "_split"@, opt_bool_slot(t.split));
    let m = with_opt(m, "_splitInto"@, opt_list_slot(t.split_into));
    let m = with_opt(m, "_splitFrom"@, opt_str_slot(t.split_from));
    let m = with_opt(m, "_splitIndex"@, opt_i32_slot(t.split_index));
    let m = with_opt(m, "_splitAt"@, opt_i64_slot(t.split_at));
    with_opt(m, "_attachments"@, opt_items_slot(t.attachments))
}

/// The fields of a map that holds a token and nothing else.
pub open spec fn token_fields(t: TokenView) -> Map<Seq<char>, Slot> {
    token_over(Map::empty(), t)
}

/// The map `k` holds the token `t` and nothing else.
pub open spec fn token_stored(objs: Objects, k: ObjKey, t: TokenView) -> bool {
    is_map(objs, k) && objs[k].fields == token_fields(t)
}

/// `post` is `pre` with the fields of the map `k` changed to `fields`.
pub open spec fn fields_changed(pre: Objects, post: Objects, k: ObjKey, fields: Map<Seq<char>, Slot>) -> bool {
    &&& same_except(pre, post, k)
    &&& post[k].kind == NodeKind::MapNode
    &&& post[k].fields == fields
}

/// Sets `key` of the map `obj` to `value` where there is one.
fn put_opt_str(tx: &mut automerge::transaction::Transaction, obj: &automerge::ObjId, key: &str, value: &Option<String>) -> (r: Result<(), automerge::AutomergeError>)
    requires
        is_map(tx_objects(*old(tx)), obj_key(*obj)),
    ensures
        r is Ok,
        fields_changed(
            tx_objects(*old(tx)),
            tx_objects(*final(tx)),
            obj_key(*obj),
            with_opt(tx_objects(*old(tx))[obj_key(*obj)].fields, key@, opt_str_slot(value.deep_view())),
        ),
{
    match value {
        Some(v) => tx_put(tx, obj, key, scalar_str(v.as_str())),
        None => Ok(()),
    }
}

/// Sets `key` of the map `obj` to `value` where there is one.
fn put_opt_bool(tx: &mut automerge::transaction::Transaction, obj: &automerge::ObjId, key: &str, value: Option<bool>) -> (r: Result<(), automerge::AutomergeError>)
    requires
        is_map(tx_objects(*old(tx)), obj_key(*obj)),
    ensures
        r is Ok,
        fields_changed(
            tx_objects(*old(tx)),
            tx_objects(*final(tx)),
            obj_key(*obj),
            with_opt(tx_objects(*old(tx))[obj_key(*obj)].fields, key@, opt_bool_slot(value)),
        ),
{
    match value {
        Some(v) => tx_put(tx, obj, key, scalar_bool(v)),
        None => Ok(()),
    }
}

/// Sets `key` of the map `obj` to `value` where there is one.
fn put_opt_int(tx: &mut automerge::transaction::Transaction, obj: &automerge::ObjId, key: &str, value: Option<i64>) -> (r: Result<(), automerge::AutomergeError>)
    requires
        is_map(tx_objects(*old(tx)), obj_key(*obj)),
    ensures
        r is Ok,
        fields_changed(
            tx_objects(*old(tx)),
            tx_objects(*final(tx)),
            obj_key(*obj),
            with_opt(tx_objects(*old(tx))[obj_key(*obj)].fields, key@, opt_i64_slot(value)),
        ),
{
    match value {
        Some(v) => tx_put(tx, obj, key, scalar_int(v)),
        None => Ok(()),
    }
}

/// The text of a list of strings, `[]` where it has none.
fn strings_json(l: &Vec<String>) -> (r: String)
    ensures
        r@ == list_text(l.deep_view()),
{
    match encode_strings(l) {
        Some(s) => s,
        None => "[]".to_owned(),
    }
}

/// Sets `key` of the map `obj` to the text of `value` where there is one.
fn put_opt_list(tx: &mut automerge::transaction::Transaction, obj: &automerge::ObjId, key: &str, value: &Option<Vec<String>>) -> (r: Result<(), automerge::AutomergeError>)
    requires
        is_map(tx_objects(*old(tx)), obj_key(*obj)),
    ensures
        r is Ok,
        fields_changed(
            tx_objects(*old(tx)),
            tx_objects(*final(tx)),
            obj_key(*obj),
            with_opt(tx_objects(*old(tx))[obj_key(*obj)].fields, key@, opt_list_slot(value.deep_view())),
        ),
{
    match value {
        Some(v) => {
            let json = strings_json(v);
            tx_put(tx, obj, key, scalar_str(json.as_str()))
        },
        None => Ok(()),
    }
}

/// The text of a list of JSON values, `[]` where it has none.
fn items_json(l: &Vec<serde_json::Value>) -> (r: String)
    ensures
        r@ == items_text(l@),
{
    let all = value_of_items(copy_values(l));
    match encode_value(&all) {
        Some(s) => s,
        None => "[]".to_owned(),
    }
}

/// Sets `key` of the map `obj` to the text of `value` where there is one.
fn put_opt_items(tx: &mut automerge::transaction::Transaction, obj: &automerge::ObjId, key: &str, value: &Option<Vec<serde_json::Value>>) -> (r: Result<(), automerge::AutomergeError>)
    requires
        is_map(tx_objects(*old(tx)), obj_key(*obj)),
    ensures
        r is Ok,
        fields_changed(
            tx_objects(*old(tx)),
            tx_objects(*final(tx)),
            obj_key(*obj),
            with_opt(
                tx_objects(*old(tx))[obj_key(*obj)].fields,
                key@,
                opt_items_slot(
                    match value {
                        Some(v) => Some(v@),
                        None => None,
                    },
                ),
            ),
        ),
{
    match value {
        Some(v) => {
            let json = items_json(v);
            tx_put(tx, obj, key, scalar_str(json.as_str()))
        },
        None => Ok(()),
    }
}

/// Writes a token into the map `obj`, field by field. The metadata, the
/// lists of strings and the attachments go in as one string each.
pub fn write_token_tx(tx: &mut automerge::transaction::Transaction, obj: &automerge::ObjId, token: &IToken) -> (r: Result<(), automerge::AutomergeError>)
    requires
        is_map(tx_objects(*old(tx)), obj_key(*obj)),
    ensures
        r is Ok,
        fields_changed(
            tx_objects(*old(tx)),
            tx_objects(*final(tx)),
            obj_key(*obj),
            token_over(tx_objects(*old(tx))[obj_key(*obj)].fields, token@),
        ),
{
    tx_put(tx, obj, "id", scalar_str(token.id.as_str()))?;
    put_opt_str(tx, obj, "label", &token.label)?;
    put_opt_str(tx, obj, "group", &token.group)?;
    tx_put(tx, obj, "text", scalar_str(token.text.as_str()))?;
    tx_put(tx, obj, "char", scalar_str(token.char.as_str()))?;
    tx_put(tx, obj, "kind", scalar_str(token.kind.as_str()))?;
    tx_put(tx, obj, "index", scalar_int(token.index as i64))?;

    let meta_json = match encode_object(&token.meta) {
        Some(s) => s,
        None => "{}".to_owned(),
    };
    tx_put(tx, obj, "meta", scalar_str(meta_json.as_str()))?;

    put_opt_bool(tx, obj, "_rev", token._rev)?;
    put_opt_list(tx, obj, "_tags", &token._tags)?;
    put_opt_str(tx, obj, "_attachedTo", &token._attachedTo)?;
    put_opt_str(tx, obj, "_attachmentType", &token._attachmentType)?;

    put_opt_bool(tx, obj, "_merged", token._merged)?;
    put_opt_str(tx, obj, "_mergedInto", &token._mergedInto)?;
    put_opt_list(tx, obj, "_mergedFrom", &token._mergedFrom)?;
    put_opt_int(tx, obj, "_mergedAt", token._mergedAt)?;
    put_opt_bool(tx, obj, "_split", token._split)?;
    put_opt_list(tx, obj, "_splitInto", &token._splitInto)?;
    put_opt_str(tx, obj, "_splitFrom", &token._splitFrom)?;
    let split_index: Option<i64> = match token._splitIndex {
        Some(i) => Some(i as i64),
        None => None,
    };
    put_opt_int(tx, obj, "_splitIndex", split_index)?;
    put_opt_int(tx, obj, "_splitAt", token._splitAt)?;
    put_opt_items(tx, obj, "_attachments", &token._attachments)?;

    Ok(())
}

/// `post` keeps every object of `pre`, each unchanged but for `k`.
pub open spec fn grown_except(pre: Objects, post: Objects, k: ObjKey) -> bool {
    &&& pre.dom().subset_of(post.dom())
    &&& forall|o: ObjKey| o != k && #[trigger] pre.contains_key(o) ==> post[o] == pre[o]
}

/// `item` is a map outside `base` that holds the token `t`.
pub open spec fn token_item(objs: Objects, item: Option<Slot>, t: TokenView, base: Set<ObjKey>) -> bool {
    match item {
        Some(Slot::Object(k)) => !base.contains(k) && token_stored(objs, k, t),
        _ => false,
    }
}

/// The list `l` holds the tokens `ts` in order, each in a map of its own
/// that is not among `base`.
pub open spec fn tokens_stored(objs: Objects, l: ObjKey, ts: Seq<TokenView>, base: Set<ObjKey>) -> bool {
    &&& is_list(objs, l)
    &&& objs[l].items.len() == ts.len()
    &&& forall|i: int| 0 <= i < ts.len() ==> token_item(objs, #[trigger] objs[l].items[i], ts[i], base)
}

/// A stored list of tokens stays stored while the list and the maps of its
/// tokens stay as they are.
pub proof fn lemma_tokens_kept(a: Objects, b: Objects, l: ObjKey, ts: Seq<TokenView>, base: Set<ObjKey>, k: ObjKey)
    requires
        tokens_stored(a, l, ts, base),
        grown_except(a, b, k),
        l != k,
        base.contains(k) || !a.contains_key(k),
    ensures
        tokens_stored(b, l, ts, base),
{
    assert(a.contains_key(l));
    assert forall|i: int| 0 <= i < ts.len() implies token_item(b, #[trigger] b[l].items[i], ts[i], base) by {
        assert(token_item(a, a[l].items[i], ts[i], base));
        match a[l].items[i] {
            Some(Slot::Object(t)) => {
                assert(a.contains_key(t));
            },
            _ => {},
        }
    }
}

/// What is stored outside a larger set is stored outside a smaller one.
pub proof fn lemma_tokens_base(objs: Objects, l: ObjKey, ts: Seq<TokenView>, base: Set<ObjKey>, smaller: Set<ObjKey>)
    requires
        tokens_stored(objs, l, ts, base),
        smaller.subset_of(base),
    ensures
        tokens_stored(objs, l, ts, smaller),
{
    assert forall|i: int| 0 <= i < ts.len() implies token_item(objs, #[trigger] objs[l].items[i], ts[i], smaller) by {
        assert(token_item(objs, objs[l].items[i], ts[i], base));
    }
}

/// Fills the empty list `list` with the tokens, each in a new map.
pub fn write_token_list_tx(tx: &mut automerge::transaction::Transaction, list: &automerge::ObjId, tokens: &Vec<IToken>) -> (r: Result<(), automerge::AutomergeError>)
    requires
        is_list(tx_objects(*old(tx)), obj_key(*list)),
        tx_objects(*old(tx))[obj_key(*list)].items.len() == 0,
    ensures
        r is Ok,
        grown_except(tx_objects(*old(tx)), tx_objects(*final(tx)), obj_key(*list)),
        tokens_stored(tx_objects(*final(tx)), obj_key(*list), tokens_view(tokens@), tx_objects(*old(tx)).dom()),
{
    let ghost pre = tx_objects(*tx);
    let ghost l = obj_key(*list);
    let n = tokens.len();
    let mut i: usize = 0;
    while i < n
        invariant
            0 <= i <= n,
            n == tokens.len(),
            l == obj_key(*list),
            pre.contains_key(l),
            grown_except(pre, tx_objects(*tx), l),
            tokens_stored(tx_objects(*tx), l, tokens_view(tokens@).take(i as int), pre.dom()),
        decreases n - i,
    {
        let ghost before = tx_objects(*tx);
        let token_obj = tx_insert_map(tx, list, i)?;
        let ghost mid = tx_objects(*tx);
        let ghost fresh = obj_key(token_obj);
        write_token_tx(tx, &token_obj, &tokens[i])?;
        proof {
            let after = tx_objects(*tx);
            let ts0 = tokens_view(tokens@).take(i as int);
            let ts1 = tokens_view(tokens@).take(i + 1);
            assert(ts1 =~= ts0.push(tokens[i as int]@));
            assert(before.contains_key(l));
            assert(mid.contains_key(l));
            assert(after[l] == mid[l]);
            assert(mid[l].items =~= before[l].items.push(Some(Slot::Object(fresh))));
            assert(after[fresh].fields == token_fields(tokens[i as int]@));
            assert forall|j: int| 0 <= j < ts1.len() implies token_item(
                after,
                #[trigger] after[l].items[j],
                ts1[j],
                pre.dom(),
            ) by {
                if j < i {
                    assert(token_item(before, before[l].items[j], ts0[j], pre.dom()));
                    match before[l].items[j] {
                        Some(Slot::Object(t)) => {
                            assert(before.contains_key(t));
                            assert(mid[t] == before[t]);
                            assert(mid.contains_key(t));
                            assert(after[t] == mid[t]);
                        },
                        _ => {},
                    }
                }
            }
            assert forall|o: ObjKey| o != l && #[trigger] pre.contains_key(o) implies after[o] == pre[o] by {
                assert(before.contains_key(o));
                assert(mid.contains_key(o));
            }
        }
        i = i + 1;
    }
    proof {
        assert(tokens_view(tokens@).take(n as int) =~= tokens_view(tokens@));
    }
    Ok(())
}

/// The key `name` of the map `k` holds a list outside `base` that holds `ts`.
pub open spec fn token_list_field(objs: Objects, k: ObjKey, name: Seq<char>, ts: Seq<TokenView>, base: Set<ObjKey>) -> bool {
    &&& objs[k].fields.contains_key(name)
    &&& match objs[k].fields[name] {
        Slot::Object(l) => !base.contains(l) && tokens_stored(objs, l, ts, base),
        _ => false,
    }
}

/// The map `k` holds the three piles of a stack and nothing else, each
/// pile in a list outside `base`.
pub open spec fn stack_stored(objs: Objects, k: ObjKey, s: StackView, base: Set<ObjKey>) -> bool {
    &&& is_map(objs, k)
    &&& objs[k].fields.dom() == set!["stack"@, "drawn"@, "discards"@]
    &&& token_list_field(objs, k, "stack"@, s.stack, base)
    &&& token_list_field(objs, k, "drawn"@, s.drawn, base)
    &&& token_list_field(objs, k, "discards"@, s.discards, base)
}

/// Puts a new list under `key` of the map `obj` and fills it with the tokens.
fn put_token_list(tx: &mut automerge::transaction::Transaction, obj: &automerge::ObjId, key: &str, tokens: &Vec<IToken>) -> (r: Result<(), automerge::AutomergeError>)
    requires
        is_map(tx_objects(*old(tx)), obj_key(*obj)),
    ensures
        r is Ok,
        grown_except(tx_objects(*old(tx)), tx_objects(*final(tx)), obj_key(*obj)),
        is_map(tx_objects(*final(tx)), obj_key(*obj)),
        token_list_field(tx_objects(*final(tx)), obj_key(*obj), key@, tokens_view(tokens@), tx_objects(*old(tx)).dom()),
        tx_objects(*final(tx))[obj_key(*obj)].fields == tx_objects(*old(tx))[obj_key(*obj)].fields.insert(
            key@,
            tx_objects(*final(tx))[obj_key(*obj)].fields[key@],
        ),
{
    let ghost pre = tx_objects(*tx);
    let arr = tx_put_list(tx, obj, key)?;
    let ghost mid = tx_objects(*tx);
    write_token_list_tx(tx, &arr, tokens)?;
    proof {
        let after = tx_objects(*tx);
        lemma_tokens_base(after, obj_key(arr), tokens_view(tokens@), mid.dom(), pre.dom());
        assert(after[obj_key(*obj)] == mid[obj_key(*obj)]);
        assert forall|o: ObjKey| o != obj_key(*obj) && #[trigger] pre.contains_key(o) implies after[o] == pre[o] by {
            assert(mid.contains_key(o));
        }
    }
    Ok(())
}

/// Writes the three piles of a stack into the empty map `obj`, each as a new list.
pub fn write_stack_state_tx(tx: &mut automerge::transaction::Transaction, obj: &automerge::ObjId, stack: &IStackState) -> (r: Result<(), automerge::AutomergeError>)
    requires
        is_map(tx_objects(*old(tx)), obj_key(*obj)),
        tx_objects(*old(tx))[obj_key(*obj)].fields == Map::<Seq<char>, Slot>::empty(),
    ensures
        r is Ok,
        grown_except(tx_objects(*old(tx)), tx_objects(*final(tx)), obj_key(*obj)),
        stack_stored(tx_objects(*final(tx)), obj_key(*obj), stack@, tx_objects(*old(tx)).dom()),
{
    let ghost pre = tx_objects(*tx);
    let ghost k = obj_key(*obj);
    proof {
        lemma_keys();
    }
    put_token_list(tx, obj, "stack", &stack.stack)?;
    let ghost s1 = tx_objects(*tx);
    put_token_list(tx, obj, "drawn", &stack.drawn)?;
    let ghost s2 = tx_objects(*tx);
    put_token_list(tx, obj, "discards", &stack.discards)?;
    proof {
        let s3 = tx_objects(*tx);
        let l1 = s1[k].fields["stack"@]->Object_0;
        let l2 = s2[k].fields["drawn"@]->Object_0;
        lemma_tokens_base(s2, l2, stack@.drawn, s1.dom(), pre.dom());
        lemma_tokens_kept(s1, s2, l1, stack@.stack, pre.dom(), k);
        lemma_tokens_kept(s2, s3, l1, stack@.stack, pre.dom(), k);
        lemma_tokens_kept(s2, s3, l2, stack@.drawn, pre.dom(), k);
        let l3 = s3[k].fields["discards"@]->Object_0;
        lemma_tokens_base(s3, l3, stack@.discards, s2.dom(), pre.dom());
        assert(s3[k].fields.dom() =~= set!["stack"@, "drawn"@, "discards"@]);
        assert(token_list_field(s3, k, "stack"@, stack@.stack, pre.dom()));
        assert(token_list_field(s3, k, "drawn"@, stack@.drawn, pre.dom()));
        assert(token_list_field(s3, k, "discards"@, stack@.discards, pre.dom()));
        assert forall|o: ObjKey| o != k && #[trigger] pre.contains_key(o) implies s3[o] == pre[o] by {
            assert(s1.contains_key(o));
            assert(s2.contains_key(o));
        }
    }
    Ok(())
}

pub open spec fn opt_scalar_slot(v: Option<Scalar>) -> Option<Slot> {
    match v {
        Some(s) => Some(Slot::Value(s)),
        None => None,
    }
}

/// The fields of a map that holds a placement whose token lies in the map `snapshot`.
pub open spec fn placement_fields(p: PlacementView, snapshot: ObjKey) -> Map<Seq<char>, Slot> {
    let m = Map::<Seq<char>, Slot>::empty().insert("id"@, str_slot(p.id));
    let m = m.insert("tokenId"@, str_slot(p.token_id));
    let m = m.insert("tokenSnapshot"@, Slot::Object(snapshot));
    let m = with_opt(m, "x"@, opt_scalar_slot(p.x));
    let m = with_opt(m, "y"@, opt_scalar_slot(p.y));
    let m = m.insert("faceUp"@, bool_slot(p.face_up));
    let m = with_opt(m, "label"@, opt_str_slot(p.label));
    let m = m.insert("ts"@, int_slot(p.ts as int));
    let m = m.insert("reversed"@, bool_slot(p.reversed));
    m.insert("tags"@, str_slot(list_text(p.tags)))
}

/// The map `k` holds the placement `p` and nothing else, the copy of its
/// token in a map of its own outside `base`.
pub open spec fn placement_stored(objs: Objects, k: ObjKey, p: PlacementView, base: Set<ObjKey>) -> bool {
    &&& is_map(objs, k)
    &&& objs[k].fields.contains_key("tokenSnapshot"@)
    &&& match objs[k].fields["tokenSnapshot"@] {
        Slot::Object(s) => !base.contains(s) && token_stored(objs, s, p.token) && objs[k].fields
            == placement_fields(p, s),
        _ => false,
    }
}

pub proof fn lemma_placement_kept(a: Objects, b: Objects, k: ObjKey, p: PlacementView, base: Set<ObjKey>, changed: ObjKey)
    requires
        placement_stored(a, k, p, base),
        grown_except(a, b, changed),
        k != changed,
        base.contains(changed) || !a.contains_key(changed),
    ensures
        placement_stored(b, k, p, base),
{
    assert(a.contains_key(k));
    match a[k].fields["tokenSnapshot"@] {
        Slot::Object(s) => {
            assert(a.contains_key(s));
        },
        _ => {},
    }
}

/// Sets `key` of the map `obj` to `value` where there is one.
fn put_opt_scalar(tx: &mut automerge::transaction::Transaction, obj: &automerge::ObjId, key: &str, value: &Option<automerge::ScalarValue>) -> (r: Result<(), automerge::AutomergeError>)
    requires
        is_map(tx_objects(*old(tx)), obj_key(*obj)),
    ensures
        r is Ok,
        fields_changed(
            tx_objects(*old(tx)),
            tx_objects(*final(tx)),
            obj_key(*obj),
            with_opt(tx_objects(*old(tx))[obj_key(*obj)].fields, key@, opt_scalar_slot(scalar_view(*value))),
        ),
{
    match value {
        Some(v) => tx_put(tx, obj, key, v.clone()),
        None => Ok(()),
    }
}

/// Writes a placement into the empty map `obj`; the copy of its token goes
/// into a new map under `tokenSnapshot`.
pub fn write_placement_tx(tx: &mut automerge::transaction::Transaction, obj: &automerge::ObjId, placement: &IPlacementCRDT) -> (r: Result<(), automerge::AutomergeError>)
    requires
        is_map(tx_objects(*old(tx)), obj_key(*obj)),
        tx_objects(*old(tx))[obj_key(*obj)].fields == Map::<Seq<char>, Slot>::empty(),
    ensures
        r is Ok,
        grown_except(tx_objects(*old(tx)), tx_objects(*final(tx)), obj_key(*obj)),
        placement_stored(tx_objects(*final(tx)), obj_key(*obj), placement@, tx_objects(*old(tx)).dom()),
{
    let ghost pre = tx_objects(*tx);
    let ghost k = obj_key(*obj);
    proof {
        lemma_keys();
    }
    tx_put(tx, obj, "id", scalar_str(placement.id.as_str()))?;
    tx_put(tx, obj, "tokenId", scalar_str(placement.tokenId.as_str()))?;

    let ghost s0 = tx_objects(*tx);
    let snapshot_obj = tx_put_map(tx, obj, "tokenSnapshot")?;
    let ghost s1 = tx_objects(*tx);
    let ghost snap = obj_key(snapshot_obj);
    write_token_tx(tx, &snapshot_obj, &placement.tokenSnapshot)?;
    let ghost s2 = tx_objects(*tx);
    proof {
        assert(s1.contains_key(k));
        assert(s2[k] == s1[k]);
        assert(token_stored(s2, snap, placement@.token));
    }

    put_opt_scalar(tx, obj, "x", &placement.x)?;
    put_opt_scalar(tx, obj, "y", &placement.y)?;
    tx_put(tx, obj, "faceUp", scalar_bool(placement.faceUp))?;
    put_opt_str(tx, obj, "label", &placement.label)?;
    tx_put(tx, obj, "ts", scalar_int(placement.ts))?;
    tx_put(tx, obj, "reversed", scalar_bool(placement.reversed))?;

    let tags_json = strings_json(&placement.tags);
    tx_put(tx, obj, "tags", scalar_str(tags_json.as_str()))?;
    proof {
        let s3 = tx_objects(*tx);
        assert(s3[k].fields == placement_fields(placement@, snap));
        assert(s3[k].fields["tokenSnapshot"@] == Slot::Object(snap));
        assert(s2.contains_key(snap));
        assert(s3[snap] == s2[snap]);
        assert forall|o: ObjKey| o != k && #[trigger] pre.contains_key(o) implies s3[o] == pre[o] by {
            assert(s0.contains_key(o));
            assert(s1.contains_key(o));
            assert(s2.contains_key(o));
        }
    }
    Ok(())
}

/// `item` is a map outside `base` that holds the placement `p`.
pub open spec fn placement_item(objs: Objects, item: Option<Slot>, p: PlacementView, base: Set<ObjKey>) -> bool {
    match item {
        Some(Slot::Object(k)) => !base.contains(k) && placement_stored(objs, k, p, base),
        _ => false,
    }
}

/// The list `l` holds the placements `ps` in order, each in a map of its
/// own that is not among `base`.
pub open spec fn placements_stored(objs: Objects, l: ObjKey, ps: Seq<PlacementView>, base: Set<ObjKey>) -> bool {
    &&& is_list(objs, l)
    &&& objs[l].items.len() == ps.len()
    &&& forall|i: int| 0 <= i < ps.len() ==> placement_item(objs, #[trigger] objs[l].items[i], ps[i], base)
}

pub proof fn lemma_placements_kept(a: Objects, b: Objects, l: ObjKey, ps: Seq<PlacementView>, base: Set<ObjKey>, changed: ObjKey)
    requires
        placements_stored(a, l, ps, base),
        grown_except(a, b, changed),
        l != changed,
        base.contains(changed) || !a.contains_key(changed),
    ensures
        placements_stored(b, l, ps, base),
{
    assert(a.contains_key(l));
    assert forall|i: int| 0 <= i < ps.len() implies placement_item(b, #[trigger] b[l].items[i], ps[i], base) by {
        assert(placement_item(a, a[l].items[i], ps[i], base));
        match a[l].items[i] {
            Some(Slot::Object(k)) => {
                lemma_placement_kept(a, b, k, ps[i], base, changed);
            },
            _ => {},
        }
    }
}

pub proof fn lemma_placements_base(objs: Objects, l: ObjKey, ps: Seq<PlacementView>, base: Set<ObjKey>, smaller: Set<ObjKey>)
    requires
        placements_stored(objs, l, ps, base),
        smaller.subset_of(base),
    ensures
        placements_stored(objs, l, ps, smaller),
{
    assert forall|i: int| 0 <= i < ps.len() implies placement_item(objs, #[trigger] objs[l].items[i], ps[i], smaller) by {
        assert(placement_item(objs, objs[l].items[i], ps[i], base));
    }
}

/// Fills the empty list `list` with the placements, each in a new map.
pub fn write_placement_list_tx(tx: &mut automerge::transaction::Transaction, list: &automerge::ObjId, placements: &Vec<IPlacementCRDT>) -> (r: Result<(), automerge::AutomergeError>)
    requires
        is_list(tx_objects(*old(tx)), obj_key(*list)),
        tx_objects(*old(tx))[obj_key(*list)].items.len() == 0,
    ensures
        r is Ok,
        grown_except(tx_objects(*old(tx)), tx_objects(*final(tx)), obj_key(*list)),
        placements_stored(tx_objects(*final(tx)), obj_key(*list), placements_view(placements@), tx_objects(*old(tx)).dom()),
{
    let ghost pre = tx_objects(*tx);
    let ghost l = obj_key(*list);
    let n = placements.len();
    let mut i: usize = 0;
    while i < n
        invariant
            0 <= i <= n,
            n == placements.len(),
            l == obj_key(*list),
            pre.contains_key(l),
            grown_except(pre, tx_objects(*tx), l),
            placements_stored(tx_objects(*tx), l, placements_view(placements@).take(i as int), pre.dom()),
        decreases n - i,
    {
        let ghost before = tx_objects(*tx);
        let p_obj = tx_insert_map(tx, list, i)?;
        let ghost mid = tx_objects(*tx);
        let ghost fresh = obj_key(p_obj);
        write_placement_tx(tx, &p_obj, &placements[i])?;
        proof {
            let after = tx_objects(*tx);
            let ps0 = placements_view(placements@).take(i as int);
            let ps1 = placements_view(placements@).take(i + 1);
            assert(ps1 =~= ps0.push(placements[i as int]@));
            assert(before.contains_key(l));
            assert(mid.contains_key(l));
            assert(after[l] == mid[l]);
            assert(mid[l].items =~= before[l].items.push(Some(Slot::Object(fresh))));
            assert forall|o: ObjKey| o != l && #[trigger] before.contains_key(o) implies after[o] == before[o] by {
                assert(mid.contains_key(o));
            }
            assert(grown_except(before, after, l));
            assert forall|j: int| 0 <= j < ps1.len() implies placement_item(
                after,
                #[trigger] after[l].items[j],
                ps1[j],
                pre.dom(),
            ) by {
                if j < i {
                    assert(placement_item(before, before[l].items[j], ps0[j], pre.dom()));
                    match before[l].items[j] {
                        Some(Slot::Object(t)) => {
                            lemma_placement_kept(before, after, t, ps0[j], pre.dom(), l);
                        },
                        _ => {},
                    }
                } else {
                    // the new placement was stored outside `mid`, which holds `pre`
                    let t = placements[i as int]@;
                    assert(placement_stored(after, fresh, t, mid.dom()));
                    assert(placement_stored(after, fresh, t, pre.dom()));
                }
            }
            assert forall|o: ObjKey| o != l && #[trigger] pre.contains_key(o) implies after[o] == pre[o] by {
                assert(before.contains_key(o));
            }
        }
        i = i + 1;
    }
    proof {
        assert(placements_view(placements@).take(n as int) =~= placements_view(placements@));
    }
    Ok(())
}

/// The key `name` of the map `k` holds a list outside `base` that holds `ps`.
pub open spec fn zone_field(objs: Objects, k: ObjKey, name: Seq<char>, ps: Seq<PlacementView>, base: Set<ObjKey>) -> bool {
    match objs[k].fields[name] {
        Slot::Object(l) => !base.contains(l) && placements_stored(objs, l, ps, base),
        _ => false,
    }
}

/// The map `k` holds one list per zone, under the zone's name, and nothing else.
pub open spec fn zones_stored(objs: Objects, k: ObjKey, zones: Map<Seq<char>, Seq<PlacementView>>, base: Set<ObjKey>) -> bool {
    &&& is_map(objs, k)
    &&& objs[k].fields.dom() == zones.dom()
    &&& forall|name: Seq<char>| #[trigger] zones.contains_key(name) ==> zone_field(objs, k, name, zones[name], base)
}

pub proof fn lemma_zones_kept(a: Objects, b: Objects, k: ObjKey, zones: Map<Seq<char>, Seq<PlacementView>>, base: Set<ObjKey>, changed: ObjKey)
    requires
        zones_stored(a, k, zones, base),
        grown_except(a, b, changed),
        k != changed,
        base.contains(changed) || !a.contains_key(changed),
    ensures
        zones_stored(b, k, zones, base),
{
    assert(a.contains_key(k));
    assert forall|name: Seq<char>| #[trigger] zones.contains_key(name) implies zone_field(b, k, name, zones[name], base) by {
        assert(zone_field(a, k, name, zones[name], base));
        match a[k].fields[name] {
            Slot::Object(l) => {
                lemma_placements_kept(a, b, l, zones[name], base, changed);
            },
            _ => {},
        }
    }
}

/// Writes the zones into the empty map `obj`: one new list per zone, under
/// the zone's name, filled with the zone's placements.
pub fn write_zones_tx(tx: &mut automerge::transaction::Transaction, obj: &automerge::ObjId, zones: &Vec<(String, Vec<IPlacementCRDT>)>) -> (r: Result<(), automerge::AutomergeError>)
    requires
        is_map(tx_objects(*old(tx)), obj_key(*obj)),
        tx_objects(*old(tx))[obj_key(*obj)].fields == Map::<Seq<char>, Slot>::empty(),
    ensures
        r is Ok,
        grown_except(tx_objects(*old(tx)), tx_objects(*final(tx)), obj_key(*obj)),
        zones_stored(tx_objects(*final(tx)), obj_key(*obj), entries_map(zones_view(zones@)), tx_objects(*old(tx)).dom()),
{
    let ghost pre = tx_objects(*tx);
    let ghost k = obj_key(*obj);
    let n = zones.len();
    let mut i: usize = 0;
    proof {
        assert(zones_view(zones@).take(0) =~= Seq::empty());
        assert(pre[k].fields.dom() =~= Map::<Seq<char>, Seq<PlacementView>>::empty().dom());
    }
    while i < n
        invariant
            0 <= i <= n,
            n == zones.len(),
            k == obj_key(*obj),
            pre.contains_key(k),
            grown_except(pre, tx_objects(*tx), k),
            zones_stored(tx_objects(*tx), k, entries_map(zones_view(zones@).take(i as int)), pre.dom()),
        decreases n - i,
    {
        let ghost before = tx_objects(*tx);
        let zone_arr = tx_put_list(tx, obj, zones[i].0.as_str())?;
        let ghost mid = tx_objects(*tx);
        let ghost fresh = obj_key(zone_arr);
        write_placement_list_tx(tx, &zone_arr, &zones[i].1)?;
        proof {
            let after = tx_objects(*tx);
            let name = zones[i as int].0@;
            let ps = placements_view(zones[i as int].1@);
            let z0 = zones_view(zones@).take(i as int);
            let z1 = zones_view(zones@).take(i + 1);
            assert(z1 =~= z0.push((name, ps)));
            lemma_entries_push(z0, (name, ps));
            let m0 = entries_map(z0);
            let m1 = entries_map(z1);
            assert(m1 == m0.insert(name, ps));
            assert(before.contains_key(k));
            assert(mid.contains_key(k));
            assert(after[k] == mid[k]);
            assert(after[k].fields.dom() =~= m1.dom());
            assert forall|o: ObjKey| o != k && #[trigger] before.contains_key(o) implies after[o] == before[o] by {
                assert(mid.contains_key(o));
            }
            assert(grown_except(before, after, k));
            lemma_placements_base(after, fresh, ps, mid.dom(), pre.dom());
            assert forall|other: Seq<char>| #[trigger] m1.contains_key(other) implies zone_field(
                after,
                k,
                other,
                m1[other],
                pre.dom(),
            ) by {
                if other != name {
                    assert(m0.contains_key(other));
                    assert(zone_field(before, k, other, m0[other], pre.dom()));
                    match before[k].fields[other] {
                        Slot::Object(l) => {
                            lemma_placements_kept(before, after, l, m0[other], pre.dom(), k);
                        },
                        _ => {},
                    }
                }
            }
            assert forall|o: ObjKey| o != k && #[trigger] pre.contains_key(o) implies after[o] == pre[o] by {
                assert(before.contains_key(o));
            }
        }
        i = i + 1;
    }
    proof {
        assert(zones_view(zones@).take(n as int) =~= zones_view(zones@));
    }
    Ok(())
}

pub proof fn lemma_grown_trans(a: Objects, b: Objects, c: Objects, k: ObjKey)
    requires
        grown_except(a, b, k),
        grown_except(b, c, k),
    ensures
        grown_except(a, c, k),
{
    assert forall|o: ObjKey| o != k && #[trigger] a.contains_key(o) implies c[o] == a[o] by {
        assert(b.contains_key(o));
    }
}

pub proof fn lemma_stack_kept(a: Objects, b: Objects, k: ObjKey, s: StackView, base: Set<ObjKey>, changed: ObjKey)
    requires
        stack_stored(a, k, s, base),
        grown_except(a, b, changed),
        k != changed,
        base.contains(changed) || !a.contains_key(changed),
    ensures
        stack_stored(b, k, s, base),
{
    assert(a.contains_key(k));
    lemma_tokens_kept(a, b, a[k].fields["stack"@]->Object_0, s.stack, base, changed);
    lemma_tokens_kept(a, b, a[k].fields["drawn"@]->Object_0, s.drawn, base, changed);
    lemma_tokens_kept(a, b, a[k].fields["discards"@]->Object_0, s.discards, base, changed);
}

/// The items of a list of strings.
pub open spec fn str_items(ids: Seq<Seq<char>>) -> Seq<Option<Slot>> {
    ids.map_values(|s: Seq<char>| Some(str_slot(s)))
}

/// The key `name` of the map `k` holds a list outside `base` that holds the strings `ids`.
pub open spec fn str_list_field(objs: Objects, k: ObjKey, name: Seq<char>, ids: Seq<Seq<char>>, base: Set<ObjKey>) -> bool {
    &&& objs[k].fields.contains_key(name)
    &&& match objs[k].fields[name] {
        Slot::Object(l) => !base.contains(l) && is_list(objs, l) && objs[l].items == str_items(ids),
        _ => false,
    }
}

/// The fields of a map that holds a reshuffle policy and nothing else.
pub open spec fn policy_fields(p: PolicyView) -> Map<Seq<char>, Slot> {
    with_opt(Map::<Seq<char>, Slot>::empty(), "threshold"@, opt_i32_slot(p.threshold)).insert(
        "mode"@,
        str_slot(p.mode),
    )
}

/// The key `name` of the map `k` holds a map outside `base` that holds the policy `p`.
pub open spec fn policy_field(objs: Objects, k: ObjKey, name: Seq<char>, p: PolicyView, base: Set<ObjKey>) -> bool {
    &&& objs[k].fields.contains_key(name)
    &&& match objs[k].fields[name] {
        Slot::Object(m) => !base.contains(m) && is_map(objs, m) && objs[m].fields == policy_fields(p),
        _ => false,
    }
}

/// The names under which a source is stored: `seed` only where there is one.
pub open spec fn source_names(s: SourceView) -> Set<Seq<char>> {
    let names = set!["stackIds"@, "tokens"@, "burned"@, "reshufflePolicy"@];
    if s.seed is Some {
        names.insert("seed"@)
    } else {
        names
    }
}

/// The map `k` holds the source `s` and nothing else, each of its lists
/// and its policy outside `base`.
pub open spec fn source_stored(objs: Objects, k: ObjKey, s: SourceView, base: Set<ObjKey>) -> bool {
    &&& is_map(objs, k)
    &&& objs[k].fields.dom() == source_names(s)
    &&& str_list_field(objs, k, "stackIds"@, s.stack_ids, base)
    &&& token_list_field(objs, k, "tokens"@, s.tokens, base)
    &&& token_list_field(objs, k, "burned"@, s.burned, base)
    &&& (s.seed is Some ==> objs[k].fields["seed"@] == int_slot(s.seed->0 as int))
    &&& policy_field(objs, k, "reshufflePolicy"@, s.policy, base)
}

pub proof fn lemma_source_kept(a: Objects, b: Objects, k: ObjKey, s: SourceView, base: Set<ObjKey>, changed: ObjKey)
    requires
        source_stored(a, k, s, base),
        grown_except(a, b, changed),
        k != changed,
        base.contains(changed) || !a.contains_key(changed),
    ensures
        source_stored(b, k, s, base),
{
    assert(a.contains_key(k));
    lemma_tokens_kept(a, b, a[k].fields["tokens"@]->Object_0, s.tokens, base, changed);
    lemma_tokens_kept(a, b, a[k].fields["burned"@]->Object_0, s.burned, base, changed);
    assert(a.contains_key(a[k].fields["stackIds"@]->Object_0));
    assert(a.contains_key(a[k].fields["reshufflePolicy"@]->Object_0));
}

/// Puts a new list under `key` of the map `obj` and fills it with the strings.
fn put_string_list(tx: &mut automerge::transaction::Transaction, obj: &automerge::ObjId, key: &str, ids: &Vec<String>) -> (r: Result<(), automerge::AutomergeError>)
    requires
        is_map(tx_objects(*old(tx)), obj_key(*obj)),
    ensures
        r is Ok,
        grown_except(tx_objects(*old(tx)), tx_objects(*final(tx)), obj_key(*obj)),
        is_map(tx_objects(*final(tx)), obj_key(*obj)),
        str_list_field(tx_objects(*final(tx)), obj_key(*obj), key@, ids.deep_view(), tx_objects(*old(tx)).dom()),
        tx_objects(*final(tx))[obj_key(*obj)].fields == tx_objects(*old(tx))[obj_key(*obj)].fields.insert(
            key@,
            tx_objects(*final(tx))[obj_key(*obj)].fields[key@],
        ),
{
    let ghost pre = tx_objects(*tx);
    let ghost k = obj_key(*obj);
    let arr = tx_put_list(tx, obj, key)?;
    let ghost mid = tx_objects(*tx);
    let ghost l = obj_key(arr);
    let n = ids.len();
    let mut i: usize = 0;
    proof {
        assert(str_items(ids.deep_view().take(0)) =~= Seq::empty());
    }
    while i < n
        invariant
            0 <= i <= n,
            n == ids.len(),
            l == obj_key(arr),
            l != k,
            mid.contains_key(l),
            mid.contains_key(k),
            same_except(mid, tx_objects(*tx), l),
            is_list(tx_objects(*tx), l),
            tx_objects(*tx)[l].items == str_items(ids.deep_view().take(i as int)),
        decreases n - i,
    {
        let ghost before = tx_objects(*tx);
        tx_insert(tx, &arr, i, scalar_str(ids[i].as_str()))?;
        proof {
            let after = tx_objects(*tx);
            let t0 = ids.deep_view().take(i as int);
            let t1 = ids.deep_view().take(i + 1);
            assert(ids.deep_view()[i as int] == ids[i as int]@);
            assert(t1 =~= t0.push(ids[i as int]@));
            assert(str_items(t1) =~= str_items(t0).push(Some(str_slot(ids[i as int]@))));
            assert(after[l].items =~= str_items(t1));
            assert forall|o: ObjKey| o != l && #[trigger] mid.contains_key(o) implies after[o] == mid[o] by {
                assert(before.contains_key(o));
            }
        }
        i = i + 1;
    }
    proof {
        let after = tx_objects(*tx);
        assert(ids.deep_view().take(n as int) =~= ids.deep_view());
        assert(after[k] == mid[k]);
        assert forall|o: ObjKey| o != k && #[trigger] pre.contains_key(o) implies after[o] == pre[o] by {
            assert(mid.contains_key(o));
        }
    }
    Ok(())
}

/// Writes a source into the empty map `obj`: its lists anew, its seed where
/// it has one, and its policy in a new map.
pub fn write_source_state_tx(tx: &mut automerge::transaction::Transaction, obj: &automerge::ObjId, source: &ISourceState) -> (r: Result<(), automerge::AutomergeError>)
    requires
        is_map(tx_objects(*old(tx)), obj_key(*obj)),
        tx_objects(*old(tx))[obj_key(*obj)].fields == Map::<Seq<char>, Slot>::empty(),
    ensures
        r is Ok,
        grown_except(tx_objects(*old(tx)), tx_objects(*final(tx)), obj_key(*obj)),
        source_stored(tx_objects(*final(tx)), obj_key(*obj), source@, tx_objects(*old(tx)).dom()),
{
    let ghost pre = tx_objects(*tx);
    let ghost k = obj_key(*obj);
    proof {
        lemma_keys();
    }
    put_string_list(tx, obj, "stackIds", &source.stackIds)?;
    let ghost s1 = tx_objects(*tx);
    put_token_list(tx, obj, "tokens", &source.tokens)?;
    let ghost s2 = tx_objects(*tx);
    put_token_list(tx, obj, "burned", &source.burned)?;
    let ghost s3 = tx_objects(*tx);

    let seed: Option<i64> = match source.seed {
        Some(v) => Some(v as i64),
        None => None,
    };
    put_opt_int(tx, obj, "seed", seed)?;
    let ghost s4 = tx_objects(*tx);

    let policy_obj = tx_put_map(tx, obj, "reshufflePolicy")?;
    let ghost s5 = tx_objects(*tx);
    let ghost pk = obj_key(policy_obj);
    let threshold: Option<i64> = match source.reshufflePolicy.threshold {
        Some(v) => Some(v as i64),
        None => None,
    };
    put_opt_int(tx, &policy_obj, "threshold", threshold)?;
    let ghost s6 = tx_objects(*tx);
    tx_put(tx, &policy_obj, "mode", scalar_str(source.reshufflePolicy.mode.as_str()))?;
    proof {
        let s7 = tx_objects(*tx);
        let ids = s1[k].fields["stackIds"@]->Object_0;
        let l1 = s2[k].fields["tokens"@]->Object_0;
        let l2 = s3[k].fields["burned"@]->Object_0;
        assert(s4[k].fields == with_opt(s3[k].fields, "seed"@, opt_i64_slot(seed)));
        assert(s5[k].fields == s4[k].fields.insert("reshufflePolicy"@, Slot::Object(pk)));
        assert(s5.contains_key(k) && s5.contains_key(pk) && k != pk);
        assert(s6.contains_key(k));
        assert(s6[k] == s5[k]);
        assert(s7[k] == s6[k]);
        assert(s7[pk].fields == policy_fields(source@.policy));

        assert(grown_except(s3, s4, k));
        assert(grown_except(s4, s5, k));
        assert forall|o: ObjKey| o != k && #[trigger] s5.contains_key(o) && o != pk implies s7[o] == s5[o] by {
            assert(s6.contains_key(o));
        }
        assert forall|o: ObjKey| o != k && #[trigger] s4.contains_key(o) implies s7[o] == s4[o] by {
            assert(s5.contains_key(o));
        }
        assert(grown_except(s4, s7, k));
        lemma_grown_trans(s3, s4, s7, k);
        lemma_grown_trans(s2, s3, s7, k);
        lemma_grown_trans(s1, s2, s7, k);
        lemma_grown_trans(pre, s1, s7, k);

        lemma_tokens_base(s2, l1, source@.tokens, s1.dom(), pre.dom());
        lemma_tokens_base(s3, l2, source@.burned, s2.dom(), pre.dom());
        lemma_tokens_kept(s2, s7, l1, source@.tokens, pre.dom(), k);
        lemma_tokens_kept(s3, s7, l2, source@.burned, pre.dom(), k);
        assert(s1.contains_key(ids));
        assert(s7[ids] == s1[ids]);
        assert(s7[k].fields.dom() =~= source_names(source@));
        assert(str_list_field(s7, k, "stackIds"@, source@.stack_ids, pre.dom()));
        assert(token_list_field(s7, k, "tokens"@, source@.tokens, pre.dom()));
        assert(token_list_field(s7, k, "burned"@, source@.burned, pre.dom()));
        assert(policy_field(s7, k, "reshufflePolicy"@, source@.policy, pre.dom()));
    }
    Ok(())
}

/// The fields of `base` after a game loop has been written over them.
pub open spec fn game_loop_over(base: Map<Seq<char>, Slot>, g: GameLoopView) -> Map<Seq<char>, Slot> {
    base.insert("turn"@, int_slot(g.turn as int)).insert("running"@, bool_slot(g.running)).insert(
        "activeAgentIndex"@,
        int_slot(g.active_agent as int),
    ).insert("phase"@, str_slot(g.phase)).insert("maxTurns"@, int_slot(g.max_turns as int))
}

/// Writes the five fields of a game loop into the map `obj`.
pub fn write_game_loop_state_tx(tx: &mut automerge::transaction::Transaction, obj: &automerge::ObjId, game_loop: &IGameLoopState) -> (r: Result<(), automerge::AutomergeError>)
    requires
        is_map(tx_objects(*old(tx)), obj_key(*obj)),
    ensures
        r is Ok,
        fields_changed(
            tx_objects(*old(tx)),
            tx_objects(*final(tx)),
            obj_key(*obj),
            game_loop_over(tx_objects(*old(tx))[obj_key(*obj)].fields, game_loop@),
        ),
{
    tx_put(tx, obj, "turn", scalar_int(game_loop.turn as i64))?;
    tx_put(tx, obj, "running", scalar_bool(game_loop.running))?;
    tx_put(tx, obj, "activeAgentIndex", scalar_int(game_loop.activeAgentIndex as i64))?;
    tx_put(tx, obj, "phase", scalar_str(game_loop.phase.as_str()))?;
    tx_put(tx, obj, "maxTurns", scalar_int(game_loop.maxTurns as i64))?;
    Ok(())
}

/// `base` with each name of `m` set to its timestamp.
pub open spec fn stamps_over(base: Map<Seq<char>, Slot>, m: Map<Seq<char>, i64>) -> Map<Seq<char>, Slot> {
    Map::new(
        |n: Seq<char>| base.contains_key(n) || m.contains_key(n),
        |n: Seq<char>|
            if m.contains_key(n) {
                int_slot(m[n] as int)
            } else {
                base[n]
            },
    )
}

/// Sets each name to its timestamp in the map `obj`, in the order of the entries.
pub fn write_stamps_tx(tx: &mut automerge::transaction::Transaction, obj: &automerge::ObjId, stamps: &Vec<(String, i64)>) -> (r: Result<(), automerge::AutomergeError>)
    requires
        is_map(tx_objects(*old(tx)), obj_key(*obj)),
    ensures
        r is Ok,
        fields_changed(
            tx_objects(*old(tx)),
            tx_objects(*final(tx)),
            obj_key(*obj),
            stamps_over(tx_objects(*old(tx))[obj_key(*obj)].fields, entries_map(stamps_view(stamps@))),
        ),
{
    let ghost pre = tx_objects(*tx);
    let ghost k = obj_key(*obj);
    let n = stamps.len();
    let mut i: usize = 0;
    proof {
        assert(stamps_view(stamps@).take(0) =~= Seq::empty());
        assert(stamps_over(pre[k].fields, Map::empty()) =~= pre[k].fields);
    }
    while i < n
        invariant
            0 <= i <= n,
            n == stamps.len(),
            k == obj_key(*obj),
            pre.contains_key(k),
            fields_changed(
                pre,
                tx_objects(*tx),
                k,
                stamps_over(pre[k].fields, entries_map(stamps_view(stamps@).take(i as int))),
            ),
        decreases n - i,
    {
        let ghost before = tx_objects(*tx);
        tx_put(tx, obj, stamps[i].0.as_str(), scalar_int(stamps[i].1))?;
        proof {
            let after = tx_objects(*tx);
            let e = (stamps[i as int].0@, stamps[i as int].1);
            let t0 = stamps_view(stamps@).take(i as int);
            let t1 = stamps_view(stamps@).take(i + 1);
            assert(t1 =~= t0.push(e));
            lemma_entries_push(t0, e);
            assert(after[k].fields =~= stamps_over(pre[k].fields, entries_map(t1)));
            assert forall|o: ObjKey| o != k && #[trigger] pre.contains_key(o) implies after[o] == pre[o] by {
                assert(before.contains_key(o));
            }
        }
        i = i + 1;
    }
    proof {
        assert(stamps_view(stamps@).take(n as int) =~= stamps_view(stamps@));
    }
    Ok(())
}

/// The map `k` holds the rule state `r` and nothing else: under `fired`,
/// a map outside `base` from each rule's name to its timestamp.
pub open spec fn rules_stored(objs: Objects, k: ObjKey, r: RuleView, base: Set<ObjKey>) -> bool {
    &&& is_map(objs, k)
    &&& objs[k].fields.dom() == set!["fired"@]
    &&& match objs[k].fields["fired"@] {
        Slot::Object(f) => !base.contains(f) && is_map(objs, f) && objs[f].fields == stamps_over(
            Map::empty(),
            r.fired,
        ),
        _ => false,
    }
}

pub proof fn lemma_rules_kept(a: Objects, b: Objects, k: ObjKey, r: RuleView, base: Set<ObjKey>, changed: ObjKey)
    requires
        rules_stored(a, k, r, base),
        grown_except(a, b, changed),
        k != changed,
        base.contains(changed) || !a.contains_key(changed),
    ensures
        rules_stored(b, k, r, base),
{
    assert(a.contains_key(k));
    assert(a.contains_key(a[k].fields["fired"@]->Object_0));
}

/// Writes the rule state into the empty map `obj`: a new map under `fired`.
pub fn write_rule_state_tx(tx: &mut automerge::transaction::Transaction, obj: &automerge::ObjId, rules: &IRuleState) -> (r: Result<(), automerge::AutomergeError>)
    requires
        is_map(tx_objects(*old(tx)), obj_key(*obj)),
        tx_objects(*old(tx))[obj_key(*obj)].fields == Map::<Seq<char>, Slot>::empty(),
    ensures
        r is Ok,
        grown_except(tx_objects(*old(tx)), tx_objects(*final(tx)), obj_key(*obj)),
        rules_stored(tx_objects(*final(tx)), obj_key(*obj), rules@, tx_objects(*old(tx)).dom()),
{
    let ghost pre = tx_objects(*tx);
    let ghost k = obj_key(*obj);
    let fired_obj = tx_put_map(tx, obj, "fired")?;
    let ghost mid = tx_objects(*tx);
    write_stamps_tx(tx, &fired_obj, &rules.fired)?;
    proof {
        let after = tx_objects(*tx);
        assert(mid.contains_key(k));
        assert(after[k] == mid[k]);
        assert(after[k].fields.dom() =~= set!["fired"@]);
        assert forall|o: ObjKey| o != k && #[trigger] pre.contains_key(o) implies after[o] == pre[o] by {
            assert(mid.contains_key(o));
        }
    }
    Ok(())
}

/// `base` with each name of `m` set to the text of its data.
pub open spec fn agents_over(base: Map<Seq<char>, Slot>, m: Map<Seq<char>, serde_json::Value>) -> Map<Seq<char>, Slot> {
    Map::new(
        |n: Seq<char>| base.contains_key(n) || m.contains_key(n),
        |n: Seq<char>|
            if m.contains_key(n) {
                str_slot(agent_text(m[n]))
            } else {
                base[n]
            },
    )
}

/// Sets each agent's name to the text of its data in the map `obj`.
pub fn write_agents_tx(tx: &mut automerge::transaction::Transaction, obj: &automerge::ObjId, agents: &Vec<(String, serde_json::Value)>) -> (r: Result<(), automerge::AutomergeError>)
    requires
        is_map(tx_objects(*old(tx)), obj_key(*obj)),
    ensures
        r is Ok,
        fields_changed(
            tx_objects(*old(tx)),
            tx_objects(*final(tx)),
            obj_key(*obj),
            agents_over(tx_objects(*old(tx))[obj_key(*obj)].fields, entries_map(values_view(agents@))),
        ),
{
    let ghost pre = tx_objects(*tx);
    let ghost k = obj_key(*obj);
    let n = agents.len();
    let mut i: usize = 0;
    proof {
        assert(values_view(agents@).take(0) =~= Seq::empty());
        assert(agents_over(pre[k].fields, Map::empty()) =~= pre[k].fields);
    }
    while i < n
        invariant
            0 <= i <= n,
            n == agents.len(),
            k == obj_key(*obj),
            pre.contains_key(k),
            fields_changed(
                pre,
                tx_objects(*tx),
                k,
                agents_over(pre[k].fields, entries_map(values_view(agents@).take(i as int))),
            ),
        decreases n - i,
    {
        let ghost before = tx_objects(*tx);
        let json_str = match encode_value(&agents[i].1) {
            Some(s) => s,
            None => "{}".to_owned(),
        };
        tx_put(tx, obj, agents[i].0.as_str(), scalar_str(json_str.as_str()))?;
        proof {
            let after = tx_objects(*tx);
            let e = (agents[i as int].0@, agents[i as int].1);
            let t0 = values_view(agents@).take(i as int);
            let t1 = values_view(agents@).take(i + 1);
            assert(t1 =~= t0.push(e));
            lemma_entries_push(t0, e);
            assert(after[k].fields =~= agents_over(pre[k].fields, entries_map(t1)));
            assert forall|o: ObjKey| o != k && #[trigger] pre.contains_key(o) implies after[o] == pre[o] by {
                assert(before.contains_key(o));
            }
        }
        i = i + 1;
    }
    proof {
        assert(values_view(agents@).take(n as int) =~= values_view(agents@));
    }
    Ok(())
}

/// `base` with each name of `m` set to the text of its value.
pub open spec fn extras_over(base: Map<Seq<char>, Slot>, m: Map<Seq<char>, serde_json::Value>) -> Map<Seq<char>, Slot> {
    Map::new(
        |n: Seq<char>| base.contains_key(n) || m.contains_key(n),
        |n: Seq<char>|
            if m.contains_key(n) {
                str_slot(extra_text(m[n]))
            } else {
                base[n]
            },
    )
}

/// Sets each unknown field's name to the text of its value in the map `obj`.
pub fn write_extras_tx(tx: &mut automerge::transaction::Transaction, obj: &automerge::ObjId, extra: &Vec<(String, serde_json::Value)>) -> (r: Result<(), automerge::AutomergeError>)
    requires
        is_map(tx_objects(*old(tx)), obj_key(*obj)),
    ensures
        r is Ok,
        fields_changed(
            tx_objects(*old(tx)),
            tx_objects(*final(tx)),
            obj_key(*obj),
            extras_over(tx_objects(*old(tx))[obj_key(*obj)].fields, entries_map(values_view(extra@))),
        ),
{
    let ghost pre = tx_objects(*tx);
    let ghost k = obj_key(*obj);
    let n = extra.len();
    let mut i: usize = 0;
    proof {
        assert(values_view(extra@).take(0) =~= Seq::empty());
        assert(extras_over(pre[k].fields, Map::empty()) =~= pre[k].fields);
    }
    while i < n
        invariant
            0 <= i <= n,
            n == extra.len(),
            k == obj_key(*obj),
            pre.contains_key(k),
            fields_changed(
                pre,
                tx_objects(*tx),
                k,
                extras_over(pre[k].fields, entries_map(values_view(extra@).take(i as int))),
            ),
        decreases n - i,
    {
        let ghost before = tx_objects(*tx);
        let json_str = match encode_value(&extra[i].1) {
            Some(s) => s,
            None => String::new(),
        };
        tx_put(tx, obj, extra[i].0.as_str(), scalar_str(json_str.as_str()))?;
        proof {
            let after = tx_objects(*tx);
            let e = (extra[i as int].0@, extra[i as int].1);
            let t0 = values_view(extra@).take(i as int);
            let t1 = values_view(extra@).take(i + 1);
            assert(t1 =~= t0.push(e));
            lemma_entries_push(t0, e);
            assert(after[k].fields =~= extras_over(pre[k].fields, entries_map(t1)));
            assert forall|o: ObjKey| o != k && #[trigger] pre.contains_key(o) implies after[o] == pre[o] by {
                assert(before.contains_key(o));
            }
        }
        i = i + 1;
    }
    proof {
        assert(values_view(extra@).take(n as int) =~= values_view(extra@));
    }
    Ok(())
}

pub proof fn lemma_stack_base(objs: Objects, k: ObjKey, s: StackView, base: Set<ObjKey>, smaller: Set<ObjKey>)
    requires
        stack_stored(objs, k, s, base),
        smaller.subset_of(base),
    ensures
        stack_stored(objs, k, s, smaller),
{
    lemma_tokens_base(objs, objs[k].fields["stack"@]->Object_0, s.stack, base, smaller);
    lemma_tokens_base(objs, objs[k].fields["drawn"@]->Object_0, s.drawn, base, smaller);
    lemma_tokens_base(objs, objs[k].fields["discards"@]->Object_0, s.discards, base, smaller);
}

pub proof fn lemma_zones_base(objs: Objects, k: ObjKey, zones: Map<Seq<char>, Seq<PlacementView>>, base: Set<ObjKey>, smaller: Set<ObjKey>)
    requires
        zones_stored(objs, k, zones, base),
        smaller.subset_of(base),
    ensures
        zones_stored(objs, k, zones, smaller),
{
    assert forall|name: Seq<char>| #[trigger] zones.contains_key(name) implies zone_field(objs, k, name, zones[name], smaller) by {
        assert(zone_field(objs, k, name, zones[name], base));
        match objs[k].fields[name] {
            Slot::Object(l) => {
                lemma_placements_base(objs, l, zones[name], base, smaller);
            },
            _ => {},
        }
    }
}

pub proof fn lemma_source_base(objs: Objects, k: ObjKey, s: SourceView, base: Set<ObjKey>, smaller: Set<ObjKey>)
    requires
        source_stored(objs, k, s, base),
        smaller.subset_of(base),
    ensures
        source_stored(objs, k, s, smaller),
{
    lemma_tokens_base(objs, objs[k].fields["tokens"@]->Object_0, s.tokens, base, smaller);
    lemma_tokens_base(objs, objs[k].fields["burned"@]->Object_0, s.burned, base, smaller);
}

/// The names of the fields that this version knows.
pub open spec fn known_names() -> Set<Seq<char>> {
    set!["stack"@, "zones"@, "source"@, "gameLoop"@, "rules"@, "agents"@, "version"@, "nullifiers"@]
}

/// `fields` has `name` exactly where `present` says so, and then holds an object there.
pub open spec fn object_where(fields: Map<Seq<char>, Slot>, name: Seq<char>, present: bool) -> bool {
    if present {
        fields.contains_key(name) && fields[name] is Object
    } else {
        !fields.contains_key(name)
    }
}

pub open spec fn stack_at(objs: Objects, fields: Map<Seq<char>, Slot>, s: Option<StackView>, base: Set<ObjKey>) -> bool {
    &&& object_where(fields, "stack"@, s is Some)
    &&& s is Some ==> !base.contains(fields["stack"@]->Object_0) && stack_stored(
        objs,
        fields["stack"@]->Object_0,
        s->0,
        base,
    )
}

pub open spec fn zones_at(objs: Objects, fields: Map<Seq<char>, Slot>, z: Option<Map<Seq<char>, Seq<PlacementView>>>, base: Set<ObjKey>) -> bool {
    &&& object_where(fields, "zones"@, z is Some)
    &&& z is Some ==> !base.contains(fields["zones"@]->Object_0) && zones_stored(
        objs,
        fields["zones"@]->Object_0,
        z->0,
        base,
    )
}

pub open spec fn source_at(objs: Objects, fields: Map<Seq<char>, Slot>, s: Option<SourceView>, base: Set<ObjKey>) -> bool {
    &&& object_where(fields, "source"@, s is Some)
    &&& s is Some ==> !base.contains(fields["source"@]->Object_0) && source_stored(
        objs,
        fields["source"@]->Object_0,
        s->0,
        base,
    )
}

pub open spec fn game_loop_at(objs: Objects, fields: Map<Seq<char>, Slot>, g: Option<GameLoopView>, base: Set<ObjKey>) -> bool {
    &&& object_where(fields, "gameLoop"@, g is Some)
    &&& g is Some ==> {
        let k = fields["gameLoop"@]->Object_0;
        !base.contains(k) && is_map(objs, k) && objs[k].fields == game_loop_over(Map::empty(), g->0)
    }
}

pub open spec fn rules_at(objs: Objects, fields: Map<Seq<char>, Slot>, r: Option<RuleView>, base: Set<ObjKey>) -> bool {
    &&& object_where(fields, "rules"@, r is Some)
    &&& r is Some ==> !base.contains(fields["rules"@]->Object_0) && rules_stored(
        objs,
        fields["rules"@]->Object_0,
        r->0,
        base,
    )
}

pub open spec fn agents_at(objs: Objects, fields: Map<Seq<char>, Slot>, a: Option<Map<Seq<char>, serde_json::Value>>, base: Set<ObjKey>) -> bool {
    &&& object_where(fields, "agents"@, a is Some)
    &&& a is Some ==> {
        let k = fields["agents"@]->Object_0;
        !base.contains(k) && is_map(objs, k) && objs[k].fields == agents_over(Map::empty(), a->0)
    }
}

pub open spec fn version_at(fields: Map<Seq<char>, Slot>, v: Option<Seq<char>>) -> bool {
    match v {
        Some(s) => fields.contains_key("version"@) && fields["version"@] == str_slot(s),
        None => !fields.contains_key("version"@),
    }
}

pub open spec fn nullifiers_at(objs: Objects, fields: Map<Seq<char>, Slot>, n: Option<Map<Seq<char>, i64>>, base: Set<ObjKey>) -> bool {
    &&& object_where(fields, "nullifiers"@, n is Some)
    &&& n is Some ==> {
        let k = fields["nullifiers"@]->Object_0;
        !base.contains(k) && is_map(objs, k) && objs[k].fields == stamps_over(Map::empty(), n->0)
    }
}

/// The name `n`, which is neither known nor among the unknown fields of the
/// state, is at the root of `post` as it was at the root of `pre`.
pub open spec fn carried_over(pre: Map<Seq<char>, Slot>, post: Map<Seq<char>, Slot>, n: Seq<char>) -> bool {
    post.contains_key(n) == pre.contains_key(n) && (pre.contains_key(n) ==> post[n] == pre[n])
}

/// What one write of the state `s` makes of a document: `pre` before it,
/// `post` after it.
///
/// Every object of `pre` but the root is untouched. At the root, each
/// unknown field of `s` holds the text of its value; each known field that
/// no unknown field of `s` shadows is absent where `s` has none, and else
/// holds what `s` has, in containers that `pre` did not have; every other
/// name is as it was.
pub open spec fn state_written(pre: Objects, post: Objects, s: StateView) -> bool {
    let f = post[root_key()].fields;
    let base = pre.dom();
    &&& is_map(pre, root_key())
    &&& grown_except(pre, post, root_key())
    &&& is_map(post, root_key())
    &&& forall|n: Seq<char>| #[trigger]
        s.extra.contains_key(n) ==> f.contains_key(n) && f[n] == str_slot(extra_text(s.extra[n]))
    &&& forall|n: Seq<char>|
        !s.extra.contains_key(n) && !known_names().contains(n) ==> #[trigger] carried_over(
            pre[root_key()].fields,
            f,
            n,
        )
    &&& !s.extra.contains_key("stack"@) ==> stack_at(post, f, s.stack, base)
    &&& !s.extra.contains_key("zones"@) ==> zones_at(post, f, s.zones, base)
    &&& !s.extra.contains_key("source"@) ==> source_at(post, f, s.source, base)
    &&& !s.extra.contains_key("gameLoop"@) ==> game_loop_at(post, f, s.game_loop, base)
    &&& !s.extra.contains_key("rules"@) ==> rules_at(post, f, s.rules, base)
    &&& !s.extra.contains_key("agents"@) ==> agents_at(post, f, s.agents, base)
    &&& !s.extra.contains_key("version"@) ==> version_at(f, s.version)
    &&& !s.extra.contains_key("nullifiers"@) ==> nullifiers_at(post, f, s.nullifiers, base)
}

/// The root's fields after one known field was written: set where the
/// state has the field, removed where it has none.
pub open spec fn root_field_set(pre: Objects, post: Objects, name: Seq<char>, present: bool) -> bool {
    let before = pre[root_key()].fields;
    let after = post[root_key()].fields;
    &&& grown_except(pre, post, root_key())
    &&& is_map(post, root_key())
    &&& if present {
        after.contains_key(name) && after == before.insert(name, after[name])
    } else {
        after == before.remove(name)
    }
}

fn write_stack_field(tx: &mut automerge::transaction::Transaction, stack: &Option<IStackState>) -> (r: Result<(), automerge::AutomergeError>)
    requires
        is_map(tx_objects(*old(tx)), root_key()),
    ensures
        r is Ok,
        root_field_set(tx_objects(*old(tx)), tx_objects(*final(tx)), "stack"@, stack is Some),
        stack_at(
            tx_objects(*final(tx)),
            tx_objects(*final(tx))[root_key()].fields,
            match *stack {
                Some(s) => Some(s@),
                None => None,
            },
            tx_objects(*old(tx)).dom(),
        ),
{
    let ghost pre = tx_objects(*tx);
    let top = root();
    match stack {
        Some(s) => {
            let id = tx_put_map(tx, &top, "stack")?;
            let ghost mid = tx_objects(*tx);
            write_stack_state_tx(tx, &id, s)?;
            proof {
                let after = tx_objects(*tx);
                assert(mid.contains_key(root_key()));
                assert(after[root_key()] == mid[root_key()]);
                lemma_stack_base(after, obj_key(id), s@, mid.dom(), pre.dom());
                assert forall|o: ObjKey| o != root_key() && #[trigger] pre.contains_key(o) implies after[o] == pre[o] by {
                    assert(mid.contains_key(o));
                }
            }
        },
        None => {
            let _ = tx_delete(tx, &top, "stack");
        },
    }
    Ok(())
}

fn write_zones_field(tx: &mut automerge::transaction::Transaction, zones: &Option<Vec<(String, Vec<IPlacementCRDT>)>>) -> (r: Result<(), automerge::AutomergeError>)
    requires
        is_map(tx_objects(*old(tx)), root_key()),
    ensures
        r is Ok,
        root_field_set(tx_objects(*old(tx)), tx_objects(*final(tx)), "zones"@, zones is Some),
        zones_at(
            tx_objects(*final(tx)),
            tx_objects(*final(tx))[root_key()].fields,
            match *zones {
                Some(z) => Some(entries_map(zones_view(z@))),
                None => None,
            },
            tx_objects(*old(tx)).dom(),
        ),
{
    let ghost pre = tx_objects(*tx);
    let top = root();
    match zones {
        Some(z) => {
            let id = tx_put_map(tx, &top, "zones")?;
            let ghost mid = tx_objects(*tx);
            write_zones_tx(tx, &id, z)?;
            proof {
                let after = tx_objects(*tx);
                assert(mid.contains_key(root_key()));
                assert(after[root_key()] == mid[root_key()]);
                lemma_zones_base(after, obj_key(id), entries_map(zones_view(z@)), mid.dom(), pre.dom());
                assert forall|o: ObjKey| o != root_key() && #[trigger] pre.contains_key(o) implies after[o] == pre[o] by {
                    assert(mid.contains_key(o));
                }
            }
        },
        None => {
            let _ = tx_delete(tx, &top, "zones");
        },
    }
    Ok(())
}

fn write_source_field(tx: &mut automerge::transaction::Transaction, source: &Option<ISourceState>) -> (r: Result<(), automerge::AutomergeError>)
    requires
        is_map(tx_objects(*old(tx)), root_key()),
    ensures
        r is Ok,
        root_field_set(tx_objects(*old(tx)), tx_objects(*final(tx)), "source"@, source is Some),
        source_at(
            tx_objects(*final(tx)),
            tx_objects(*final(tx))[root_key()].fields,
            match *source {
                Some(s) => Some(s@),
                None => None,
            },
            tx_objects(*old(tx)).dom(),
        ),
{
    let ghost pre = tx_objects(*tx);
    let top = root();
    match source {
        Some(s) => {
            let id = tx_put_map(tx, &top, "source")?;
            let ghost mid = tx_objects(*tx);
            write_source_state_tx(tx, &id, s)?;
            proof {
                let after = tx_objects(*tx);
                assert(mid.contains_key(root_key()));
                assert(after[root_key()] == mid[root_key()]);
                lemma_source_base(after, obj_key(id), s@, mid.dom(), pre.dom());
                assert forall|o: ObjKey| o != root_key() && #[trigger] pre.contains_key(o) implies after[o] == pre[o] by {
                    assert(mid.contains_key(o));
                }
            }
        },
        None => {
            let _ = tx_delete(tx, &top, "source");
        },
    }
    Ok(())
}

fn write_game_loop_field(tx: &mut automerge::transaction::Transaction, game_loop: &Option<IGameLoopState>) -> (r: Result<(), automerge::AutomergeError>)
    requires
        is_map(tx_objects(*old(tx)), root_key()),
    ensures
        r is Ok,
        root_field_set(tx_objects(*old(tx)), tx_objects(*final(tx)), "gameLoop"@, game_loop is Some),
        game_loop_at(
            tx_objects(*final(tx)),
            tx_objects(*final(tx))[root_key()].fields,
            match *game_loop {
                Some(g) => Some(g@),
                None => None,
            },
            tx_objects(*old(tx)).dom(),
        ),
{
    let ghost pre = tx_objects(*tx);
    let top = root();
    match game_loop {
        Some(g) => {
            let id = tx_put_map(tx, &top, "gameLoop")?;
            let ghost mid = tx_objects(*tx);
            write_game_loop_state_tx(tx, &id, g)?;
            proof {
                let after = tx_objects(*tx);
                assert(mid.contains_key(root_key()));
                assert(after[root_key()] == mid[root_key()]);
                assert forall|o: ObjKey| o != root_key() && #[trigger] pre.contains_key(o) implies after[o] == pre[o] by {
                    assert(mid.contains_key(o));
                }
            }
        },
        None => {
            let _ = tx_delete(tx, &top, "gameLoop");
        },
    }
    Ok(())
}

fn write_rules_field(tx: &mut automerge::transaction::Transaction, rules: &Option<IRuleState>) -> (r: Result<(), automerge::AutomergeError>)
    requires
        is_map(tx_objects(*old(tx)), root_key()),
    ensures
        r is Ok,
        root_field_set(tx_objects(*old(tx)), tx_objects(*final(tx)), "rules"@, rules is Some),
        rules_at(
            tx_objects(*final(tx)),
            tx_objects(*final(tx))[root_key()].fields,
            match *rules {
                Some(s) => Some(s@),
                None => None,
            },
            tx_objects(*old(tx)).dom(),
        ),
{
    let ghost pre = tx_objects(*tx);
    let top = root();
    match rules {
        Some(s) => {
            let id = tx_put_map(tx, &top, "rules")?;
            let ghost mid = tx_objects(*tx);
            write_rule_state_tx(tx, &id, s)?;
            proof {
                let after = tx_objects(*tx);
                assert(mid.contains_key(root_key()));
                assert(after[root_key()] == mid[root_key()]);
                assert forall|o: ObjKey| o != root_key() && #[trigger] pre.contains_key(o) implies after[o] == pre[o] by {
                    assert(mid.contains_key(o));
                }
            }
        },
        None => {
            let _ = tx_delete(tx, &top, "rules");
        },
    }
    Ok(())
}

fn write_agents_field(tx: &mut automerge::transaction::Transaction, agents: &Option<Vec<(String, serde_json::Value)>>) -> (r: Result<(), automerge::AutomergeError>)
    requires
        is_map(tx_objects(*old(tx)), root_key()),
    ensures
        r is Ok,
        root_field_set(tx_objects(*old(tx)), tx_objects(*final(tx)), "agents"@, agents is Some),
        agents_at(
            tx_objects(*final(tx)),
            tx_objects(*final(tx))[root_key()].fields,
            match *agents {
                Some(a) => Some(entries_map(values_view(a@))),
                None => None,
            },
            tx_objects(*old(tx)).dom(),
        ),
{
    let ghost pre = tx_objects(*tx);
    let top = root();
    match agents {
        Some(a) => {
            let id = tx_put_map(tx, &top, "agents")?;
            let ghost mid = tx_objects(*tx);
            write_agents_tx(tx, &id, a)?;
            proof {
                let after = tx_objects(*tx);
                assert(mid.contains_key(root_key()));
                assert(after[root_key()] == mid[root_key()]);
                assert(after[obj_key(id)].fields =~= agents_over(Map::empty(), entries_map(values_view(a@))));
                assert forall|o: ObjKey| o != root_key() && #[trigger] pre.contains_key(o) implies after[o] == pre[o] by {
                    assert(mid.contains_key(o));
                }
            }
        },
        None => {
            let _ = tx_delete(tx, &top, "agents");
        },
    }
    Ok(())
}

fn write_version_field(tx: &mut automerge::transaction::Transaction, version: &Option<String>) -> (r: Result<(), automerge::AutomergeError>)
    requires
        is_map(tx_objects(*old(tx)), root_key()),
    ensures
        r is Ok,
        root_field_set(tx_objects(*old(tx)), tx_objects(*final(tx)), "version"@, version is Some),
        version_at(tx_objects(*final(tx))[root_key()].fields, version.deep_view()),
{
    let top = root();
    match version {
        Some(v) => {
            tx_put(tx, &top, "version", scalar_str(v.as_str()))?;
        },
        None => {
            let _ = tx_delete(tx, &top, "version");
        },
    }
    Ok(())
}

fn write_nullifiers_field(tx: &mut automerge::transaction::Transaction, nullifiers: &Option<Vec<(String, i64)>>) -> (r: Result<(), automerge::AutomergeError>)
    requires
        is_map(tx_objects(*old(tx)), root_key()),
    ensures
        r is Ok,
        root_field_set(tx_objects(*old(tx)), tx_objects(*final(tx)), "nullifiers"@, nullifiers is Some),
        nullifiers_at(
            tx_objects(*final(tx)),
            tx_objects(*final(tx))[root_key()].fields,
            match *nullifiers {
                Some(n) => Some(entries_map(stamps_view(n@))),
                None => None,
            },
            tx_objects(*old(tx)).dom(),
        ),
{
    let ghost pre = tx_objects(*tx);
    let top = root();
    match nullifiers {
        Some(n) => {
            let id = tx_put_map(tx, &top, "nullifiers")?;
            let ghost mid = tx_objects(*tx);
            write_stamps_tx(tx, &id, n)?;
            proof {
                let after = tx_objects(*tx);
                assert(mid.contains_key(root_key()));
                assert(after[root_key()] == mid[root_key()]);
                assert(after[obj_key(id)].fields =~= stamps_over(Map::empty(), entries_map(stamps_view(n@))));
                assert forall|o: ObjKey| o != root_key() && #[trigger] pre.contains_key(o) implies after[o] == pre[o] by {
                    assert(mid.contains_key(o));
                }
            }
        },
        None => {
            let _ = tx_delete(tx, &top, "nullifiers");
        },
    }
    Ok(())
}

/// `Automerge::transact` with `write_state_tx` as its closure: one
/// transaction that is committed if the closure succeeds and rolled back
/// if it fails.
///
/// Believed, not proved: the transaction starts from what the document
/// holds, with a map at its root; a commit leaves the document with what
/// the transaction showed when the closure returned, and takes no change
/// away from it. `write_state_tx` is verified to succeed on such a
/// transaction and to leave it as `state_written` says, so this call
/// succeeds and leaves the document so. A commit adds at most one change,
/// which then is the only head, and touches no change that is held back.
#[verifier::external_body]
pub(crate) fn transact_state(doc: &mut automerge::Automerge, state: &HyperTokenState) -> (r: Result<(), automerge::AutomergeError>)
    ensures
        r is Ok,
        state_written(doc_objects(*old(doc)), doc_objects(*final(doc)), state@),
        doc_changes(*old(doc)).subset_of(doc_changes(*final(doc))),
        doc_pending(*final(doc)) == doc_pending(*old(doc)),
        doc_changes(*final(doc)) == doc_changes(*old(doc)) || (heads_of(doc_changes(*final(doc))).finite() && heads_of(
            doc_changes(*final(doc)),
        ).len() == 1),
{
    match doc.transact::<_, _, automerge::AutomergeError>(|tx| write_state_tx(tx, state)) {
        Ok(_) => Ok(()),
        Err(failure) => Err(failure.error),
    }
}

/// A name other than `name` is at the root of `post` as at the root of `pre`.
proof fn lemma_root_field_other(pre: Objects, post: Objects, name: Seq<char>, present: bool, other: Seq<char>)
    requires
        root_field_set(pre, post, name, present),
        other != name,
    ensures
        carried_over(pre[root_key()].fields, post[root_key()].fields, other),
{
}

/// Writes the whole state at the root of the document: the known fields
/// first, each replaced by new containers or removed where the state has
/// none, then the unknown ones, each as the text of its value.
pub fn write_state_tx(tx: &mut automerge::transaction::Transaction, state: &HyperTokenState) -> (r: Result<(), automerge::AutomergeError>)
    requires
        is_map(tx_objects(*old(tx)), root_key()),
    ensures
        r is Ok,
        state_written(tx_objects(*old(tx)), tx_objects(*final(tx)), state@),
{
    let ghost s0 = tx_objects(*tx);
    write_stack_field(tx, &state.stack)?;
    let ghost s1 = tx_objects(*tx);
    write_zones_field(tx, &state.zones)?;
    let ghost s2 = tx_objects(*tx);
    write_source_field(tx, &state.source)?;
    let ghost s3 = tx_objects(*tx);
    write_game_loop_field(tx, &state.gameLoop)?;
    let ghost s4 = tx_objects(*tx);
    write_rules_field(tx, &state.rules)?;
    let ghost s5 = tx_objects(*tx);
    write_agents_field(tx, &state.agents)?;
    let ghost s6 = tx_objects(*tx);
    write_version_field(tx, &state.version)?;
    let ghost s7 = tx_objects(*tx);
    write_nullifiers_field(tx, &state.nullifiers)?;
    let ghost s8 = tx_objects(*tx);
    let top = root();
    write_extras_tx(tx, &top, &state.extra)?;
    proof {
        let s9 = tx_objects(*tx);
        let r = root_key();
        let v = state@;
        let f = s9[r].fields;
        let base = s0.dom();
        lemma_keys();
        assert(grown_except(s8, s9, r));
        lemma_grown_trans(s7, s8, s9, r);
        lemma_grown_trans(s6, s7, s9, r);
        lemma_grown_trans(s5, s6, s9, r);
        lemma_grown_trans(s4, s5, s9, r);
        lemma_grown_trans(s3, s4, s9, r);
        lemma_grown_trans(s2, s3, s9, r);
        lemma_grown_trans(s1, s2, s9, r);
        lemma_grown_trans(s0, s1, s9, r);
        assert(f == extras_over(s8[r].fields, v.extra));

        assert forall|n: Seq<char>| !v.extra.contains_key(n) && !known_names().contains(n) implies #[trigger] carried_over(
            s0[r].fields,
            f,
            n,
        ) by {
            lemma_root_field_other(s0, s1, "stack"@, state.stack is Some, n);
            lemma_root_field_other(s1, s2, "zones"@, state.zones is Some, n);
            lemma_root_field_other(s2, s3, "source"@, state.source is Some, n);
            lemma_root_field_other(s3, s4, "gameLoop"@, state.gameLoop is Some, n);
            lemma_root_field_other(s4, s5, "rules"@, state.rules is Some, n);
            lemma_root_field_other(s5, s6, "agents"@, state.agents is Some, n);
            lemma_root_field_other(s6, s7, "version"@, state.version is Some, n);
            lemma_root_field_other(s7, s8, "nullifiers"@, state.nullifiers is Some, n);
        }

        if !v.extra.contains_key("stack"@) {
            let n = "stack"@;
            lemma_root_field_other(s1, s2, "zones"@, state.zones is Some, n);
            lemma_root_field_other(s2, s3, "source"@, state.source is Some, n);
            lemma_root_field_other(s3, s4, "gameLoop"@, state.gameLoop is Some, n);
            lemma_root_field_other(s4, s5, "rules"@, state.rules is Some, n);
            lemma_root_field_other(s5, s6, "agents"@, state.agents is Some, n);
            lemma_root_field_other(s6, s7, "version"@, state.version is Some, n);
            lemma_root_field_other(s7, s8, "nullifiers"@, state.nullifiers is Some, n);
            if v.stack is Some {
                lemma_stack_kept(s1, s9, s1[r].fields[n]->Object_0, v.stack->0, base, r);
            }
            assert(stack_at(s9, f, v.stack, base));
        }
        if !v.extra.contains_key("zones"@) {
            let n = "zones"@;
            lemma_root_field_other(s2, s3, "source"@, state.source is Some, n);
            lemma_root_field_other(s3, s4, "gameLoop"@, state.gameLoop is Some, n);
            lemma_root_field_other(s4, s5, "rules"@, state.rules is Some, n);
            lemma_root_field_other(s5, s6, "agents"@, state.agents is Some, n);
            lemma_root_field_other(s6, s7, "version"@, state.version is Some, n);
            lemma_root_field_other(s7, s8, "nullifiers"@, state.nullifiers is Some, n);
            if v.zones is Some {
                let k = s2[r].fields[n]->Object_0;
                lemma_zones_base(s2, k, v.zones->0, s1.dom(), base);
                lemma_zones_kept(s2, s9, k, v.zones->0, base, r);
            }
            assert(zones_at(s9, f, v.zones, base));
        }
        if !v.extra.contains_key("source"@) {
            let n = "source"@;
            lemma_root_field_other(s3, s4, "gameLoop"@, state.gameLoop is Some, n);
            lemma_root_field_other(s4, s5, "rules"@, state.rules is Some, n);
            lemma_root_field_other(s5, s6, "agents"@, state.agents is Some, n);
            lemma_root_field_other(s6, s7, "version"@, state.version is Some, n);
            lemma_root_field_other(s7, s8, "nullifiers"@, state.nullifiers is Some, n);
            if v.source is Some {
                let k = s3[r].fields[n]->Object_0;
                lemma_source_base(s3, k, v.source->0, s2.dom(), base);
                lemma_source_kept(s3, s9, k, v.source->0, base, r);
            }
            assert(source_at(s9, f, v.source, base));
        }
        if !v.extra.contains_key("gameLoop"@) {
            let n = "gameLoop"@;
            lemma_root_field_other(s4, s5, "rules"@, state.rules is Some, n);
            lemma_root_field_other(s5, s6, "agents"@, state.agents is Some, n);
            lemma_root_field_other(s6, s7, "version"@, state.version is Some, n);
            lemma_root_field_other(s7, s8, "nullifiers"@, state.nullifiers is Some, n);
            if v.game_loop is Some {
                let k = s4[r].fields[n]->Object_0;
                assert(s4.contains_key(k));
                assert(s9[k] == s4[k]);
            }
            assert(game_loop_at(s9, f, v.game_loop, base));
        }
        if !v.extra.contains_key("rules"@) {
            let n = "rules"@;
            lemma_root_field_other(s5, s6, "agents"@, state.agents is Some, n);
            lemma_root_field_other(s6, s7, "version"@, state.version is Some, n);
            lemma_root_field_other(s7, s8, "nullifiers"@, state.nullifiers is Some, n);
            if v.rules is Some {
                let k = s5[r].fields[n]->Object_0;
                assert(rules_stored(s5, k, v.rules->0, base));
                lemma_rules_kept(s5, s9, k, v.rules->0, base, r);
            }
            assert(rules_at(s9, f, v.rules, base));
        }
        if !v.extra.contains_key("agents"@) {
            let n = "agents"@;
            lemma_root_field_other(s6, s7, "version"@, state.version is Some, n);
            lemma_root_field_other(s7, s8, "nullifiers"@, state.nullifiers is Some, n);
            if v.agents is Some {
                let k = s6[r].fields[n]->Object_0;
                assert(s6.contains_key(k));
                assert(s9[k] == s6[k]);
            }
            assert(agents_at(s9, f, v.agents, base));
        }
        if !v.extra.contains_key("version"@) {
            let n = "version"@;
            lemma_root_field_other(s7, s8, "nullifiers"@, state.nullifiers is Some, n);
            assert(version_at(f, v.version));
        }
        if !v.extra.contains_key("nullifiers"@) {
            if v.nullifiers is Some {
                let k = s8[r].fields["nullifiers"@]->Object_0;
                assert(s8.contains_key(k));
                assert(s9[k] == s8[k]);
            }
            assert(nullifiers_at(s9, f, v.nullifiers, base));
        }
    }
    Ok(())
}

} // verus!

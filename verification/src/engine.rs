//! The replicated-document engine as the rest of the library sees it.
//!
//! A document is modelled by the set of changes it holds; what its readers
//! see is a tree of objects that the engine resolves from that set. The
//! functions marked `external_body` call the `automerge` crate and are
//! believed, not proved: each doc comment says what is claimed.

use vstd::prelude::*;
use automerge::sync::SyncDoc;
use automerge::transaction::Transactable;
use automerge::ReadDoc;

verus! {

#[verifier::external_type_specification]
#[verifier::external_body]
pub struct ExAutomerge(automerge::Automerge);

#[verifier::external_type_specification]
#[verifier::external_body]
pub struct ExTransaction<'a>(automerge::transaction::Transaction<'a>);

#[verifier::external_type_specification]
#[verifier::external_body]
pub struct ExObjId(automerge::ObjId);

#[verifier::external_type_specification]
#[verifier::external_body]
pub struct ExAutomergeError(automerge::AutomergeError);

#[verifier::external_type_specification]
#[verifier::external_body]
pub struct ExScalarValue(automerge::ScalarValue);

/// Identity of an object: the counter and the actor of the operation that
/// made it. The root is `(0, [])`.
pub type ObjKey = (int, Seq<u8>);

/// A value that is not a container.
pub ghost enum Scalar {
    Str(Seq<char>),
    Int(i64),
    Uint(u64),
    /// A 64-bit float, by its IEEE-754 bits.
    Real(u64),
    Bool(bool),
    /// Null, bytes, a counter, a timestamp, or a kind this library does not read.
    Other,
}

/// What sits under one key of a map or at one index of a list.
pub ghost enum Slot {
    Value(Scalar),
    Object(ObjKey),
}

pub ghost enum NodeKind {
    MapNode,
    ListNode,
    /// Text, a table, or any other kind.
    OtherNode,
}

/// One object, by what its readers observe.
pub ghost struct Node {
    pub kind: NodeKind,
    /// What a lookup by key finds.
    pub fields: Map<Seq<char>, Slot>,
    /// What a lookup by index finds, for each index below the length.
    pub items: Seq<Option<Slot>>,
    /// The keys in the order in which the engine enumerates them.
    pub keys: Seq<Seq<char>>,
}

/// The objects of a document, those no longer reachable from the root included.
pub type Objects = Map<ObjKey, Node>;

/// The identity of the object that `id` names.
pub uninterp spec fn obj_key(id: automerge::ObjId) -> ObjKey;

/// The scalar that `v` holds.
pub uninterp spec fn scalar_of(v: automerge::ScalarValue) -> Scalar;

/// The hashes of the changes that `doc` holds.
pub uninterp spec fn doc_changes(doc: automerge::Automerge) -> Set<Seq<u8>>;

/// The hashes of the changes that `doc` has taken in and not applied,
/// because a change that they depend on is missing.
pub uninterp spec fn doc_pending(doc: automerge::Automerge) -> Set<Seq<u8>>;

/// The heads of a set of changes: those that no other change of the set depends on.
pub uninterp spec fn heads_of(changes: Set<Seq<u8>>) -> Set<Seq<u8>>;

/// The hashes of the heads of `doc`.
pub open spec fn doc_heads(doc: automerge::Automerge) -> Set<Seq<u8>> {
    heads_of(doc_changes(doc))
}

/// The objects that the engine resolves from a set of changes. Conflicts are
/// settled by the engine's own rule, which depends on the changes alone.
pub uninterp spec fn resolved(changes: Set<Seq<u8>>) -> Objects;

/// The objects that a transaction shows, its own pending writes included.
pub uninterp spec fn tx_objects(tx: automerge::transaction::Transaction) -> Objects;

/// The changes that a document loaded from a snapshot has applied, or
/// `None` where the engine rejects the bytes. The document itself is not
/// named: each load makes it under an actor of its own.
pub uninterp spec fn snapshot_changes(bytes: Seq<u8>) -> Option<Set<Seq<u8>>>;

/// The changes that a document loaded from a snapshot holds back.
pub uninterp spec fn snapshot_pending(bytes: Seq<u8>) -> Set<Seq<u8>>;

/// The changes of a document loaded from a snapshot, or `None` where the
/// engine rejects the bytes.
pub open spec fn decoded(bytes: Seq<u8>) -> Option<Set<Seq<u8>>> {
    snapshot_changes(bytes)
}

/// Whether a snapshot loads, and to a document that holds no change back.
pub open spec fn decoded_settled(bytes: Seq<u8>) -> bool {
    snapshot_changes(bytes) is Some && snapshot_pending(bytes) == Set::<Seq<u8>>::empty()
}

/// `doc` is a document as loading the snapshot gives it.
pub open spec fn loaded_from(doc: automerge::Automerge, bytes: Seq<u8>) -> bool {
    snapshot_changes(bytes) == Some(doc_changes(doc)) && snapshot_pending(bytes) == doc_pending(doc)
}

/// The document that merging `other` into `doc` gives, or `None` where
/// the engine refuses to merge them.
pub uninterp spec fn merged(doc: automerge::Automerge, other: automerge::Automerge) -> Option<automerge::Automerge>;

pub open spec fn doc_objects(doc: automerge::Automerge) -> Objects {
    resolved(doc_changes(doc))
}

pub open spec fn root_key() -> ObjKey {
    (0int, Seq::<u8>::empty())
}

pub open spec fn is_map(objs: Objects, k: ObjKey) -> bool {
    objs.contains_key(k) && objs[k].kind == NodeKind::MapNode
}

pub open spec fn is_list(objs: Objects, k: ObjKey) -> bool {
    objs.contains_key(k) && objs[k].kind == NodeKind::ListNode
}

/// What a lookup of `name` in the object `k` finds.
pub open spec fn field_at(objs: Objects, k: ObjKey, name: Seq<char>) -> Option<Slot> {
    if objs.contains_key(k) && objs[k].fields.contains_key(name) {
        Some(objs[k].fields[name])
    } else {
        None
    }
}

/// What lookups by index in the object `k` find; empty where `k` is no object.
pub open spec fn items_at(objs: Objects, k: ObjKey) -> Seq<Option<Slot>> {
    if objs.contains_key(k) {
        objs[k].items
    } else {
        Seq::empty()
    }
}

/// The keys that the engine enumerates for `k`; empty where `k` is no object.
pub open spec fn keys_at(objs: Objects, k: ObjKey) -> Seq<Seq<char>> {
    if objs.contains_key(k) {
        objs[k].keys
    } else {
        Seq::empty()
    }
}

/// A document with nothing in it: the root alone, an empty map.
pub open spec fn is_blank(objs: Objects) -> bool {
    &&& objs.dom() == set![root_key()]
    &&& is_empty_node(objs[root_key()], NodeKind::MapNode)
}

pub open spec fn is_empty_node(n: Node, kind: NodeKind) -> bool {
    &&& n.kind == kind
    &&& n.fields == Map::<Seq<char>, Slot>::empty()
    &&& n.items == Seq::<Option<Slot>>::empty()
    &&& n.keys == Seq::<Seq<char>>::empty()
}

/// `post` is `pre` but for the object `k`.
pub open spec fn same_except(pre: Objects, post: Objects, k: ObjKey) -> bool {
    &&& post.dom() == pre.dom()
    &&& forall|o: ObjKey| o != k && #[trigger] pre.contains_key(o) ==> post[o] == pre[o]
}

/// `post` is `pre` with the key `name` of the map `k` set to `slot`.
pub open spec fn field_set(pre: Objects, post: Objects, k: ObjKey, name: Seq<char>, slot: Slot) -> bool {
    &&& same_except(pre, post, k)
    &&& post[k].kind == NodeKind::MapNode
    &&& post[k].fields == pre[k].fields.insert(name, slot)
}

/// `post` is `pre` with the key `name` of the map `k` removed.
pub open spec fn field_removed(pre: Objects, post: Objects, k: ObjKey, name: Seq<char>) -> bool {
    &&& same_except(pre, post, k)
    &&& post[k].kind == NodeKind::MapNode
    &&& post[k].fields == pre[k].fields.remove(name)
}

/// `post` is `pre` with a new, empty object `fresh` of kind `kind`, and
/// with `k` changed in some way.
pub open spec fn object_added(pre: Objects, post: Objects, k: ObjKey, fresh: ObjKey, kind: NodeKind) -> bool {
    &&& !pre.contains_key(fresh)
    &&& post.dom() == pre.dom().insert(fresh)
    &&& forall|o: ObjKey| o != k && #[trigger] pre.contains_key(o) ==> post[o] == pre[o]
    &&& is_empty_node(post[fresh], kind)
}

/// `post` is `pre` with a new, empty object `fresh` put under the key `name` of the map `k`.
pub open spec fn object_put(pre: Objects, post: Objects, k: ObjKey, name: Seq<char>, fresh: ObjKey, kind: NodeKind) -> bool {
    &&& object_added(pre, post, k, fresh, kind)
    &&& post[k].kind == NodeKind::MapNode
    &&& post[k].fields == pre[k].fields.insert(name, Slot::Object(fresh))
}

/// `post` is `pre` with `slot` inserted at `index` of the list `k`.
pub open spec fn item_inserted(pre: Objects, post: Objects, k: ObjKey, index: int, slot: Slot) -> bool {
    &&& same_except(pre, post, k)
    &&& post[k].kind == NodeKind::ListNode
    &&& post[k].items == pre[k].items.insert(index, Some(slot))
}

/// `post` is `pre` with a new, empty map `fresh` inserted at `index` of the list `k`.
pub open spec fn object_inserted(pre: Objects, post: Objects, k: ObjKey, index: int, fresh: ObjKey) -> bool {
    &&& object_added(pre, post, k, fresh, NodeKind::MapNode)
    &&& post[k].kind == NodeKind::ListNode
    &&& post[k].items == pre[k].items.insert(index, Some(Slot::Object(fresh)))
}

/// A scalar as read from a document.
pub enum Cell {
    Str(String),
    Int(i64),
    Uint(u64),
    /// A 64-bit float, by its IEEE-754 bits.
    Real(u64),
    Bool(bool),
    Other,
}

impl View for Cell {
    type V = Scalar;

    open spec fn view(&self) -> Scalar {
        match self {
            Cell::Str(s) => Scalar::Str(s@),
            Cell::Int(v) => Scalar::Int(*v),
            Cell::Uint(v) => Scalar::Uint(*v),
            Cell::Real(v) => Scalar::Real(*v),
            Cell::Bool(v) => Scalar::Bool(*v),
            Cell::Other => Scalar::Other,
        }
    }
}

/// What a lookup found: the scalar, where it is one, and the identifier that
/// the engine returns with it.
pub struct Found {
    pub scalar: Option<automerge::ScalarValue>,
    pub id: automerge::ObjId,
}

impl Found {
    /// `self` is what a lookup returns where the document holds `slot`. The
    /// identifier that comes with a scalar names no object.
    pub open spec fn shows(&self, objs: Objects, slot: Slot) -> bool {
        match slot {
            Slot::Value(s) => self.scalar is Some && scalar_of(self.scalar->0) == s && !objs.contains_key(
                obj_key(self.id),
            ),
            Slot::Object(k) => self.scalar is None && obj_key(self.id) == k,
        }
    }
}

pub open spec fn found_shows(r: Option<Found>, objs: Objects, slot: Option<Slot>) -> bool {
    match slot {
        Some(s) => r is Some && r->0.shows(objs, s),
        None => r is None,
    }
}

/// `Clone` for a scalar: the copy is the scalar.
pub assume_specification[ <automerge::ScalarValue as Clone>::clone ](v: &automerge::ScalarValue) -> (r: automerge::ScalarValue)
    ensures
        r == *v,
;

/// `Clone` for a document: the copy is the document.
pub assume_specification[ <automerge::Automerge as Clone>::clone ](doc: &automerge::Automerge) -> (r: automerge::Automerge)
    ensures
        r == *doc,
;

/// `automerge::ROOT`, the identifier of the root map.
#[verifier::external_body]
pub(crate) fn root() -> (r: automerge::ObjId)
    ensures
        obj_key(r) == root_key(),
{
    automerge::ROOT
}

/// `Automerge::new`: a document without changes, which resolves to an empty root map.
#[verifier::external_body]
pub(crate) fn doc_new() -> (r: automerge::Automerge)
    ensures
        doc_changes(r) == Set::<Seq<u8>>::empty(),
        doc_pending(r) == Set::<Seq<u8>>::empty(),
        heads_of(doc_changes(r)) == Set::<Seq<u8>>::empty(),
        is_blank(resolved(doc_changes(r))),
{
    automerge::Automerge::new()
}

/// `ReadDoc::get` on a document with a string key. `None` where `obj` is no
/// object of the document or has nothing visible under `key`, and on an
/// engine error.
#[verifier::external_body]
pub(crate) fn doc_get(doc: &automerge::Automerge, obj: &automerge::ObjId, key: &str) -> (r: Option<Found>)
    ensures
        found_shows(r, doc_objects(*doc), field_at(doc_objects(*doc), obj_key(*obj), key@)),
{
    match doc.get(obj, key) {
        Ok(Some((automerge::Value::Scalar(s), id))) => Some(Found { scalar: Some(s.into_owned()), id }),
        Ok(Some((_, id))) => Some(Found { scalar: None, id }),
        _ => None,
    }
}

/// `ReadDoc::get` on a document with an index below the object's length.
#[verifier::external_body]
pub(crate) fn doc_get_at(doc: &automerge::Automerge, obj: &automerge::ObjId, index: usize) -> (r: Option<Found>)
    requires
        index < items_at(doc_objects(*doc), obj_key(*obj)).len(),
    ensures
        found_shows(r, doc_objects(*doc), items_at(doc_objects(*doc), obj_key(*obj))[index as int]),
{
    match doc.get(obj, index) {
        Ok(Some((automerge::Value::Scalar(s), id))) => Some(Found { scalar: Some(s.into_owned()), id }),
        Ok(Some((_, id))) => Some(Found { scalar: None, id }),
        _ => None,
    }
}

/// `ReadDoc::length`: the number of indices at which a lookup is defined;
/// 0 where `obj` is no object of the document.
#[verifier::external_body]
pub(crate) fn doc_length(doc: &automerge::Automerge, obj: &automerge::ObjId) -> (r: usize)
    ensures
        r == items_at(doc_objects(*doc), obj_key(*obj)).len(),
{
    doc.length(obj)
}

/// `ReadDoc::map_range` over all keys, the keys alone. For a map these are
/// the keys under which a lookup finds something, each once.
#[verifier::external_body]
pub(crate) fn doc_keys(doc: &automerge::Automerge, obj: &automerge::ObjId) -> (r: Vec<String>)
    ensures
        r.deep_view() == keys_at(doc_objects(*doc), obj_key(*obj)),
        is_map(doc_objects(*doc), obj_key(*obj)) ==> r.deep_view().no_duplicates()
            && r.deep_view().to_set() == doc_objects(*doc)[obj_key(*obj)].fields.dom(),
{
    doc.map_range(obj, ..).map(|item| item.key.to_string()).collect()
}

/// `ScalarValue::from` on a string.
#[verifier::external_body]
pub(crate) fn scalar_str(value: &str) -> (r: automerge::ScalarValue)
    ensures
        scalar_of(r) == Scalar::Str(value@),
{
    automerge::ScalarValue::from(value)
}

/// `ScalarValue::from` on a signed integer.
#[verifier::external_body]
pub(crate) fn scalar_int(value: i64) -> (r: automerge::ScalarValue)
    ensures
        scalar_of(r) == Scalar::Int(value),
{
    automerge::ScalarValue::from(value)
}

/// `ScalarValue::from` on a boolean.
#[verifier::external_body]
pub(crate) fn scalar_bool(value: bool) -> (r: automerge::ScalarValue)
    ensures
        scalar_of(r) == Scalar::Bool(value),
{
    automerge::ScalarValue::from(value)
}

/// Tells the variants of `ScalarValue` apart and hands out what each holds.
#[verifier::external_body]
pub(crate) fn scalar_cell(value: &automerge::ScalarValue) -> (r: Cell)
    ensures
        r@ == scalar_of(*value),
{
    match value {
        automerge::ScalarValue::Str(v) => Cell::Str(v.to_string()),
        automerge::ScalarValue::Int(v) => Cell::Int(*v),
        automerge::ScalarValue::Uint(v) => Cell::Uint(*v),
        automerge::ScalarValue::F64(v) => Cell::Real(v.to_bits()),
        automerge::ScalarValue::Boolean(v) => Cell::Bool(*v),
        _ => Cell::Other,
    }
}

/// `Transactable::put` with a string key. It succeeds exactly on a map of
/// the document, and sets the key to the scalar.
#[verifier::external_body]
pub(crate) fn tx_put(tx: &mut automerge::transaction::Transaction, obj: &automerge::ObjId, key: &str, value: automerge::ScalarValue) -> (r: Result<(), automerge::AutomergeError>)
    ensures
        r is Ok <==> is_map(tx_objects(*old(tx)), obj_key(*obj)),
        r is Ok ==> field_set(tx_objects(*old(tx)), tx_objects(*final(tx)), obj_key(*obj), key@, Slot::Value(scalar_of(value))),
        r is Err ==> tx_objects(*final(tx)) == tx_objects(*old(tx)),
{
    tx.put(obj, key, value)
}

/// `Transactable::put_object` with a string key and `ObjType::Map`: a new,
/// empty map takes the place of whatever the key held.
#[verifier::external_body]
pub(crate) fn tx_put_map(tx: &mut automerge::transaction::Transaction, obj: &automerge::ObjId, key: &str) -> (r: Result<automerge::ObjId, automerge::AutomergeError>)
    ensures
        r is Ok <==> is_map(tx_objects(*old(tx)), obj_key(*obj)),
        r is Ok ==> object_put(tx_objects(*old(tx)), tx_objects(*final(tx)), obj_key(*obj), key@, obj_key(r->Ok_0), NodeKind::MapNode),
        r is Err ==> tx_objects(*final(tx)) == tx_objects(*old(tx)),
{
    tx.put_object(obj, key, automerge::ObjType::Map)
}

/// `Transactable::put_object` with a string key and `ObjType::List`.
#[verifier::external_body]
pub(crate) fn tx_put_list(tx: &mut automerge::transaction::Transaction, obj: &automerge::ObjId, key: &str) -> (r: Result<automerge::ObjId, automerge::AutomergeError>)
    ensures
        r is Ok <==> is_map(tx_objects(*old(tx)), obj_key(*obj)),
        r is Ok ==> object_put(tx_objects(*old(tx)), tx_objects(*final(tx)), obj_key(*obj), key@, obj_key(r->Ok_0), NodeKind::ListNode),
        r is Err ==> tx_objects(*final(tx)) == tx_objects(*old(tx)),
{
    tx.put_object(obj, key, automerge::ObjType::List)
}

/// `Transactable::insert` of a scalar into a list, at an index up to its
/// length. Only lists are spoken of: the engine inserts into text too.
#[verifier::external_body]
pub(crate) fn tx_insert(tx: &mut automerge::transaction::Transaction, obj: &automerge::ObjId, index: usize, value: automerge::ScalarValue) -> (r: Result<(), automerge::AutomergeError>)
    requires
        is_list(tx_objects(*old(tx)), obj_key(*obj)),
    ensures
        index <= tx_objects(*old(tx))[obj_key(*obj)].items.len() ==> r is Ok,
        r is Ok ==> item_inserted(tx_objects(*old(tx)), tx_objects(*final(tx)), obj_key(*obj), index as int, Slot::Value(scalar_of(value))),
        r is Err ==> tx_objects(*final(tx)) == tx_objects(*old(tx)),
{
    tx.insert(obj, index, value)
}

/// `Transactable::insert_object` of a new, empty map into a list, at an
/// index up to its length. Only lists are spoken of.
#[verifier::external_body]
pub(crate) fn tx_insert_map(tx: &mut automerge::transaction::Transaction, obj: &automerge::ObjId, index: usize) -> (r: Result<automerge::ObjId, automerge::AutomergeError>)
    requires
        is_list(tx_objects(*old(tx)), obj_key(*obj)),
    ensures
        index <= tx_objects(*old(tx))[obj_key(*obj)].items.len() ==> r is Ok,
        r is Ok ==> object_inserted(tx_objects(*old(tx)), tx_objects(*final(tx)), obj_key(*obj), index as int, obj_key(r->Ok_0)),
        r is Err ==> tx_objects(*final(tx)) == tx_objects(*old(tx)),
{
    tx.insert_object(obj, index, automerge::ObjType::Map)
}

/// `Transactable::delete` with a string key. On a map it succeeds, whether
/// or not the key was there.
#[verifier::external_body]
pub(crate) fn tx_delete(tx: &mut automerge::transaction::Transaction, obj: &automerge::ObjId, key: &str) -> (r: Result<(), automerge::AutomergeError>)
    ensures
        is_map(tx_objects(*old(tx)), obj_key(*obj)) ==> r is Ok
            && field_removed(tx_objects(*old(tx)), tx_objects(*final(tx)), obj_key(*obj), key@),
        r is Err ==> tx_objects(*final(tx)) == tx_objects(*old(tx)),
{
    tx.delete(obj, key)
}

/// `Automerge::save`: a snapshot from which the engine loads a document
/// with the same changes, those held back included.
#[verifier::external_body]
pub(crate) fn doc_save(doc: &automerge::Automerge) -> (r: Vec<u8>)
    ensures
        snapshot_changes(r@) == Some(doc_changes(*doc)),
        snapshot_pending(r@) == doc_pending(*doc),
{
    doc.save()
}

/// `Automerge::load`: a document with the changes of the snapshot. Which
/// changes it holds depends on the bytes alone; the document does not.
#[verifier::external_body]
pub(crate) fn doc_load(data: &[u8]) -> (r: Result<automerge::Automerge, automerge::AutomergeError>)
    ensures
        match r {
            Ok(doc) => snapshot_changes(data@) == Some(doc_changes(doc)) && snapshot_pending(data@) == doc_pending(
                doc,
            ),
            Err(_) => snapshot_changes(data@) is None,
        },
{
    automerge::Automerge::load(data)
}

/// `Automerge::merge`: the changes that `other` has applied and `doc`
/// has not are applied to `doc`, and then those that `doc` held back and
/// that have become ready. Whether the engine merges the two, and what
/// comes of it, depends on the two documents alone. On success `doc`
/// holds the changes of both, and exactly those where it held none back.
/// Where `doc` has applied every change of `other` there is nothing to
/// apply: the merge succeeds and `doc` keeps its changes. Whatever
/// happens, it loses none.
#[verifier::external_body]
pub(crate) fn doc_merge(doc: &mut automerge::Automerge, other: &mut automerge::Automerge) -> (r: Result<(), automerge::AutomergeError>)
    ensures
        match merged(*old(doc), *old(other)) {
            Some(d) => r is Ok && *final(doc) == d,
            None => r is Err,
        },
        doc_changes(*final(other)) == doc_changes(*old(other)),
        doc_changes(*old(doc)).subset_of(doc_changes(*final(doc))),
        r is Ok ==> doc_changes(*old(other)).subset_of(doc_changes(*final(doc))),
        r is Ok && doc_pending(*old(doc)) == Set::<Seq<u8>>::empty() ==> doc_changes(*final(doc)) == doc_changes(
            *old(doc),
        ).union(doc_changes(*old(other))) && doc_pending(*final(doc)) == Set::<Seq<u8>>::empty(),
        doc_changes(*old(other)).subset_of(doc_changes(*old(doc))) ==> r is Ok && doc_changes(*final(doc))
            == doc_changes(*old(doc)) && doc_pending(*final(doc)) == doc_pending(*old(doc)),
{
    doc.merge(other).map(|_| ())
}

/// `Automerge::get_heads`, each hash by its bytes: the heads of the
/// changes that the document has applied, each once.
#[verifier::external_body]
pub(crate) fn doc_head_hashes(doc: &automerge::Automerge) -> (r: Vec<[u8; 32]>)
    ensures
        r.deep_view().no_duplicates(),
        r.deep_view().to_set() == heads_of(doc_changes(*doc)),
{
    doc.get_heads().into_iter().map(|h| h.0).collect()
}

/// What a document knows of one peer's progress: the engine's own record.
#[verifier::external_type_specification]
#[verifier::external_body]
pub struct ExSyncState(automerge::sync::State);

/// One message of the synchronisation protocol.
#[verifier::external_type_specification]
#[verifier::external_body]
pub struct ExSyncMessage(automerge::sync::Message);

#[verifier::external_type_specification]
#[verifier::external_body]
pub struct ExDecodeStateError(automerge::sync::DecodeStateError);

#[verifier::external_type_specification]
#[verifier::external_body]
pub struct ExReadMessageError(automerge::sync::ReadMessageError);

/// The session that stored bytes decode to, or `None` where the engine rejects them.
pub uninterp spec fn session_of(bytes: Seq<u8>) -> Option<automerge::sync::State>;

/// The message that received bytes decode to, or `None` where the engine rejects them.
pub uninterp spec fn message_of(bytes: Seq<u8>) -> Option<automerge::sync::Message>;

/// Whether a session is the one that `sync::State::new` makes: the
/// session with a peer of which nothing is known yet.
pub uninterp spec fn is_fresh(session: automerge::sync::State) -> bool;

/// The bytes that `sync::State::encode` writes for a session.
pub uninterp spec fn session_bytes(session: automerge::sync::State) -> Seq<u8>;

/// The bytes that `sync::Message::encode` writes for a message.
pub uninterp spec fn message_bytes(message: automerge::sync::Message) -> Seq<u8>;

/// The message that the engine generates from a document for the peer of
/// a session, or `None` where it has nothing to send.
pub uninterp spec fn generated(doc: automerge::Automerge, session: automerge::sync::State) -> Option<automerge::sync::Message>;

/// The session after the engine has generated from a document for its peer.
pub uninterp spec fn session_generated(doc: automerge::Automerge, session: automerge::sync::State) -> automerge::sync::State;

/// The document after the engine has received a message from the peer of
/// a session, or `None` where it refuses the message.
pub uninterp spec fn received(doc: automerge::Automerge, session: automerge::sync::State, message: automerge::sync::Message) -> Option<automerge::Automerge>;

/// The session after the engine has received a message from its peer.
pub uninterp spec fn session_received(doc: automerge::Automerge, session: automerge::sync::State, message: automerge::sync::Message) -> automerge::sync::State;

/// `sync::State::new`: the session with a peer of which nothing is known yet.
#[verifier::external_body]
pub(crate) fn session_new() -> (r: automerge::sync::State)
    ensures
        is_fresh(r),
{
    automerge::sync::State::new()
}

/// `sync::State::decode`.
#[verifier::external_body]
pub(crate) fn session_decode(bytes: &[u8]) -> (r: Result<automerge::sync::State, automerge::sync::DecodeStateError>)
    ensures
        match r {
            Ok(s) => session_of(bytes@) == Some(s),
            Err(_) => session_of(bytes@) is None,
        },
{
    automerge::sync::State::decode(bytes)
}

/// `sync::State::encode`.
#[verifier::external_body]
pub(crate) fn session_encode(state: &automerge::sync::State) -> (r: Vec<u8>)
    ensures
        r@ == session_bytes(*state),
{
    state.encode()
}

/// `sync::Message::decode`.
#[verifier::external_body]
pub(crate) fn message_decode(bytes: &[u8]) -> (r: Result<automerge::sync::Message, automerge::sync::ReadMessageError>)
    ensures
        match r {
            Ok(m) => message_of(bytes@) == Some(m),
            Err(_) => message_of(bytes@) is None,
        },
{
    automerge::sync::Message::decode(bytes)
}

/// `sync::Message::encode`.
#[verifier::external_body]
pub(crate) fn message_encode(message: automerge::sync::Message) -> (r: Vec<u8>)
    ensures
        r@ == message_bytes(message),
{
    message.encode()
}

/// `SyncDoc::generate_sync_message`: the next message for the peer of this
/// session, or `None` where there is nothing to send now. The session is
/// updated; the document is only read. Message and new session depend on
/// the document and the session alone.
#[verifier::external_body]
pub(crate) fn sync_generate(doc: &automerge::Automerge, state: &mut automerge::sync::State) -> (r: Option<automerge::sync::Message>)
    ensures
        r == generated(*doc, *old(state)),
        *final(state) == session_generated(*doc, *old(state)),
{
    doc.generate_sync_message(state)
}

/// `SyncDoc::receive_sync_message`: applies the changes that the message
/// brings and updates the session. Whether the engine takes the message,
/// and what document and session come of it, depends on the document, the
/// session and the message alone. Whether it succeeds or fails, the
/// document loses no change.
#[verifier::external_body]
pub(crate) fn sync_receive(doc: &mut automerge::Automerge, state: &mut automerge::sync::State, message: automerge::sync::Message) -> (r: Result<(), automerge::AutomergeError>)
    ensures
        match received(*old(doc), *old(state), message) {
            Some(d) => r is Ok && *final(doc) == d && *final(state) == session_received(*old(doc), *old(state), message),
            None => r is Err,
        },
        doc_changes(*old(doc)).subset_of(doc_changes(*final(doc))),
{
    doc.receive_sync_message(state, message)
}

/// The engine's description of an error, for a message to people.
#[verifier::external_body]
pub(crate) fn error_text(e: &automerge::AutomergeError) -> String {
    format!("{:?}", e)
}

/// The engine's description of a session it could not decode.
#[verifier::external_body]
pub(crate) fn session_error_text(e: &automerge::sync::DecodeStateError) -> String {
    format!("{:?}", e)
}

/// The engine's description of a message it could not decode.
#[verifier::external_body]
pub(crate) fn message_error_text(e: &automerge::sync::ReadMessageError) -> String {
    format!("{:?}", e)
}

} // verus!

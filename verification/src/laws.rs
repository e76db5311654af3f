//! What reading gives back after writing.
//!
//! A value that was written and is read again comes back as its echo: a
//! JSON part has gone through its text, and a coordinate that is no
//! number is gone. Where every JSON part of a state survives its text, the
//! echo of the state is the state itself.

use vstd::prelude::*;
use crate::chronicle::Chronicle;
use crate::engine::{root_key, ObjKey, Objects, Slot};
use crate::json::{text_object, text_strings, text_value};
use crate::keys::lemma_keys;
use crate::reader::{
    agents_from, as_number, fields_of, game_loop_from, int_in, list_or_empty, names_at, object_or_empty,
    placement_from, placements_read, rules_from, source_from, stack_from, stamps_from, state_read, str_in,
    strings_read, token_from, tokens_in, tokens_read, value_or_string, zones_from,
};
use crate::types::{GameLoopView, PlacementView, RuleView, SourceView, StackView, StateView, TokenView};
use crate::writer::{
    agent_text, agents_at, agents_over, carried_over, extra_text, game_loop_at, game_loop_over, known_names,
    list_text, meta_text, nullifiers_at, placement_fields, placement_item, placement_stored, placements_stored,
    rules_at, rules_stored, source_at, source_stored, stack_at, stack_stored, stamps_over, state_written, str_items,
    str_slot, token_fields, token_item, token_list_field, tokens_stored, version_at, zone_field, zones_at,
    zones_stored,
};

verus! {

/// A list of strings after it has gone through its text.
pub open spec fn strings_echo(l: Option<Seq<Seq<char>>>) -> Option<Seq<Seq<char>>> {
    match l {
        Some(v) => text_strings(list_text(v)),
        None => None,
    }
}

/// A list of JSON values after it has gone through its text.
pub open spec fn items_echo(l: Option<Seq<serde_json::Value>>) -> Option<Seq<serde_json::Value>> {
    match l {
        Some(v) => crate::reader::items_read(Some(crate::writer::items_text(v))),
        None => None,
    }
}

/// A token as it is read after it was written.
pub open spec fn token_echo(t: TokenView) -> TokenView {
    TokenView {
        meta: object_or_empty(Some(meta_text(t.meta))),
        tags: strings_echo(t.tags),
        attachments: items_echo(t.attachments),
        merged_from: strings_echo(t.merged_from),
        split_into: strings_echo(t.split_into),
        ..t
    }
}

/// What a lookup of `n` finds in `m`.
pub open spec fn lookup(m: Map<Seq<char>, Slot>, n: Seq<char>) -> Option<Slot> {
    if m.contains_key(n) {
        Some(m[n])
    } else {
        None
    }
}

/// `slot` where `n` is `name` and there is one, else `rest`.
pub open spec fn pick(n: Seq<char>, name: Seq<char>, slot: Option<Slot>, rest: Option<Slot>) -> Option<Slot> {
    if n == name && slot is Some {
        slot
    } else {
        rest
    }
}

/// What a lookup of `n` finds in a map that holds the token `t` and
/// nothing else.
pub open spec fn token_slot(t: TokenView, n: Seq<char>) -> Option<Slot> {
    let s = pick(n, "id"@, Some(str_slot(t.id)), None);
    let s = pick(n, "label"@, crate::writer::opt_str_slot(t.label), s);
    let s = pick(n, "group"@, crate::writer::opt_str_slot(t.group), s);
    let s = pick(n, "text"@, Some(str_slot(t.text)), s);
    let s = pick(n, "char"@, Some(str_slot(t.glyph)), s);
    let s = pick(n, "kind"@, Some(str_slot(t.kind)), s);
    let s = pick(n, "index"@, Some(crate::writer::int_slot(t.index as int)), s);
    let s = pick(n, "meta"@, Some(str_slot(meta_text(t.meta))), s);
    let s = pick(n, "_rev"@, crate::writer::opt_bool_slot(t.rev), s);
    let s = pick(n, "_tags"@, crate::writer::opt_list_slot(t.tags), s);
    let s = pick(n, "_attachedTo"@, crate::writer::opt_str_slot(t.attached_to), s);
    let s = pick(n, "_attachmentType"@, crate::writer::opt_str_slot(t.attachment_type), s);
    let s = pick(n, "_merged"@, crate::writer::opt_bool_slot(t.merged), s);
    let s = pick(n, "_mergedInto"@, crate::writer::opt_str_slot(t.merged_into), s);
    let s = pick(n, "_mergedFrom"@, crate::writer::opt_list_slot(t.merged_from), s);
    let s = pick(n, "_mergedAt"@, crate::writer::opt_i64_slot(t.merged_at), s);
    let s = pick(n, "_split"@, crate::writer::opt_bool_slot(t.split), s);
    let s = pick(n, "_splitInto"@, crate::writer::opt_list_slot(t.split_into), s);
    let s = pick(n, "_splitFrom"@, crate::writer::opt_str_slot(t.split_from), s);
    let s = pick(n, "_splitIndex"@, crate::writer::opt_i32_slot(t.split_index), s);
    let s = pick(n, "_splitAt"@, crate::writer::opt_i64_slot(t.split_at), s);
    pick(n, "_attachments"@, crate::writer::opt_items_slot(t.attachments), s)
}

/// Setting a name where there is something to set changes what a lookup
/// of that name finds, and of no other.
proof fn lemma_with_opt(m: Map<Seq<char>, Slot>, name: Seq<char>, slot: Option<Slot>, n: Seq<char>)
    ensures
        lookup(crate::writer::with_opt(m, name, slot), n) == pick(n, name, slot, lookup(m, n)),
{
}

proof fn lemma_token_slot(t: TokenView, n: Seq<char>)
    ensures
        lookup(token_fields(t), n) == token_slot(t, n),
{
    let m = Map::<Seq<char>, Slot>::empty().insert("id"@, str_slot(t.id));
    assert(lookup(m, n) == pick(n, "id"@, Some(str_slot(t.id)), None));
    let m1 = crate::writer::with_opt(m, "label"@, crate::writer::opt_str_slot(t.label));
    lemma_with_opt(m, "label"@, crate::writer::opt_str_slot(t.label), n);
    let m2 = crate::writer::with_opt(m1, "group"@, crate::writer::opt_str_slot(t.group));
    lemma_with_opt(m1, "group"@, crate::writer::opt_str_slot(t.group), n);
    let m3 = m2.insert("text"@, str_slot(t.text));
    lemma_with_opt(m2, "text"@, Some(str_slot(t.text)), n);
    let m4 = m3.insert("char"@, str_slot(t.glyph));
    lemma_with_opt(m3, "char"@, Some(str_slot(t.glyph)), n);
    let m5 = m4.insert("kind"@, str_slot(t.kind));
    lemma_with_opt(m4, "kind"@, Some(str_slot(t.kind)), n);
    let m6 = m5.insert("index"@, crate::writer::int_slot(t.index as int));
    lemma_with_opt(m5, "index"@, Some(crate::writer::int_slot(t.index as int)), n);
    let m7 = m6.insert("meta"@, str_slot(meta_text(t.meta)));
    lemma_with_opt(m6, "meta"@, Some(str_slot(meta_text(t.meta))), n);
    let m8 = crate::writer::with_opt(m7, "_rev"@, crate::writer::opt_bool_slot(t.rev));
    lemma_with_opt(m7, "_rev"@, crate::writer::opt_bool_slot(t.rev), n);
    let m9 = crate::writer::with_opt(m8, "_tags"@, crate::writer::opt_list_slot(t.tags));
    lemma_with_opt(m8, "_tags"@, crate::writer::opt_list_slot(t.tags), n);
    let m10 = crate::writer::with_opt(m9, "_attachedTo"@, crate::writer::opt_str_slot(t.attached_to));
    lemma_with_opt(m9, "_attachedTo"@, crate::writer::opt_str_slot(t.attached_to), n);
    let m11 = crate::writer::with_opt(m10, "_attachmentType"@, crate::writer::opt_str_slot(t.attachment_type));
    lemma_with_opt(m10, "_attachmentType"@, crate::writer::opt_str_slot(t.attachment_type), n);
    let m12 = crate::writer::with_opt(m11, "_merged"@, crate::writer::opt_bool_slot(t.merged));
    lemma_with_opt(m11, "_merged"@, crate::writer::opt_bool_slot(t.merged), n);
    let m13 = crate::writer::with_opt(m12, "_mergedInto"@, crate::writer::opt_str_slot(t.merged_into));
    lemma_with_opt(m12, "_mergedInto"@, crate::writer::opt_str_slot(t.merged_into), n);
    let m14 = crate::writer::with_opt(m13, "_mergedFrom"@, crate::writer::opt_list_slot(t.merged_from));
    lemma_with_opt(m13, "_mergedFrom"@, crate::writer::opt_list_slot(t.merged_from), n);
    let m15 = crate::writer::with_opt(m14, "_mergedAt"@, crate::writer::opt_i64_slot(t.merged_at));
    lemma_with_opt(m14, "_mergedAt"@, crate::writer::opt_i64_slot(t.merged_at), n);
    let m16 = crate::writer::with_opt(m15, "_split"@, crate::writer::opt_bool_slot(t.split));
    lemma_with_opt(m15, "_split"@, crate::writer::opt_bool_slot(t.split), n);
    let m17 = crate::writer::with_opt(m16, "_splitInto"@, crate::writer::opt_list_slot(t.split_into));
    lemma_with_opt(m16, "_splitInto"@, crate::writer::opt_list_slot(t.split_into), n);
    let m18 = crate::writer::with_opt(m17, "_splitFrom"@, crate::writer::opt_str_slot(t.split_from));
    lemma_with_opt(m17, "_splitFrom"@, crate::writer::opt_str_slot(t.split_from), n);
    let m19 = crate::writer::with_opt(m18, "_splitIndex"@, crate::writer::opt_i32_slot(t.split_index));
    lemma_with_opt(m18, "_splitIndex"@, crate::writer::opt_i32_slot(t.split_index), n);
    let m20 = crate::writer::with_opt(m19, "_splitAt"@, crate::writer::opt_i64_slot(t.split_at));
    lemma_with_opt(m19, "_splitAt"@, crate::writer::opt_i64_slot(t.split_at), n);
    let m21 = crate::writer::with_opt(m20, "_attachments"@, crate::writer::opt_items_slot(t.attachments));
    lemma_with_opt(m20, "_attachments"@, crate::writer::opt_items_slot(t.attachments), n);
    assert(token_fields(t) == m21);
}

/// `f` holds the token `t` and nothing else.
pub open spec fn holds_token(f: Map<Seq<char>, Slot>, t: TokenView) -> bool {
    forall|n: Seq<char>| #[trigger] lookup(f, n) == token_slot(t, n)
}

proof fn lemma_token_names(f: Map<Seq<char>, Slot>, t: TokenView)
    requires
        holds_token(f, t),
    ensures
        str_in(f, "id"@) == Some(t.id),
        str_in(f, "label"@) == t.label,
        str_in(f, "group"@) == t.group,
        str_in(f, "text"@) == Some(t.text),
        str_in(f, "char"@) == Some(t.glyph),
        str_in(f, "kind"@) == Some(t.kind),
        str_in(f, "meta"@) == Some(meta_text(t.meta)),
{
    lemma_keys();
    assert(lookup(f, "id"@) == token_slot(t, "id"@));
    assert(lookup(f, "label"@) == token_slot(t, "label"@));
    assert(lookup(f, "group"@) == token_slot(t, "group"@));
    assert(lookup(f, "text"@) == token_slot(t, "text"@));
    assert(lookup(f, "char"@) == token_slot(t, "char"@));
    assert(lookup(f, "kind"@) == token_slot(t, "kind"@));
    assert(lookup(f, "meta"@) == token_slot(t, "meta"@));
}

proof fn lemma_token_flags(f: Map<Seq<char>, Slot>, t: TokenView)
    requires
        holds_token(f, t),
    ensures
        int_in(f, "index"@) == Some(t.index as i64),
        crate::reader::bool_in(f, "_rev"@) == t.rev,
        str_in(f, "_tags"@) == crate::laws::list_text_of(t.tags),
        str_in(f, "_attachedTo"@) == t.attached_to,
        str_in(f, "_attachmentType"@) == t.attachment_type,
        crate::reader::bool_in(f, "_merged"@) == t.merged,
        str_in(f, "_mergedInto"@) == t.merged_into,
{
    lemma_keys();
    assert(lookup(f, "index"@) == token_slot(t, "index"@));
    assert(lookup(f, "_rev"@) == token_slot(t, "_rev"@));
    assert(lookup(f, "_tags"@) == token_slot(t, "_tags"@));
    assert(lookup(f, "_attachedTo"@) == token_slot(t, "_attachedTo"@));
    assert(lookup(f, "_attachmentType"@) == token_slot(t, "_attachmentType"@));
    assert(lookup(f, "_merged"@) == token_slot(t, "_merged"@));
    assert(lookup(f, "_mergedInto"@) == token_slot(t, "_mergedInto"@));
}

proof fn lemma_token_marks(f: Map<Seq<char>, Slot>, t: TokenView)
    requires
        holds_token(f, t),
    ensures
        str_in(f, "_mergedFrom"@) == crate::laws::list_text_of(t.merged_from),
        int_in(f, "_mergedAt"@) == t.merged_at,
        crate::reader::bool_in(f, "_split"@) == t.split,
        str_in(f, "_splitInto"@) == crate::laws::list_text_of(t.split_into),
        str_in(f, "_splitFrom"@) == t.split_from,
        int_in(f, "_splitIndex"@) == crate::laws::widen(t.split_index),
        int_in(f, "_splitAt"@) == t.split_at,
        str_in(f, "_attachments"@) == crate::laws::items_text_of(t.attachments),
{
    lemma_keys();
    assert(lookup(f, "_attachments"@) == token_slot(t, "_attachments"@));
    assert(lookup(f, "_mergedFrom"@) == token_slot(t, "_mergedFrom"@));
    assert(lookup(f, "_mergedAt"@) == token_slot(t, "_mergedAt"@));
    assert(lookup(f, "_split"@) == token_slot(t, "_split"@));
    assert(lookup(f, "_splitInto"@) == token_slot(t, "_splitInto"@));
    assert(lookup(f, "_splitFrom"@) == token_slot(t, "_splitFrom"@));
    assert(lookup(f, "_splitIndex"@) == token_slot(t, "_splitIndex"@));
    assert(lookup(f, "_splitAt"@) == token_slot(t, "_splitAt"@));
}

/// The text of a list of JSON values where there is a list.
pub open spec fn items_text_of(l: Option<Seq<serde_json::Value>>) -> Option<Seq<char>> {
    match l {
        Some(v) => Some(crate::writer::items_text(v)),
        None => None,
    }
}

/// The text of a list of strings where there is a list.
pub open spec fn list_text_of(l: Option<Seq<Seq<char>>>) -> Option<Seq<char>> {
    match l {
        Some(v) => Some(list_text(v)),
        None => None,
    }
}

pub open spec fn widen(i: Option<i32>) -> Option<i64> {
    match i {
        Some(v) => Some(v as i64),
        None => None,
    }
}

/// A map that holds a token and nothing else reads as the token's echo.
pub proof fn lemma_token_echo(t: TokenView)
    ensures
        token_from(token_fields(t)) == token_echo(t),
{
    let f = token_fields(t);
    assert(holds_token(f, t)) by {
        assert forall|n: Seq<char>| #[trigger] lookup(f, n) == token_slot(t, n) by {
            lemma_token_slot(t, n);
        }
    }
    lemma_token_names(f, t);
    lemma_token_flags(f, t);
    lemma_token_marks(f, t);
    let r = token_from(f);
    let e = token_echo(t);
    assert(r.id == e.id);
    assert(r.label == e.label);
    assert(r.group == e.group);
    assert(r.text == e.text);
    assert(r.meta == e.meta);
    assert(r.glyph == e.glyph);
    assert(r.kind == e.kind);
    assert(r.index == e.index);
    assert(r.rev == e.rev);
    assert(r.tags == e.tags);
    assert(r.attachments == e.attachments);
    assert(r.attached_to == e.attached_to);
    assert(r.attachment_type == e.attachment_type);
    assert(r.merged == e.merged);
    assert(r.merged_into == e.merged_into);
    assert(r.merged_from == e.merged_from);
    assert(r.merged_at == e.merged_at);
    assert(r.split == e.split);
    assert(r.split_into == e.split_into);
    assert(r.split_from == e.split_from);
    assert(r.split_index == e.split_index);
    assert(r.split_at == e.split_at);
}

/// The echoes of a list of tokens.
pub open spec fn tokens_echo(ts: Seq<TokenView>) -> Seq<TokenView> {
    ts.map_values(|t: TokenView| token_echo(t))
}

proof fn lemma_tokens_prefix(objs: Objects, l: ObjKey, ts: Seq<TokenView>, base: Set<ObjKey>, n: int)
    requires
        tokens_stored(objs, l, ts, base),
        0 <= n <= ts.len(),
    ensures
        tokens_read(objs, objs[l].items.take(n)) == tokens_echo(ts.take(n)),
    decreases n,
{
    let items = objs[l].items;
    if n == 0 {
        assert(items.take(0) =~= Seq::empty());
        assert(tokens_echo(ts.take(0)) =~= Seq::empty());
    } else {
        lemma_tokens_prefix(objs, l, ts, base, n - 1);
        assert(items.take(n).drop_last() =~= items.take(n - 1));
        assert(items.take(n).last() == items[n - 1]);
        assert(token_item(objs, items[n - 1], ts[n - 1], base));
        lemma_token_echo(ts[n - 1]);
        assert(tokens_echo(ts.take(n)) =~= tokens_echo(ts.take(n - 1)).push(token_echo(ts[n - 1])));
    }
}

/// A stored list of tokens reads as the echoes of the tokens.
pub proof fn lemma_tokens_echo(objs: Objects, l: ObjKey, ts: Seq<TokenView>, base: Set<ObjKey>)
    requires
        tokens_stored(objs, l, ts, base),
    ensures
        tokens_read(objs, objs[l].items) == tokens_echo(ts),
{
    lemma_tokens_prefix(objs, l, ts, base, ts.len() as int);
    assert(objs[l].items.take(ts.len() as int) =~= objs[l].items);
    assert(ts.take(ts.len() as int) =~= ts);
}

/// A list of tokens under a name reads as the echoes of the tokens.
pub proof fn lemma_token_list_field(objs: Objects, k: ObjKey, name: Seq<char>, ts: Seq<TokenView>, base: Set<ObjKey>)
    requires
        token_list_field(objs, k, name, ts, base),
    ensures
        tokens_in(objs, objs[k].fields, name) == tokens_echo(ts),
{
    lemma_tokens_echo(objs, objs[k].fields[name]->Object_0, ts, base);
}

/// A stack as it is read after it was written.
pub open spec fn stack_echo(s: StackView) -> StackView {
    StackView { stack: tokens_echo(s.stack), drawn: tokens_echo(s.drawn), discards: tokens_echo(s.discards) }
}

/// A stored stack reads as its echo.
pub proof fn lemma_stack_echo(objs: Objects, k: ObjKey, s: StackView, base: Set<ObjKey>)
    requires
        stack_stored(objs, k, s, base),
    ensures
        stack_from(objs, objs[k].fields) == stack_echo(s),
{
    lemma_token_list_field(objs, k, "stack"@, s.stack, base);
    lemma_token_list_field(objs, k, "drawn"@, s.drawn, base);
    lemma_token_list_field(objs, k, "discards"@, s.discards, base);
}

/// A placement as it is read after it was written.
pub open spec fn placement_echo(p: PlacementView) -> PlacementView {
    PlacementView {
        token: token_echo(p.token),
        x: as_number(p.x),
        y: as_number(p.y),
        tags: list_or_empty(Some(list_text(p.tags))),
        ..p
    }
}

/// A stored placement reads as its echo.
pub proof fn lemma_placement_echo(objs: Objects, k: ObjKey, p: PlacementView, base: Set<ObjKey>)
    requires
        placement_stored(objs, k, p, base),
    ensures
        placement_from(objs, objs[k].fields) == placement_echo(p),
{
    lemma_keys();
    let f = objs[k].fields;
    let s = f["tokenSnapshot"@]->Object_0;
    lemma_token_echo(p.token);
    assert(f == placement_fields(p, s));
    let r = placement_from(objs, f);
    let e = placement_echo(p);
    assert(r.id == e.id);
    assert(r.token_id == e.token_id);
    assert(r.token == e.token);
    assert(r.x == e.x);
    assert(r.y == e.y);
    assert(r.face_up == e.face_up);
    assert(r.label == e.label);
    assert(r.ts == e.ts);
    assert(r.reversed == e.reversed);
    assert(r.tags == e.tags);
}

/// The echoes of a list of placements.
pub open spec fn placements_echo(ps: Seq<PlacementView>) -> Seq<PlacementView> {
    ps.map_values(|p: PlacementView| placement_echo(p))
}

proof fn lemma_placements_prefix(objs: Objects, l: ObjKey, ps: Seq<PlacementView>, base: Set<ObjKey>, n: int)
    requires
        placements_stored(objs, l, ps, base),
        0 <= n <= ps.len(),
    ensures
        placements_read(objs, objs[l].items.take(n)) == placements_echo(ps.take(n)),
    decreases n,
{
    let items = objs[l].items;
    if n == 0 {
        assert(items.take(0) =~= Seq::empty());
        assert(placements_echo(ps.take(0)) =~= Seq::empty());
    } else {
        lemma_placements_prefix(objs, l, ps, base, n - 1);
        assert(items.take(n).drop_last() =~= items.take(n - 1));
        assert(items.take(n).last() == items[n - 1]);
        assert(placement_item(objs, items[n - 1], ps[n - 1], base));
        lemma_placement_echo(objs, items[n - 1]->0->Object_0, ps[n - 1], base);
        assert(placements_echo(ps.take(n)) =~= placements_echo(ps.take(n - 1)).push(placement_echo(ps[n - 1])));
    }
}

/// A stored list of placements reads as the echoes of the placements.
pub proof fn lemma_placements_echo(objs: Objects, l: ObjKey, ps: Seq<PlacementView>, base: Set<ObjKey>)
    requires
        placements_stored(objs, l, ps, base),
    ensures
        placements_read(objs, objs[l].items) == placements_echo(ps),
{
    lemma_placements_prefix(objs, l, ps, base, ps.len() as int);
    assert(objs[l].items.take(ps.len() as int) =~= objs[l].items);
    assert(ps.take(ps.len() as int) =~= ps);
}

/// The zones as they are read after they were written.
pub open spec fn zones_echo(z: Map<Seq<char>, Seq<PlacementView>>) -> Map<Seq<char>, Seq<PlacementView>> {
    Map::new(|n: Seq<char>| z.contains_key(n), |n: Seq<char>| placements_echo(z[n]))
}

/// Stored zones read as their echo.
pub proof fn lemma_zones_echo(objs: Objects, k: ObjKey, z: Map<Seq<char>, Seq<PlacementView>>, base: Set<ObjKey>)
    requires
        zones_stored(objs, k, z, base),
    ensures
        zones_from(objs, objs[k].fields, names_at(objs, k)) == zones_echo(z),
{
    let f = objs[k].fields;
    let r = zones_from(objs, f, names_at(objs, k));
    assert forall|n: Seq<char>| #[trigger] z.contains_key(n) implies r[n] == placements_echo(z[n]) by {
        assert(zone_field(objs, k, n, z[n], base));
        lemma_placements_echo(objs, f[n]->Object_0, z[n], base);
    }
    assert(r =~= zones_echo(z));
}

/// A list of strings reads as it was written.
pub proof fn lemma_strings_read(ids: Seq<Seq<char>>)
    ensures
        strings_read(str_items(ids)) == ids,
    decreases ids.len(),
{
    let items = str_items(ids);
    if ids.len() == 0 {
        assert(strings_read(items) =~= ids);
    } else {
        lemma_strings_read(ids.drop_last());
        assert(items.drop_last() =~= str_items(ids.drop_last()));
        assert(items.last() == Some(str_slot(ids.last())));
        assert(ids.drop_last().push(ids.last()) =~= ids);
    }
}

/// A source as it is read after it was written.
pub open spec fn source_echo(s: SourceView) -> SourceView {
    SourceView { tokens: tokens_echo(s.tokens), burned: tokens_echo(s.burned), ..s }
}

/// A stored source reads as its echo.
pub proof fn lemma_source_echo(objs: Objects, k: ObjKey, s: SourceView, base: Set<ObjKey>)
    requires
        source_stored(objs, k, s, base),
    ensures
        source_from(objs, objs[k].fields) == source_echo(s),
{
    lemma_keys();
    let f = objs[k].fields;
    lemma_token_list_field(objs, k, "tokens"@, s.tokens, base);
    lemma_token_list_field(objs, k, "burned"@, s.burned, base);
    lemma_strings_read(s.stack_ids);
    let r = source_from(objs, f);
    let e = source_echo(s);
    assert(r.stack_ids == e.stack_ids);
    assert(r.tokens == e.tokens);
    assert(r.burned == e.burned);
    assert(r.seed == e.seed) by {
        if s.seed is None {
            assert(!f.dom().contains("seed"@));
        }
    }
    assert(r.policy == e.policy);
}

/// A map that holds a game loop and nothing else reads as the game loop.
pub proof fn lemma_game_loop_echo(g: GameLoopView)
    ensures
        game_loop_from(game_loop_over(Map::empty(), g)) == g,
{
    lemma_keys();
}

/// A map that holds timestamps and nothing else reads as the timestamps.
pub proof fn lemma_stamps_echo(m: Map<Seq<char>, i64>)
    ensures
        stamps_from(stamps_over(Map::empty(), m), stamps_over(Map::empty(), m).dom()) == m,
{
    assert(stamps_from(stamps_over(Map::empty(), m), stamps_over(Map::empty(), m).dom()) =~= m);
}

/// Stored rules read as they were written.
pub proof fn lemma_rules_echo(objs: Objects, k: ObjKey, r: RuleView, base: Set<ObjKey>)
    requires
        rules_stored(objs, k, r, base),
    ensures
        rules_from(objs, objs[k].fields) == r,
{
    lemma_stamps_echo(r.fired);
    assert(objs[k].fields.dom().contains("fired"@));
}

/// The agents as they are read after they were written: those whose text
/// is the text of a JSON value, each as that value.
pub open spec fn agents_echo(m: Map<Seq<char>, serde_json::Value>) -> Map<Seq<char>, serde_json::Value> {
    Map::new(
        |n: Seq<char>| m.contains_key(n) && text_value(agent_text(m[n])) is Some,
        |n: Seq<char>| text_value(agent_text(m[n]))->0,
    )
}

/// A map that holds agents and nothing else reads as their echo.
pub proof fn lemma_agents_echo(m: Map<Seq<char>, serde_json::Value>)
    ensures
        agents_from(agents_over(Map::empty(), m), agents_over(Map::empty(), m).dom()) == agents_echo(m),
{
    assert(agents_from(agents_over(Map::empty(), m), agents_over(Map::empty(), m).dom()) =~= agents_echo(m));
}

/// No unknown field of the state has the name of a known one.
pub open spec fn valid_state(s: StateView) -> bool {
    forall|n: Seq<char>| #[trigger] s.extra.contains_key(n) ==> !known_names().contains(n)
}

/// The unknown fields as they are read after a write: those of the state,
/// each as what its text parses to, and those strings that the root held
/// before under other unknown names.
pub open spec fn extras_echo(before: Map<Seq<char>, Slot>, extra: Map<Seq<char>, serde_json::Value>) -> Map<Seq<char>, serde_json::Value> {
    Map::new(
        |n: Seq<char>| !known_names().contains(n) && (extra.contains_key(n) || str_in(before, n) is Some),
        |n: Seq<char>|
            if extra.contains_key(n) {
                value_or_string(extra_text(extra[n]))
            } else {
                value_or_string(str_in(before, n)->0)
            },
    )
}

/// A state as it is read after it was written over a root that held `before`.
pub open spec fn state_echo(before: Map<Seq<char>, Slot>, s: StateView) -> StateView {
    StateView {
        zones: match s.zones {
            Some(z) => Some(zones_echo(z)),
            None => None,
        },
        stack: match s.stack {
            Some(v) => Some(stack_echo(v)),
            None => None,
        },
        source: match s.source {
            Some(v) => Some(source_echo(v)),
            None => None,
        },
        game_loop: s.game_loop,
        rules: s.rules,
        agents: match s.agents {
            Some(a) => Some(agents_echo(a)),
            None => None,
        },
        version: s.version,
        nullifiers: s.nullifiers,
        extra: extras_echo(before, s.extra),
    }
}

/// The names of the known fields are known.
proof fn lemma_known_names()
    ensures
        known_names().contains("stack"@),
        known_names().contains("zones"@),
        known_names().contains("source"@),
        known_names().contains("gameLoop"@),
        known_names().contains("rules"@),
        known_names().contains("agents"@),
        known_names().contains("version"@),
        known_names().contains("nullifiers"@),
{
}

/// After a write of a valid state, the document reads as the echo of the state.
pub proof fn lemma_read_written(pre: Objects, post: Objects, s: StateView)
    requires
        state_written(pre, post, s),
        valid_state(s),
    ensures
        state_read(post) == state_echo(pre[root_key()].fields, s),
{
    lemma_known_names();
    let f = post[root_key()].fields;
    let base = pre.dom();
    let r = state_read(post);
    let e = state_echo(pre[root_key()].fields, s);
    assert(fields_of(post, root_key()) == f);
    assert(names_at(post, root_key()) == f.dom());

    assert(r.stack == e.stack) by {
        assert(stack_at(post, f, s.stack, base));
        if s.stack is Some {
            lemma_stack_echo(post, f["stack"@]->Object_0, s.stack->0, base);
        }
    }
    assert(r.zones == e.zones) by {
        assert(zones_at(post, f, s.zones, base));
        if s.zones is Some {
            lemma_zones_echo(post, f["zones"@]->Object_0, s.zones->0, base);
        }
    }
    assert(r.source == e.source) by {
        assert(source_at(post, f, s.source, base));
        if s.source is Some {
            lemma_source_echo(post, f["source"@]->Object_0, s.source->0, base);
        }
    }
    assert(r.game_loop == e.game_loop) by {
        assert(game_loop_at(post, f, s.game_loop, base));
        if s.game_loop is Some {
            lemma_game_loop_echo(s.game_loop->0);
        }
    }
    assert(r.rules == e.rules) by {
        assert(rules_at(post, f, s.rules, base));
        if s.rules is Some {
            lemma_rules_echo(post, f["rules"@]->Object_0, s.rules->0, base);
        }
    }
    assert(r.agents == e.agents) by {
        assert(agents_at(post, f, s.agents, base));
        if s.agents is Some {
            lemma_agents_echo(s.agents->0);
        }
    }
    assert(r.version == e.version) by {
        assert(version_at(f, s.version));
    }
    assert(r.nullifiers == e.nullifiers) by {
        assert(nullifiers_at(post, f, s.nullifiers, base));
        if s.nullifiers is Some {
            lemma_stamps_echo(s.nullifiers->0);
        }
    }
    assert(r.extra =~= e.extra) by {
        assert forall|n: Seq<char>| !known_names().contains(n) implies str_in(f, n) == (if s.extra.contains_key(n) {
            Some(extra_text(s.extra[n]))
        } else {
            str_in(pre[root_key()].fields, n)
        }) by {
            if !s.extra.contains_key(n) {
                assert(carried_over(pre[root_key()].fields, f, n));
            }
        }
    }
}

/// The list of strings survives its text.
pub open spec fn strings_plain(l: Option<Seq<Seq<char>>>) -> bool {
    match l {
        Some(v) => text_strings(list_text(v)) == Some(v),
        None => true,
    }
}

/// The JSON parts of the token survive their text.
pub open spec fn token_plain(t: TokenView) -> bool {
    &&& text_object(meta_text(t.meta)) == Some(t.meta)
    &&& strings_plain(t.tags)
    &&& strings_plain(t.merged_from)
    &&& strings_plain(t.split_into)
    &&& items_echo(t.attachments) == t.attachments
}

pub open spec fn tokens_plain(ts: Seq<TokenView>) -> bool {
    forall|i: int| 0 <= i < ts.len() ==> token_plain(#[trigger] ts[i])
}

/// The coordinates of the placement are numbers and its JSON parts survive their text.
pub open spec fn placement_plain(p: PlacementView) -> bool {
    &&& token_plain(p.token)
    &&& as_number(p.x) == p.x
    &&& as_number(p.y) == p.y
    &&& text_strings(list_text(p.tags)) == Some(p.tags)
}

pub open spec fn placements_plain(ps: Seq<PlacementView>) -> bool {
    forall|i: int| 0 <= i < ps.len() ==> placement_plain(#[trigger] ps[i])
}

/// Every JSON part of the state survives its text, and every coordinate is a number.
pub open spec fn state_plain(s: StateView) -> bool {
    &&& s.zones is Some ==> forall|n: Seq<char>| #[trigger] s.zones->0.contains_key(n) ==> placements_plain(s.zones->0[n])
    &&& s.stack is Some ==> tokens_plain(s.stack->0.stack) && tokens_plain(s.stack->0.drawn) && tokens_plain(
        s.stack->0.discards,
    )
    &&& s.source is Some ==> tokens_plain(s.source->0.tokens) && tokens_plain(s.source->0.burned)
    &&& s.agents is Some ==> forall|n: Seq<char>| #[trigger]
        s.agents->0.contains_key(n) ==> text_value(agent_text(s.agents->0[n])) == Some(s.agents->0[n])
    &&& forall|n: Seq<char>| #[trigger] s.extra.contains_key(n) ==> text_value(extra_text(s.extra[n])) == Some(s.extra[n])
}

proof fn lemma_tokens_plain(ts: Seq<TokenView>)
    requires
        tokens_plain(ts),
    ensures
        tokens_echo(ts) == ts,
{
    assert forall|i: int| 0 <= i < ts.len() implies tokens_echo(ts)[i] == ts[i] by {
        assert(token_plain(ts[i]));
    }
    assert(tokens_echo(ts) =~= ts);
}

proof fn lemma_placements_plain(ps: Seq<PlacementView>)
    requires
        placements_plain(ps),
    ensures
        placements_echo(ps) == ps,
{
    assert forall|i: int| 0 <= i < ps.len() implies placements_echo(ps)[i] == ps[i] by {
        assert(placement_plain(ps[i]));
    }
    assert(placements_echo(ps) =~= ps);
}

/// The root holds no string under a name that is neither known nor among
/// the unknown fields `extra`.
pub open spec fn no_strays(before: Map<Seq<char>, Slot>, extra: Map<Seq<char>, serde_json::Value>) -> bool {
    forall|n: Seq<char>|
        !known_names().contains(n) && !extra.contains_key(n) ==> #[trigger] str_in(before, n) is None
}

/// Round trip. A valid state whose JSON parts survive their text, written
/// to a document that holds no other unknown field, is read back as
/// itself.
pub proof fn law_round_trip(pre: Objects, post: Objects, s: StateView)
    requires
        state_written(pre, post, s),
        valid_state(s),
        state_plain(s),
        no_strays(pre[root_key()].fields, s.extra),
    ensures
        state_read(post) == s,
{
    lemma_read_written(pre, post, s);
    let e = state_echo(pre[root_key()].fields, s);
    if s.stack is Some {
        lemma_tokens_plain(s.stack->0.stack);
        lemma_tokens_plain(s.stack->0.drawn);
        lemma_tokens_plain(s.stack->0.discards);
    }
    if s.source is Some {
        lemma_tokens_plain(s.source->0.tokens);
        lemma_tokens_plain(s.source->0.burned);
    }
    if s.zones is Some {
        let z = s.zones->0;
        assert forall|n: Seq<char>| z.contains_key(n) implies #[trigger] zones_echo(z)[n] == z[n] by {
            lemma_placements_plain(z[n]);
        }
        assert(zones_echo(z) =~= z);
    }
    if s.agents is Some {
        assert(agents_echo(s.agents->0) =~= s.agents->0);
    }
    assert(e.extra =~= s.extra) by {
        assert forall|n: Seq<char>| e.extra.contains_key(n) <==> s.extra.contains_key(n) by {
            if !known_names().contains(n) && !s.extra.contains_key(n) {
                assert(str_in(pre[root_key()].fields, n) is None);
            }
        }
    }
}

/// Idempotence. Writing the same valid state a second time leaves what is
/// read unchanged.
pub proof fn law_idempotent(a: Objects, b: Objects, c: Objects, s: StateView)
    requires
        state_written(a, b, s),
        state_written(b, c, s),
        valid_state(s),
    ensures
        state_read(c) == state_read(b),
{
    lemma_read_written(a, b, s);
    lemma_read_written(b, c, s);
    let fa = a[root_key()].fields;
    let fb = b[root_key()].fields;
    assert(extras_echo(fb, s.extra) =~= extras_echo(fa, s.extra)) by {
        assert forall|n: Seq<char>| !known_names().contains(n) && !s.extra.contains_key(n) implies str_in(fb, n)
            == str_in(fa, n) by {
            assert(carried_over(fa, fb, n));
        }
    }
}

/// Unknown-field passthrough. An unknown field of a valid state whose
/// value survives its text is read back with that value.
pub proof fn law_unknown_field_kept(pre: Objects, post: Objects, s: StateView, name: Seq<char>)
    requires
        state_written(pre, post, s),
        valid_state(s),
        s.extra.contains_key(name),
        text_value(extra_text(s.extra[name])) == Some(s.extra[name]),
    ensures
        state_read(post).extra.contains_key(name),
        state_read(post).extra[name] == s.extra[name],
{
    lemma_read_written(pre, post, s);
}

/// Save/load fidelity. A chronicle that has loaded what another saved
/// shows the same state and has the same heads. The premises are what
/// `save` and `load` ensure.
pub proof fn law_save_load(saved: Chronicle, loaded: Chronicle, snapshot: Seq<u8>)
    requires
        crate::engine::decoded(snapshot) == Some(saved.changes()),
        crate::engine::decoded(snapshot) == Some(loaded.changes()),
    ensures
        loaded.state() == saved.state(),
        loaded.heads() == saved.heads(),
{
}

/// Merge commutativity. Of two chronicles that hold no change back, let
/// each merge a snapshot of the other, and let both merges succeed:
/// `a2` is what comes of `a`, and `b2` of `b`. Then both show the same
/// state and have the same heads. The premises are what `save` and
/// `merge` ensure.
pub proof fn law_merge_commutes(
    a: Chronicle,
    b: Chronicle,
    a2: Chronicle,
    b2: Chronicle,
    from_a: Seq<u8>,
    from_b: Seq<u8>,
)
    requires
        a.settled(),
        b.settled(),
        crate::engine::decoded(from_a) == Some(a.changes()),
        crate::engine::decoded(from_b) == Some(b.changes()),
        a.merge_outcome(a2, Ok(()), from_b),
        b.merge_outcome(b2, Ok(()), from_a),
    ensures
        a2.state() == b2.state(),
        a2.heads() == b2.heads(),
{
    assert(a.changes().union(b.changes()) =~= b.changes().union(a.changes()));
}

/// Merging again what was merged before succeeds and changes nothing
/// that is seen: where `once` is what came of a merge of a snapshot that
/// succeeded, and `twice` is what comes of merging the snapshot into
/// `once`, that second merge succeeds, and the state and the heads stay.
pub proof fn law_merge_again(
    before: Chronicle,
    once: Chronicle,
    twice: Chronicle,
    again: Result<(), crate::types::HyperTokenError>,
    snapshot: Seq<u8>,
)
    requires
        before.merge_outcome(once, Ok(()), snapshot),
        once.merge_outcome(twice, again, snapshot),
    ensures
        again is Ok,
        twice.state() == once.state(),
        twice.heads() == once.heads(),
{
    let changes = crate::engine::decoded(snapshot)->0;
    assert(changes.subset_of(before.changes().union(changes)));
}

/// Merging a chronicle's own snapshot into it succeeds and changes
/// nothing that is seen.
pub proof fn law_merge_own(
    c: Chronicle,
    after: Chronicle,
    r: Result<(), crate::types::HyperTokenError>,
    snapshot: Seq<u8>,
)
    requires
        crate::engine::decoded(snapshot) == Some(c.changes()),
        c.merge_outcome(after, r, snapshot),
    ensures
        r is Ok,
        after.state() == c.state(),
        after.heads() == c.heads(),
{
}

} // verus!

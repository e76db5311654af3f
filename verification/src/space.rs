//! Zones on a table and the placements that lie in them.
//!
//! A space is a list of named zones, no name twice. A zone can be locked;
//! what changes the placements of a zone is refused while it is locked.
//! A placement is named by its own identifier or by that of its token.
//! Coordinates are the document engine's scalars, carried as they come.

#![allow(non_snake_case)]

use vstd::prelude::*;
use vstd::string::StringExecFns;
use crate::types::{placements_view, HyperTokenError, IPlacementCRDT, IToken, PlacementView, TokenView, ZoneLock};
use crate::utils::{now, shuffle_vec};

verus! {

/// The placements of a zone and its lock.
#[derive(Debug, Clone)]
pub struct Zone {
    pub placements: Vec<IPlacementCRDT>,
    pub lock: ZoneLock,
}

pub ghost struct ZoneView {
    pub placements: Seq<PlacementView>,
    pub locked: bool,
    pub locked_at: Option<i64>,
    pub locked_by: Option<Seq<char>>,
}

impl View for Zone {
    type V = ZoneView;

    open spec fn view(&self) -> ZoneView {
        ZoneView {
            placements: placements_view(self.placements@),
            locked: self.lock.locked,
            locked_at: self.lock.locked_at,
            locked_by: self.lock.locked_by.deep_view(),
        }
    }
}

/// The zone with nothing in it and no lock.
pub open spec fn empty_zone() -> ZoneView {
    ZoneView { placements: Seq::empty(), locked: false, locked_at: None, locked_by: None }
}

impl Default for Zone {
    fn default() -> (r: Self)
        ensures
            r@ == empty_zone(),
    {
        let r = Zone { placements: Vec::new(), lock: ZoneLock::default() };
        proof {
            assert(placements_view(r.placements@) =~= Seq::empty());
        }
        r
    }
}

/// The zones of a space, each with its name.
#[derive(Debug, Clone)]
pub struct SpaceState {
    pub zones: Vec<(String, Zone)>,
}

/// The zones of a space as a list of names and zones.
pub type Zones = Seq<(Seq<char>, ZoneView)>;

pub open spec fn zones_view(v: Seq<(String, Zone)>) -> Zones {
    v.map_values(|e: (String, Zone)| (e.0@, e.1@))
}

/// Where the zone `name` stands in the list; the length of the list where
/// there is none.
pub open spec fn zone_place(zones: Zones, name: Seq<char>) -> int
    decreases zones.len(),
{
    if zones.len() == 0 {
        0
    } else if zones[0].0 == name {
        0
    } else {
        1 + zone_place(zones.drop_first(), name)
    }
}

pub open spec fn has_zone_named(zones: Zones, name: Seq<char>) -> bool {
    zone_place(zones, name) < zones.len()
}

/// The zone `name`.
pub open spec fn zone_named(zones: Zones, name: Seq<char>) -> ZoneView {
    zones[zone_place(zones, name)].1
}

/// The list with the zone `name` replaced by `zone`.
pub open spec fn with_zone(zones: Zones, name: Seq<char>, zone: ZoneView) -> Zones {
    zones.update(zone_place(zones, name), (name, zone))
}

/// No name occurs twice.
pub open spec fn distinct_names(zones: Zones) -> bool {
    forall|i: int, j: int| 0 <= i < j < zones.len() ==> zones[i].0 != zones[j].0
}

pub proof fn lemma_zone_place(zones: Zones, name: Seq<char>)
    ensures
        0 <= zone_place(zones, name) <= zones.len(),
        forall|j: int| 0 <= j < zone_place(zones, name) ==> zones[j].0 != name,
        has_zone_named(zones, name) ==> zones[zone_place(zones, name)].0 == name,
    decreases zones.len(),
{
    if zones.len() > 0 && zones[0].0 != name {
        lemma_zone_place(zones.drop_first(), name);
        assert forall|j: int| 0 <= j < zone_place(zones, name) implies zones[j].0 != name by {
            if j > 0 {
                assert(zones.drop_first()[j - 1] == zones[j]);
            }
        }
    }
}

/// The place of a zone is where its name stands, if nothing before has the name.
pub proof fn lemma_zone_found(zones: Zones, name: Seq<char>, i: int)
    requires
        0 <= i <= zones.len(),
        forall|j: int| 0 <= j < i ==> zones[j].0 != name,
        i < zones.len() ==> zones[i].0 == name,
    ensures
        zone_place(zones, name) == i,
{
    lemma_zone_place(zones, name);
    let p = zone_place(zones, name);
    if p < i {
        assert(zones[p].0 != name);
    }
    if p > i {
        assert(zones[i].0 != name);
    }
}

/// Whether `name` names the placement: by the placement's own identifier
/// or by that of its token.
pub open spec fn names_placement(p: PlacementView, name: Seq<char>) -> bool {
    p.id == name || p.token_id == name
}

/// Where the first placement that `name` names stands among `ps`; their
/// number where it names none.
pub open spec fn placement_place(ps: Seq<PlacementView>, name: Seq<char>) -> int
    decreases ps.len(),
{
    if ps.len() == 0 {
        0
    } else if names_placement(ps[0], name) {
        0
    } else {
        1 + placement_place(ps.drop_first(), name)
    }
}

pub proof fn lemma_placement_place(ps: Seq<PlacementView>, name: Seq<char>)
    ensures
        0 <= placement_place(ps, name) <= ps.len(),
        forall|j: int| 0 <= j < placement_place(ps, name) ==> !names_placement(ps[j], name),
        placement_place(ps, name) < ps.len() ==> names_placement(ps[placement_place(ps, name)], name),
    decreases ps.len(),
{
    if ps.len() > 0 && !names_placement(ps[0], name) {
        lemma_placement_place(ps.drop_first(), name);
        assert forall|j: int| 0 <= j < placement_place(ps, name) implies !names_placement(ps[j], name) by {
            if j > 0 {
                assert(ps.drop_first()[j - 1] == ps[j]);
            }
        }
    }
}

pub proof fn lemma_placement_found(ps: Seq<PlacementView>, name: Seq<char>, i: int)
    requires
        0 <= i <= ps.len(),
        forall|j: int| 0 <= j < i ==> !names_placement(ps[j], name),
        i < ps.len() ==> names_placement(ps[i], name),
    ensures
        placement_place(ps, name) == i,
{
    lemma_placement_place(ps, name);
    let p = placement_place(ps, name);
    if p < i {
        assert(!names_placement(ps[p], name));
    }
    if p > i {
        assert(!names_placement(ps[i], name));
    }
}

/// Where the first placement that `name` names stands in the list; its
/// length where it names none.
pub fn find_placement(placements: &Vec<IPlacementCRDT>, name: &str) -> (r: usize)
    ensures
        r == placement_place(placements_view(placements@), name@),
        r <= placements.len(),
{
    let wanted = name.to_owned();
    let ghost ps = placements_view(placements@);
    let mut i: usize = 0;
    while i < placements.len()
        invariant
            0 <= i <= placements.len(),
            wanted@ == name@,
            ps == placements_view(placements@),
            forall|j: int| 0 <= j < i ==> !names_placement(ps[j], name@),
        decreases placements.len() - i,
    {
        proof {
            assert(ps[i as int] == placements[i as int]@);
        }
        if placements[i].id == wanted || placements[i].tokenId == wanted {
            proof {
                lemma_placement_found(ps, name@, i as int);
            }
            return i;
        }
        i = i + 1;
    }
    proof {
        lemma_placement_found(ps, name@, i as int);
    }
    i
}

/// Copies of the placements.
pub fn copy_placements(placements: &Vec<IPlacementCRDT>) -> (r: Vec<IPlacementCRDT>)
    ensures
        placements_view(r@) == placements_view(placements@),
{
    let mut out: Vec<IPlacementCRDT> = Vec::new();
    let mut i: usize = 0;
    proof {
        assert(placements_view(out@) =~= placements_view(placements@).take(0));
    }
    while i < placements.len()
        invariant
            0 <= i <= placements.len(),
            placements_view(out@) == placements_view(placements@).take(i as int),
        decreases placements.len() - i,
    {
        let ghost before = out@;
        let copy = placements[i].deep_clone();
        out.push(copy);
        proof {
            assert(placements_view(out@) =~= placements_view(before).push(copy@));
            assert(placements_view(placements@).take(i + 1) =~= placements_view(placements@).take(i as int).push(
                placements[i as int]@,
            ));
        }
        i = i + 1;
    }
    proof {
        assert(placements_view(placements@).take(placements.len() as int) =~= placements_view(placements@));
    }
    out
}

/// The lock of a zone after it was locked or unlocked at the time `at`.
pub open spec fn relocked(zone: ZoneView, locked: bool, at: i64) -> ZoneView {
    if locked {
        ZoneView { locked: true, locked_at: Some(at), ..zone }
    } else {
        ZoneView { locked: false, locked_at: None, locked_by: None, ..zone }
    }
}

/// The placement that `place` makes of a token: face up, not reversed,
/// without label or tags, at the given coordinates.
pub open spec fn placed(id: Seq<char>, token: TokenView, x: crate::engine::Scalar, y: crate::engine::Scalar, ts: i64) -> PlacementView {
    PlacementView {
        id,
        token_id: token.id,
        token,
        x: Some(x),
        y: Some(y),
        face_up: true,
        label: None,
        ts,
        reversed: false,
        tags: Seq::empty(),
    }
}

/// The coordinate zero: the float whose bits are all 0.
pub open spec fn origin() -> crate::engine::Scalar {
    crate::engine::Scalar::Real(0)
}

/// `ScalarValue::F64` of the default float, which is zero.
#[verifier::external_body]
fn zero_coordinate() -> (r: automerge::ScalarValue)
    ensures
        crate::engine::scalar_of(r) == origin(),
{
    automerge::ScalarValue::F64(Default::default())
}

/// The scalar of a coordinate, zero where none is given.
pub open spec fn coordinate(v: Option<automerge::ScalarValue>) -> crate::engine::Scalar {
    match v {
        Some(s) => crate::engine::scalar_of(s),
        None => origin(),
    }
}

/// A space: zones by name.
#[derive(Clone)]
pub struct Space {
    state: SpaceState,
}

impl SpaceState {
    /// No zone name occurs twice.
    pub open spec fn wf(&self) -> bool {
        distinct_names(zones_view(self.zones@))
    }

    /// Whether no zone name occurs twice.
    pub fn is_wf(&self) -> (r: bool)
        ensures
            r == self.wf(),
    {
        let ghost zs = zones_view(self.zones@);
        let mut j: usize = 0;
        while j < self.zones.len()
            invariant
                0 <= j <= self.zones.len(),
                zs == zones_view(self.zones@),
                forall|a: int, b: int| 0 <= a < b < j ==> zs[a].0 != zs[b].0,
            decreases self.zones.len() - j,
        {
            let mut i: usize = 0;
            while i < j
                invariant
                    0 <= i <= j < self.zones.len(),
                    zs == zones_view(self.zones@),
                    forall|a: int| 0 <= a < i ==> zs[a].0 != zs[j as int].0,
                decreases j - i,
            {
                proof {
                    assert(zs[i as int].0 == self.zones[i as int].0@);
                    assert(zs[j as int].0 == self.zones[j as int].0@);
                }
                if self.zones[i].0 == self.zones[j].0 {
                    return false;
                }
                i = i + 1;
            }
            j = j + 1;
        }
        true
    }
}

impl Default for SpaceState {
    fn default() -> (r: Self)
        ensures
            r.zones@.len() == 0,
            r.wf(),
    {
        SpaceState { zones: Vec::new() }
    }
}

impl Space {
    /// The zones with their names, in the order in which they were made.
    pub closed spec fn zones(&self) -> Zones {
        zones_view(self.state.zones@)
    }

    /// No zone name occurs twice.
    pub open spec fn wf(&self) -> bool {
        distinct_names(self.zones())
    }

    /// A space without zones.
    pub fn new() -> (r: Space)
        ensures
            r.zones().len() == 0,
            r.wf(),
    {
        Space { state: SpaceState::default() }
    }

    /// Where the zone `name` stands; the number of zones where there is none.
    fn find(&self, name: &str) -> (r: usize)
        ensures
            r == zone_place(self.zones(), name@),
            r <= self.state.zones.len(),
            r < self.state.zones.len() ==> self.state.zones[r as int].0@ == name@,
    {
        let wanted = name.to_owned();
        let ghost zs = self.zones();
        let mut i: usize = 0;
        while i < self.state.zones.len()
            invariant
                0 <= i <= self.state.zones.len(),
                wanted@ == name@,
                zs == zones_view(self.state.zones@),
                forall|j: int| 0 <= j < i ==> zs[j].0 != name@,
            decreases self.state.zones.len() - i,
        {
            proof {
                assert(zs[i as int].0 == self.state.zones[i as int].0@);
            }
            if self.state.zones[i].0 == wanted {
                proof {
                    lemma_zone_found(zs, name@, i as int);
                }
                return i;
            }
            i = i + 1;
        }
        proof {
            lemma_zone_found(zs, name@, i as int);
        }
        i
    }

    /// Makes an empty zone. Fails where a zone has the name already.
    pub fn create_zone(&mut self, name: String) -> (r: Result<(), HyperTokenError>)
        requires
            old(self).wf(),
        ensures
            final(self).wf(),
            !has_zone_named(old(self).zones(), name@) ==> r is Ok && final(self).zones() == old(self).zones().push(
                (name@, empty_zone()),
            ),
            has_zone_named(old(self).zones(), name@) ==> r is Err && r->Err_0 is InvalidOperation && final(self).zones() == old(self).zones(),
    {
        if self.find(name.as_str()) < self.state.zones.len() {
            let mut text = "Zone '".to_owned();
            text.append(name.as_str());
            text.append("' already exists");
            return Err(HyperTokenError::InvalidOperation(text));
        }
        let ghost before = self.zones();
        proof {
            lemma_zone_place(before, name@);
        }
        self.state.zones.push((name, Zone::default()));
        proof {
            assert(self.zones() =~= before.push((name@, empty_zone())));
        }
        Ok(())
    }

    /// Removes a zone and what lies in it. Fails where there is no such zone.
    pub fn delete_zone(&mut self, name: &str) -> (r: Result<(), HyperTokenError>)
        requires
            old(self).wf(),
        ensures
            final(self).wf(),
            has_zone_named(old(self).zones(), name@) ==> r is Ok && final(self).zones() == old(self).zones().remove(
                zone_place(old(self).zones(), name@),
            ),
            !has_zone_named(old(self).zones(), name@) ==> r is Err && r->Err_0 is ZoneNotFound && final(self).zones() == old(self).zones(),
    {
        let i = self.find(name);
        if i >= self.state.zones.len() {
            return Err(HyperTokenError::ZoneNotFound(name.to_owned()));
        }
        let ghost before = self.zones();
        self.state.zones.remove(i);
        proof {
            assert(self.zones() =~= before.remove(i as int));
        }
        Ok(())
    }

    /// Whether there is a zone of that name.
    pub fn has_zone(&self, name: &str) -> (r: bool)
        ensures
            r == has_zone_named(self.zones(), name@),
    {
        self.find(name) < self.state.zones.len()
    }

    /// Locks or unlocks a zone, at the time `at`. Locking notes the time;
    /// unlocking forgets the time and who had locked. Fails where there is
    /// no such zone.
    pub fn lock_zone_at(&mut self, name: &str, locked: bool, at: i64) -> (r: Result<(), HyperTokenError>)
        requires
            old(self).wf(),
        ensures
            final(self).wf(),
            has_zone_named(old(self).zones(), name@) ==> r is Ok && final(self).zones() == with_zone(
                old(self).zones(),
                name@,
                relocked(zone_named(old(self).zones(), name@), locked, at),
            ),
            !has_zone_named(old(self).zones(), name@) ==> r is Err && r->Err_0 is ZoneNotFound && final(self).zones() == old(self).zones(),
    {
        let i = self.find(name);
        if i >= self.state.zones.len() {
            return Err(HyperTokenError::ZoneNotFound(name.to_owned()));
        }
        let ghost before = self.zones();
        let mut entry = self.state.zones.remove(i);
        entry.1.lock.locked = locked;
        if locked {
            entry.1.lock.locked_at = Some(at);
        } else {
            entry.1.lock.locked_at = None;
            entry.1.lock.locked_by = None;
        }
        self.state.zones.insert(i, entry);
        proof {
            assert(self.zones() =~= with_zone(before, name@, relocked(zone_named(before, name@), locked, at)));
        }
        Ok(())
    }

    /// Locks or unlocks a zone now. See `lock_zone_at`.
    pub fn lock_zone(&mut self, name: &str, locked: bool) -> (r: Result<(), HyperTokenError>)
        requires
            old(self).wf(),
        ensures
            final(self).wf(),
            has_zone_named(old(self).zones(), name@) ==> r is Ok && exists|at: i64|
                final(self).zones() == with_zone(
                    old(self).zones(),
                    name@,
                    relocked(zone_named(old(self).zones(), name@), locked, at),
                ),
            !has_zone_named(old(self).zones(), name@) ==> r is Err && r->Err_0 is ZoneNotFound && final(self).zones() == old(self).zones(),
    {
        let at = now();
        self.lock_zone_at(name, locked, at)
    }

    /// Whether the zone is locked. A zone that is not there is not locked.
    pub fn is_zone_locked(&self, name: &str) -> (r: bool)
        ensures
            r == (has_zone_named(self.zones(), name@) && zone_named(self.zones(), name@).locked),
    {
        let i = self.find(name);
        if i < self.state.zones.len() {
            proof {
                assert(self.zones()[i as int] == (self.state.zones[i as int].0@, self.state.zones[i as int].1@));
            }
            self.state.zones[i].1.lock.locked
        } else {
            false
        }
    }

    /// The zones after `name` was made, if it was not there.
    pub open spec fn ensured(zones: Zones, name: Seq<char>) -> Zones {
        if has_zone_named(zones, name) {
            zones
        } else {
            zones.push((name, empty_zone()))
        }
    }

    /// Makes the zone if it is not there.
    fn ensure_zone(&mut self, name: &str) -> (i: usize)
        requires
            old(self).wf(),
        ensures
            final(self).wf(),
            final(self).zones() == Self::ensured(old(self).zones(), name@),
            i == zone_place(final(self).zones(), name@),
            i < final(self).state.zones.len(),
            final(self).state.zones[i as int].0@ == name@,
    {
        let i = self.find(name);
        if i < self.state.zones.len() {
            return i;
        }
        let ghost before = self.zones();
        proof {
            lemma_zone_place(before, name@);
        }
        self.state.zones.push((name.to_owned(), Zone::default()));
        proof {
            assert(self.zones() =~= before.push((name@, empty_zone())));
            lemma_zone_found(self.zones(), name@, i as int);
        }
        i
    }

    /// Puts a token into a zone with the given placement identifier and
    /// timestamp, making the zone if it is not there, and returns a copy of
    /// the placement. A coordinate that is not given is the origin. Fails
    /// where the zone is locked.
    pub fn place_as(
        &mut self,
        zone_name: &str,
        token: IToken,
        x: Option<automerge::ScalarValue>,
        y: Option<automerge::ScalarValue>,
        placement_id: String,
        ts: i64,
    ) -> (r: Result<IPlacementCRDT, HyperTokenError>)
        requires
            old(self).wf(),
        ensures
            final(self).wf(),
            ({
                let zones = Self::ensured(old(self).zones(), zone_name@);
                let zone = zone_named(zones, zone_name@);
                let p = placed(placement_id@, token@, coordinate(x), coordinate(y), ts);
                if zone.locked {
                    r is Err && r->Err_0 is ZoneLocked && final(self).zones() == zones
                } else {
                    r is Ok && r->Ok_0@ == p && final(self).zones() == with_zone(
                        zones,
                        zone_name@,
                        ZoneView { placements: zone.placements.push(p), ..zone },
                    )
                }
            }),
    {
        let i = self.ensure_zone(zone_name);
        let ghost zones = self.zones();
        proof {
            assert(zones[i as int] == (self.state.zones[i as int].0@, self.state.zones[i as int].1@));
        }
        if self.state.zones[i].1.lock.locked {
            return Err(HyperTokenError::ZoneLocked(zone_name.to_owned()));
        }
        let placement = IPlacementCRDT {
            id: placement_id,
            tokenId: token.id.clone(),
            tokenSnapshot: token,
            x: Some(
                match x {
                    Some(v) => v,
                    None => zero_coordinate(),
                },
            ),
            y: Some(
                match y {
                    Some(v) => v,
                    None => zero_coordinate(),
                },
            ),
            faceUp: true,
            label: None,
            ts,
            reversed: false,
            tags: Vec::new(),
        };
        proof {
            assert(placement.tags.deep_view() =~= Seq::empty());
        }
        let copy = placement.deep_clone();
        let mut entry = self.state.zones.remove(i);
        let ghost before = entry.1.placements@;
        entry.1.placements.push(placement);
        proof {
            assert(placements_view(entry.1.placements@) =~= placements_view(before).push(placement@));
        }
        self.state.zones.insert(i, entry);
        proof {
            let zone = zone_named(zones, zone_name@);
            assert(self.zones() =~= with_zone(
                zones,
                zone_name@,
                ZoneView { placements: zone.placements.push(placement@), ..zone },
            ));
        }
        Ok(copy)
    }

    /// The identifier of a placement made at the time `at` in a zone that
    /// holds `count` placements: `p-`, the count, `-`, the time.
    pub fn placement_id(count: usize, at: i64) -> (r: String)
        ensures
            exists|c: String, t: String|
                vstd::string::to_string_from_display_ensures::<usize>(&count, c)
                    && vstd::string::to_string_from_display_ensures::<i64>(&at, t) && r@ == "p-"@ + c@ + "-"@
                    + t@,
    {
        let c = count.to_string();
        let t = at.to_string();
        let mut id = "p-".to_owned();
        id.append(c.as_str());
        id.append("-");
        id.append(t.as_str());
        id
    }

    /// Puts a token into a zone now, making the zone if it is not there,
    /// and returns a copy of the placement. Its identifier is made of the
    /// number of placements in the zone and the time. Fails where the zone
    /// is locked.
    pub fn place(
        &mut self,
        zone_name: &str,
        token: IToken,
        x: Option<automerge::ScalarValue>,
        y: Option<automerge::ScalarValue>,
    ) -> (r: Result<IPlacementCRDT, HyperTokenError>)
        requires
            old(self).wf(),
        ensures
            final(self).wf(),
            ({
                let zones = Self::ensured(old(self).zones(), zone_name@);
                let zone = zone_named(zones, zone_name@);
                if zone.locked {
                    r is Err && r->Err_0 is ZoneLocked && final(self).zones() == zones
                } else {
                    r is Ok && r->Ok_0@ == placed(
                        r->Ok_0@.id,
                        token@,
                        coordinate(x),
                        coordinate(y),
                        r->Ok_0@.ts,
                    ) && final(self).zones() == with_zone(
                        zones,
                        zone_name@,
                        ZoneView { placements: zone.placements.push(r->Ok_0@), ..zone },
                    )
                }
            }),
    {
        let i = self.find(zone_name);
        let count = if i < self.state.zones.len() {
            self.state.zones[i].1.placements.len()
        } else {
            0
        };
        let id = Self::placement_id(count, now());
        self.place_as(zone_name, token, x, y, id, now())
    }

    /// Takes a placement out of a zone and returns its token. Fails where
    /// the zone is not there, is locked, or holds no such placement.
    pub fn remove(&mut self, zone_name: &str, placement_id: &str) -> (r: Result<IToken, HyperTokenError>)
        requires
            old(self).wf(),
        ensures
            final(self).wf(),
            ({
                let zones = old(self).zones();
                let zone = zone_named(zones, zone_name@);
                let at = placement_place(zone.placements, placement_id@);
                if !has_zone_named(zones, zone_name@) {
                    r is Err && r->Err_0 is ZoneNotFound && final(self).zones() == zones
                } else if zone.locked {
                    r is Err && r->Err_0 is ZoneLocked && final(self).zones() == zones
                } else if at >= zone.placements.len() {
                    r is Err && r->Err_0 is TokenNotFound && final(self).zones() == zones
                } else {
                    r is Ok && r->Ok_0@ == zone.placements[at].token && final(self).zones() == with_zone(
                        zones,
                        zone_name@,
                        ZoneView { placements: zone.placements.remove(at), ..zone },
                    )
                }
            }),
    {
        let i = self.find(zone_name);
        if i >= self.state.zones.len() {
            return Err(HyperTokenError::ZoneNotFound(zone_name.to_owned()));
        }
        let ghost zones = self.zones();
        proof {
            assert(zones[i as int] == (self.state.zones[i as int].0@, self.state.zones[i as int].1@));
        }
        if self.state.zones[i].1.lock.locked {
            return Err(HyperTokenError::ZoneLocked(zone_name.to_owned()));
        }
        let index = find_placement(&self.state.zones[i].1.placements, placement_id);
        if index >= self.state.zones[i].1.placements.len() {
            return Err(HyperTokenError::TokenNotFound(placement_id.to_owned()));
        }
        let mut entry = self.state.zones.remove(i);
        let ghost before = entry.1.placements@;
        let placement = entry.1.placements.remove(index);
        proof {
            assert(placements_view(entry.1.placements@) =~= placements_view(before).remove(index as int));
        }
        self.state.zones.insert(i, entry);
        proof {
            let zone = zone_named(zones, zone_name@);
            assert(self.zones() =~= with_zone(
                zones,
                zone_name@,
                ZoneView { placements: zone.placements.remove(index as int), ..zone },
            ));
        }
        Ok(placement.tokenSnapshot)
    }

    /// Turns a placement face up or face down: as `face_up` says, or the
    /// other way round than it lies where nothing is said. Fails where the
    /// zone is not there, is locked, or holds no such placement.
    pub fn flip(&mut self, zone_name: &str, placement_id: &str, face_up: Option<bool>) -> (r: Result<
        (),
        HyperTokenError,
    >)
        requires
            old(self).wf(),
        ensures
            final(self).wf(),
            ({
                let zones = old(self).zones();
                let zone = zone_named(zones, zone_name@);
                let at = placement_place(zone.placements, placement_id@);
                if !has_zone_named(zones, zone_name@) {
                    r is Err && r->Err_0 is ZoneNotFound && final(self).zones() == zones
                } else if zone.locked {
                    r is Err && r->Err_0 is ZoneLocked && final(self).zones() == zones
                } else if at >= zone.placements.len() {
                    r is Err && r->Err_0 is TokenNotFound && final(self).zones() == zones
                } else {
                    let p = zone.placements[at];
                    let turned = PlacementView {
                        face_up: match face_up {
                            Some(b) => b,
                            None => !p.face_up,
                        },
                        ..p
                    };
                    r is Ok && final(self).zones() == with_zone(
                        zones,
                        zone_name@,
                        ZoneView { placements: zone.placements.update(at, turned), ..zone },
                    )
                }
            }),
    {
        let i = self.find(zone_name);
        if i >= self.state.zones.len() {
            return Err(HyperTokenError::ZoneNotFound(zone_name.to_owned()));
        }
        let ghost zones = self.zones();
        proof {
            assert(zones[i as int] == (self.state.zones[i as int].0@, self.state.zones[i as int].1@));
        }
        if self.state.zones[i].1.lock.locked {
            return Err(HyperTokenError::ZoneLocked(zone_name.to_owned()));
        }
        let index = find_placement(&self.state.zones[i].1.placements, placement_id);
        if index >= self.state.zones[i].1.placements.len() {
            return Err(HyperTokenError::TokenNotFound(placement_id.to_owned()));
        }
        let mut entry = self.state.zones.remove(i);
        let ghost before = entry.1.placements@;
        let mut placement = entry.1.placements.remove(index);
        placement.faceUp = match face_up {
            Some(b) => b,
            None => !placement.faceUp,
        };
        entry.1.placements.insert(index, placement);
        proof {
            assert(placements_view(entry.1.placements@) =~= placements_view(before).update(
                index as int,
                placement@,
            ));
        }
        self.state.zones.insert(i, entry);
        proof {
            let zone = zone_named(zones, zone_name@);
            assert(self.zones() =~= with_zone(
                zones,
                zone_name@,
                ZoneView { placements: zone.placements.update(index as int, placement@), ..zone },
            ));
        }
        Ok(())
    }

    /// Empties a zone. Fails where the zone is not there or is locked.
    pub fn clear_zone(&mut self, zone_name: &str) -> (r: Result<(), HyperTokenError>)
        requires
            old(self).wf(),
        ensures
            final(self).wf(),
            ({
                let zones = old(self).zones();
                let zone = zone_named(zones, zone_name@);
                if !has_zone_named(zones, zone_name@) {
                    r is Err && r->Err_0 is ZoneNotFound && final(self).zones() == zones
                } else if zone.locked {
                    r is Err && r->Err_0 is ZoneLocked && final(self).zones() == zones
                } else {
                    r is Ok && final(self).zones() == with_zone(
                        zones,
                        zone_name@,
                        ZoneView { placements: Seq::empty(), ..zone },
                    )
                }
            }),
    {
        let i = self.find(zone_name);
        if i >= self.state.zones.len() {
            return Err(HyperTokenError::ZoneNotFound(zone_name.to_owned()));
        }
        let ghost zones = self.zones();
        proof {
            assert(zones[i as int] == (self.state.zones[i as int].0@, self.state.zones[i as int].1@));
        }
        if self.state.zones[i].1.lock.locked {
            return Err(HyperTokenError::ZoneLocked(zone_name.to_owned()));
        }
        let mut entry = self.state.zones.remove(i);
        entry.1.placements.clear();
        proof {
            assert(placements_view(entry.1.placements@) =~= Seq::empty());
        }
        self.state.zones.insert(i, entry);
        proof {
            let zone = zone_named(zones, zone_name@);
            assert(self.zones() =~= with_zone(zones, zone_name@, ZoneView { placements: Seq::empty(), ..zone }));
        }
        Ok(())
    }

    /// The tokens of the placements.
    pub open spec fn tokens_of(ps: Seq<PlacementView>) -> Seq<TokenView> {
        ps.map_values(|p: PlacementView| p.token)
    }

    /// Copies of the tokens that lie in a zone, in the order of the
    /// placements. Fails where the zone is not there.
    pub fn get_tokens(&self, zone_name: &str) -> (r: Result<Vec<IToken>, HyperTokenError>)
        ensures
            has_zone_named(self.zones(), zone_name@) ==> r is Ok && crate::types::tokens_view(r->Ok_0@)
                == Self::tokens_of(zone_named(self.zones(), zone_name@).placements),
            !has_zone_named(self.zones(), zone_name@) ==> r is Err && r->Err_0 is ZoneNotFound,
    {
        let i = self.find(zone_name);
        if i >= self.state.zones.len() {
            return Err(HyperTokenError::ZoneNotFound(zone_name.to_owned()));
        }
        proof {
            assert(self.zones()[i as int] == (self.state.zones[i as int].0@, self.state.zones[i as int].1@));
        }
        let placements = &self.state.zones[i].1.placements;
        let ghost ps = placements_view(placements@);
        let mut tokens: Vec<IToken> = Vec::new();
        let mut k: usize = 0;
        proof {
            assert(crate::types::tokens_view(tokens@) =~= Self::tokens_of(ps).take(0));
        }
        while k < placements.len()
            invariant
                0 <= k <= placements.len(),
                ps == placements_view(placements@),
                crate::types::tokens_view(tokens@) == Self::tokens_of(ps).take(k as int),
            decreases placements.len() - k,
        {
            let ghost before = tokens@;
            let copy = placements[k].tokenSnapshot.deep_clone();
            tokens.push(copy);
            proof {
                assert(ps[k as int] == placements[k as int]@);
                assert(crate::types::tokens_view(tokens@) =~= crate::types::tokens_view(before).push(copy@));
                assert(Self::tokens_of(ps).take(k + 1) =~= Self::tokens_of(ps).take(k as int).push(
                    ps[k as int].token,
                ));
            }
            k = k + 1;
        }
        proof {
            assert(Self::tokens_of(ps).take(placements.len() as int) =~= Self::tokens_of(ps));
        }
        Ok(tokens)
    }

    /// Copies of the placements of a zone. Fails where the zone is not there.
    pub fn get_placements(&self, zone_name: &str) -> (r: Result<Vec<IPlacementCRDT>, HyperTokenError>)
        ensures
            has_zone_named(self.zones(), zone_name@) ==> r is Ok && placements_view(r->Ok_0@) == zone_named(
                self.zones(),
                zone_name@,
            ).placements,
            !has_zone_named(self.zones(), zone_name@) ==> r is Err && r->Err_0 is ZoneNotFound,
    {
        let i = self.find(zone_name);
        if i >= self.state.zones.len() {
            return Err(HyperTokenError::ZoneNotFound(zone_name.to_owned()));
        }
        proof {
            assert(self.zones()[i as int] == (self.state.zones[i as int].0@, self.state.zones[i as int].1@));
        }
        Ok(copy_placements(&self.state.zones[i].1.placements))
    }

    /// How many placements a zone holds. Fails where the zone is not there.
    pub fn count(&self, zone_name: &str) -> (r: Result<usize, HyperTokenError>)
        ensures
            has_zone_named(self.zones(), zone_name@) ==> r is Ok && r->Ok_0 == zone_named(
                self.zones(),
                zone_name@,
            ).placements.len(),
            !has_zone_named(self.zones(), zone_name@) ==> r is Err && r->Err_0 is ZoneNotFound,
    {
        let i = self.find(zone_name);
        if i >= self.state.zones.len() {
            return Err(HyperTokenError::ZoneNotFound(zone_name.to_owned()));
        }
        proof {
            assert(self.zones()[i as int] == (self.state.zones[i as int].0@, self.state.zones[i as int].1@));
        }
        Ok(self.state.zones[i].1.placements.len())
    }

    /// The names of the zones, in the order in which they were made.
    pub fn get_zone_names(&self) -> (r: Vec<String>)
        ensures
            r.deep_view() == self.zones().map_values(|e: (Seq<char>, ZoneView)| e.0),
    {
        let ghost want = self.zones().map_values(|e: (Seq<char>, ZoneView)| e.0);
        let mut names: Vec<String> = Vec::new();
        let mut i: usize = 0;
        proof {
            assert(names.deep_view() =~= want.take(0));
        }
        while i < self.state.zones.len()
            invariant
                0 <= i <= self.state.zones.len(),
                want == self.zones().map_values(|e: (Seq<char>, ZoneView)| e.0),
                names.deep_view() == want.take(i as int),
            decreases self.state.zones.len() - i,
        {
            let ghost before = names.deep_view();
            names.push(self.state.zones[i].0.clone());
            proof {
                assert(names.deep_view() =~= before.push(self.state.zones[i as int].0@));
                assert(want[i as int] == self.state.zones[i as int].0@);
                assert(want.take(i + 1) =~= want.take(i as int).push(want[i as int]));
            }
            i = i + 1;
        }
        proof {
            assert(want.take(self.state.zones.len() as int) =~= want);
        }
        names
    }

    /// The placement after a move: at the new coordinates where they are given.
    pub open spec fn moved(p: PlacementView, x: Option<automerge::ScalarValue>, y: Option<automerge::ScalarValue>) -> PlacementView {
        PlacementView {
            x: match x {
                Some(v) => Some(crate::engine::scalar_of(v)),
                None => p.x,
            },
            y: match y {
                Some(v) => Some(crate::engine::scalar_of(v)),
                None => p.y,
            },
            ..p
        }
    }

    /// Moves a placement from one zone to the end of another, which is
    /// made if it is not there, and to new coordinates where they are
    /// given.
    ///
    /// Fails, and changes nothing, where the zone it comes from is not
    /// there, is locked, or holds no such placement. Fails too where the
    /// zone it goes to is locked: the placement has then left its zone and
    /// is lost.
    pub fn move_token(
        &mut self,
        placement_id: &str,
        from_zone: &str,
        to_zone: &str,
        x: Option<automerge::ScalarValue>,
        y: Option<automerge::ScalarValue>,
    ) -> (r: Result<(), HyperTokenError>)
        requires
            old(self).wf(),
        ensures
            final(self).wf(),
            ({
                let zones = old(self).zones();
                let from = zone_named(zones, from_zone@);
                let at = placement_place(from.placements, placement_id@);
                if !has_zone_named(zones, from_zone@) {
                    r is Err && r->Err_0 is ZoneNotFound && final(self).zones() == zones
                } else if from.locked {
                    r is Err && r->Err_0 is ZoneLocked && final(self).zones() == zones
                } else if at >= from.placements.len() {
                    r is Err && r->Err_0 is TokenNotFound && final(self).zones() == zones
                } else {
                    let left = with_zone(
                        zones,
                        from_zone@,
                        ZoneView { placements: from.placements.remove(at), ..from },
                    );
                    let ready = Self::ensured(left, to_zone@);
                    let to = zone_named(ready, to_zone@);
                    if to.locked {
                        r is Err && r->Err_0 is ZoneLocked && final(self).zones() == ready
                    } else {
                        r is Ok && final(self).zones() == with_zone(
                            ready,
                            to_zone@,
                            ZoneView { placements: to.placements.push(Self::moved(from.placements[at], x, y)), ..to },
                        )
                    }
                }
            }),
    {
        let i = self.find(from_zone);
        if i >= self.state.zones.len() {
            return Err(HyperTokenError::ZoneNotFound(from_zone.to_owned()));
        }
        let ghost zones = self.zones();
        proof {
            assert(zones[i as int] == (self.state.zones[i as int].0@, self.state.zones[i as int].1@));
        }
        if self.state.zones[i].1.lock.locked {
            return Err(HyperTokenError::ZoneLocked(from_zone.to_owned()));
        }
        let index = find_placement(&self.state.zones[i].1.placements, placement_id);
        if index >= self.state.zones[i].1.placements.len() {
            return Err(HyperTokenError::TokenNotFound(placement_id.to_owned()));
        }
        let mut entry = self.state.zones.remove(i);
        let ghost before = entry.1.placements@;
        let mut placement = entry.1.placements.remove(index);
        proof {
            assert(placements_view(entry.1.placements@) =~= placements_view(before).remove(index as int));
        }
        self.state.zones.insert(i, entry);
        let ghost left = self.zones();
        proof {
            let from = zone_named(zones, from_zone@);
            assert(left =~= with_zone(
                zones,
                from_zone@,
                ZoneView { placements: from.placements.remove(index as int), ..from },
            ));
        }
        match x {
            Some(new_x) => {
                placement.x = Some(new_x);
            },
            None => {},
        }
        match y {
            Some(new_y) => {
                placement.y = Some(new_y);
            },
            None => {},
        }
        let k = self.ensure_zone(to_zone);
        let ghost ready = self.zones();
        proof {
            assert(ready[k as int] == (self.state.zones[k as int].0@, self.state.zones[k as int].1@));
        }
        if self.state.zones[k].1.lock.locked {
            return Err(HyperTokenError::ZoneLocked(to_zone.to_owned()));
        }
        let mut target = self.state.zones.remove(k);
        let ghost held = target.1.placements@;
        target.1.placements.push(placement);
        proof {
            assert(placements_view(target.1.placements@) =~= placements_view(held).push(placement@));
        }
        self.state.zones.insert(k, target);
        proof {
            let to = zone_named(ready, to_zone@);
            assert(self.zones() =~= with_zone(
                ready,
                to_zone@,
                ZoneView { placements: to.placements.push(placement@), ..to },
            ));
        }
        Ok(())
    }

    /// Shuffles the placements of a zone: with a seed always the same way,
    /// without one at random. Fails where the zone is not there or is locked.
    pub fn shuffle_zone(&mut self, zone_name: &str, seed: Option<String>) -> (r: Result<(), HyperTokenError>)
        requires
            old(self).wf(),
        ensures
            final(self).wf(),
            ({
                let zones = old(self).zones();
                let zone = zone_named(zones, zone_name@);
                if !has_zone_named(zones, zone_name@) {
                    r is Err && r->Err_0 is ZoneNotFound && final(self).zones() == zones
                } else if zone.locked {
                    r is Err && r->Err_0 is ZoneLocked && final(self).zones() == zones
                } else {
                    r is Ok && has_zone_named(final(self).zones(), zone_name@) && crate::utils::rearranged(
                        zone_named(final(self).zones(), zone_name@).placements,
                        zone.placements,
                    ) && final(self).zones() == with_zone(
                        zones,
                        zone_name@,
                        ZoneView { placements: zone_named(final(self).zones(), zone_name@).placements, ..zone },
                    )
                }
            }),
    {
        let i = self.find(zone_name);
        if i >= self.state.zones.len() {
            return Err(HyperTokenError::ZoneNotFound(zone_name.to_owned()));
        }
        let ghost zones = self.zones();
        proof {
            assert(zones[i as int] == (self.state.zones[i as int].0@, self.state.zones[i as int].1@));
        }
        if self.state.zones[i].1.lock.locked {
            return Err(HyperTokenError::ZoneLocked(zone_name.to_owned()));
        }
        let mut entry = self.state.zones.remove(i);
        let ghost before = entry.1.placements@;
        match &seed {
            Some(s) => shuffle_vec(&mut entry.1.placements, Some(s.as_str())),
            None => shuffle_vec(&mut entry.1.placements, None),
        }
        proof {
            let after = entry.1.placements@;
            let p = choose|p: Seq<int>|
                crate::utils::is_rearrangement(p, before.len()) && after.len() == before.len() && forall|
                    k: int,
                | 0 <= k < after.len() ==> after[k] == before[#[trigger] p[k]];
            assert forall|k: int| 0 <= k < after.len() implies placements_view(after)[k] == placements_view(
                before,
            )[#[trigger] p[k]] by {
                assert(after[k] == before[p[k]]);
            }
            assert(crate::utils::is_rearrangement(p, placements_view(before).len()));
            assert(placements_view(after).len() == placements_view(before).len());
            assert(crate::utils::rearranged(placements_view(after), placements_view(before)));
        }
        self.state.zones.insert(i, entry);
        proof {
            let zone = zone_named(zones, zone_name@);
            let shuffled = placements_view(self.state.zones[i as int].1.placements@);
            assert(self.zones() =~= with_zone(zones, zone_name@, ZoneView { placements: shuffled, ..zone }));
            lemma_zone_found(self.zones(), zone_name@, i as int);
        }
        Ok(())
    }

    /// Moves all placements of one zone to the end of another, which is
    /// made if it is not there, and returns how many there were. Fails
    /// where the zone they come from is not there, or either zone is locked.
    pub fn transfer_zone(&mut self, from_zone: &str, to_zone: &str) -> (r: Result<usize, HyperTokenError>)
        requires
            old(self).wf(),
        ensures
            final(self).wf(),
            ({
                let zones = old(self).zones();
                let ready = Self::ensured(zones, to_zone@);
                let from = zone_named(ready, from_zone@);
                if !has_zone_named(zones, from_zone@) {
                    r is Err && r->Err_0 is ZoneNotFound && final(self).zones() == zones
                } else if from.locked || zone_named(ready, to_zone@).locked {
                    r is Err && r->Err_0 is ZoneLocked && final(self).zones() == ready
                } else {
                    let emptied = with_zone(ready, from_zone@, ZoneView { placements: Seq::empty(), ..from });
                    let to = zone_named(emptied, to_zone@);
                    r is Ok && r->Ok_0 == from.placements.len() && final(self).zones() == with_zone(
                        emptied,
                        to_zone@,
                        ZoneView { placements: to.placements + from.placements, ..to },
                    )
                }
            }),
    {
        let ghost zones = self.zones();
        if self.find(from_zone) >= self.state.zones.len() {
            return Err(HyperTokenError::ZoneNotFound(from_zone.to_owned()));
        }
        let k = self.ensure_zone(to_zone);
        let ghost ready = self.zones();
        let i = self.find(from_zone);
        proof {
            lemma_zone_place(zones, from_zone@);
            lemma_zone_found(ready, from_zone@, zone_place(zones, from_zone@));
            assert(ready[i as int] == (self.state.zones[i as int].0@, self.state.zones[i as int].1@));
            assert(ready[k as int] == (self.state.zones[k as int].0@, self.state.zones[k as int].1@));
        }
        if self.state.zones[i].1.lock.locked {
            return Err(HyperTokenError::ZoneLocked(from_zone.to_owned()));
        }
        if self.state.zones[k].1.lock.locked {
            return Err(HyperTokenError::ZoneLocked(to_zone.to_owned()));
        }
        let mut source = self.state.zones.remove(i);
        let mut moving: Vec<IPlacementCRDT> = Vec::new();
        std::mem::swap(&mut moving, &mut source.1.placements);
        proof {
            assert(placements_view(source.1.placements@) =~= Seq::empty());
        }
        self.state.zones.insert(i, source);
        let ghost emptied = self.zones();
        proof {
            let from = zone_named(ready, from_zone@);
            assert(emptied =~= with_zone(ready, from_zone@, ZoneView { placements: Seq::empty(), ..from }));
            lemma_zone_place(ready, to_zone@);
            lemma_zone_found(emptied, to_zone@, k as int);
            assert(emptied[k as int] == (self.state.zones[k as int].0@, self.state.zones[k as int].1@));
        }
        let count = moving.len();
        let mut target = self.state.zones.remove(k);
        let ghost held = target.1.placements@;
        let ghost carried = moving@;
        target.1.placements.append(&mut moving);
        proof {
            assert(placements_view(target.1.placements@) =~= placements_view(held) + placements_view(carried));
        }
        self.state.zones.insert(k, target);
        proof {
            let to = zone_named(emptied, to_zone@);
            assert(self.zones() =~= with_zone(
                emptied,
                to_zone@,
                ZoneView { placements: to.placements + placements_view(carried), ..to },
            ));
        }
        Ok(count)
    }

    /// The zones, each emptied.
    pub open spec fn all_emptied(zones: Zones) -> Zones {
        zones.map_values(|e: (Seq<char>, ZoneView)| (e.0, ZoneView { placements: Seq::empty(), ..e.1 }))
    }

    /// Empties every zone. Fails, and changes nothing, where any zone is
    /// locked; the error names one that is.
    pub fn clear(&mut self) -> (r: Result<(), HyperTokenError>)
        requires
            old(self).wf(),
        ensures
            final(self).wf(),
            (exists|i: int| 0 <= i < old(self).zones().len() && old(self).zones()[i].1.locked) ==> r is Err
                && r->Err_0 is ZoneLocked && final(self).zones() == old(self).zones() && exists|i: int|
                0 <= i < old(self).zones().len() && old(self).zones()[i].1.locked && r->Err_0->ZoneLocked_0@
                    == old(self).zones()[i].0,
            (forall|i: int| 0 <= i < old(self).zones().len() ==> !old(self).zones()[i].1.locked) ==> r is Ok
                && final(self).zones() == Self::all_emptied(old(self).zones()),
    {
        let ghost zones = self.zones();
        let n = self.state.zones.len();
        let mut i: usize = 0;
        while i < n
            invariant
                0 <= i <= n,
                n == self.state.zones.len(),
                *self == *old(self),
                self.wf(),
                zones == self.zones(),
                forall|j: int| 0 <= j < i ==> !zones[j].1.locked,
            decreases n - i,
        {
            proof {
                assert(zones[i as int] == (self.state.zones[i as int].0@, self.state.zones[i as int].1@));
            }
            if self.state.zones[i].1.lock.locked {
                return Err(HyperTokenError::ZoneLocked(self.state.zones[i].0.clone()));
            }
            i = i + 1;
        }
        let mut k: usize = 0;
        while k < n
            invariant
                0 <= k <= n,
                n == self.state.zones.len(),
                zones.len() == n,
                forall|j: int| 0 <= j < k ==> self.zones()[j] == Self::all_emptied(zones)[j],
                forall|j: int| k <= j < n ==> self.zones()[j] == zones[j],
            decreases n - k,
        {
            let ghost before = self.zones();
            let mut entry = self.state.zones.remove(k);
            entry.1.placements.clear();
            proof {
                assert(placements_view(entry.1.placements@) =~= Seq::empty());
            }
            self.state.zones.insert(k, entry);
            proof {
                assert(self.zones() =~= before.update(k as int, Self::all_emptied(zones)[k as int]));
            }
            k = k + 1;
        }
        proof {
            assert(self.zones() =~= Self::all_emptied(zones));
        }
        Ok(())
    }

    /// The placements with the first of them at the given coordinates, one
    /// pair for each; those for which no pair is given stay.
    pub open spec fn arranged(ps: Seq<PlacementView>, at: Seq<(crate::engine::Scalar, crate::engine::Scalar)>) -> Seq<PlacementView> {
        Seq::new(
            ps.len(),
            |i: int|
                if i < at.len() {
                    PlacementView { x: Some(at[i].0), y: Some(at[i].1), ..ps[i] }
                } else {
                    ps[i]
                },
        )
    }

    /// The scalars of a list of coordinates.
    pub open spec fn coordinates(v: Seq<(automerge::ScalarValue, automerge::ScalarValue)>) -> Seq<(crate::engine::Scalar, crate::engine::Scalar)> {
        v.map_values(
            |e: (automerge::ScalarValue, automerge::ScalarValue)|
                (crate::engine::scalar_of(e.0), crate::engine::scalar_of(e.1)),
        )
    }

    /// Lays the placements of a zone out at the given coordinates, the
    /// first placement at the first pair and so on. Fails where the zone
    /// is not there or is locked.
    pub fn arrange(&mut self, zone_name: &str, positions: &Vec<(automerge::ScalarValue, automerge::ScalarValue)>) -> (r: Result<(), HyperTokenError>)
        requires
            old(self).wf(),
        ensures
            final(self).wf(),
            ({
                let zones = old(self).zones();
                let zone = zone_named(zones, zone_name@);
                if !has_zone_named(zones, zone_name@) {
                    r is Err && r->Err_0 is ZoneNotFound && final(self).zones() == zones
                } else if zone.locked {
                    r is Err && r->Err_0 is ZoneLocked && final(self).zones() == zones
                } else {
                    r is Ok && final(self).zones() == with_zone(
                        zones,
                        zone_name@,
                        ZoneView { placements: Self::arranged(zone.placements, Self::coordinates(positions@)), ..zone },
                    )
                }
            }),
    {
        let i = self.find(zone_name);
        if i >= self.state.zones.len() {
            return Err(HyperTokenError::ZoneNotFound(zone_name.to_owned()));
        }
        let ghost zones = self.zones();
        proof {
            assert(zones[i as int] == (self.state.zones[i as int].0@, self.state.zones[i as int].1@));
        }
        if self.state.zones[i].1.lock.locked {
            return Err(HyperTokenError::ZoneLocked(zone_name.to_owned()));
        }
        let mut entry = self.state.zones.remove(i);
        let ghost before = placements_view(entry.1.placements@);
        let ghost at = Self::coordinates(positions@);
        let n = entry.1.placements.len();
        let mut k: usize = 0;
        while k < n && k < positions.len()
            invariant
                0 <= k <= n,
                n == entry.1.placements.len(),
                before.len() == n,
                at == Self::coordinates(positions@),
                entry.0 == old(self).state.zones[i as int].0,
                entry.1.lock == old(self).state.zones[i as int].1.lock,
                forall|j: int| 0 <= j < k ==> placements_view(entry.1.placements@)[j] == Self::arranged(before, at)[j],
                forall|j: int| k <= j < n ==> placements_view(entry.1.placements@)[j] == before[j],
            decreases n - k,
        {
            let ghost held = entry.1.placements@;
            let mut placement = entry.1.placements.remove(k);
            placement.x = Some(positions[k].0.clone());
            placement.y = Some(positions[k].1.clone());
            entry.1.placements.insert(k, placement);
            proof {
                assert(placements_view(entry.1.placements@) =~= placements_view(held).update(k as int, placement@));
                assert(at[k as int] == (
                    crate::engine::scalar_of(positions[k as int].0),
                    crate::engine::scalar_of(positions[k as int].1),
                ));
            }
            k = k + 1;
        }
        proof {
            assert(placements_view(entry.1.placements@) =~= Self::arranged(before, at));
        }
        self.state.zones.insert(i, entry);
        proof {
            let zone = zone_named(zones, zone_name@);
            assert(self.zones() =~= with_zone(
                zones,
                zone_name@,
                ZoneView { placements: Self::arranged(zone.placements, at), ..zone },
            ));
        }
        Ok(())
    }

    /// Replaces the zones. No name may occur twice among them.
    pub fn set_state(&mut self, state: SpaceState) -> (r: Result<(), HyperTokenError>)
        requires
            state.wf(),
        ensures
            r is Ok,
            final(self).wf(),
            final(self).zones() == zones_view(state.zones@),
    {
        self.state = state;
        Ok(())
    }

    /// The zones.
    pub fn state(&self) -> (r: &SpaceState)
        ensures
            zones_view(r.zones@) == self.zones(),
    {
        &self.state
    }

    /// The zones, to change in place.
    pub fn state_mut(&mut self) -> (r: &mut SpaceState)
        ensures
            zones_view(r.zones@) == old(self).zones(),
            final(self).zones() == zones_view(final(r).zones@),
    {
        &mut self.state
    }
}

impl Default for Space {
    fn default() -> (r: Space)
        ensures
            r.zones().len() == 0,
            r.wf(),
    {
        Space::new()
    }
}

} // verus!

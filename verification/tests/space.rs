#![allow(non_snake_case)]

use automerge::ScalarValue;
use hypertoken_core::space::{Space, SpaceState, Zone};
use hypertoken_core::types::{HyperTokenError, IToken, ZoneLock};

fn create_test_token(id: &str, index: i32) -> IToken {
    IToken {
        id: id.to_string(),
        label: None,
        group: None,
        text: String::new(),
        meta: serde_json::Map::new(),
        char: "□".to_string(),
        kind: "default".to_string(),
        index,
        _rev: None,
        _tags: None,
        _attachments: None,
        _attachedTo: None,
        _attachmentType: None,
        _merged: None,
        _mergedInto: None,
        _mergedFrom: None,
        _mergedAt: None,
        _split: None,
        _splitInto: None,
        _splitFrom: None,
        _splitIndex: None,
        _splitAt: None,
    }
}

fn ids(space: &Space, zone: &str) -> Vec<String> {
    space.get_tokens(zone).unwrap().iter().map(|t| t.id.clone()).collect()
}

#[test]
fn test_space_creation() {
    let space = Space::new();
    assert!(space.get_zone_names().is_empty());
}

#[test]
fn test_create_zone() {
    let mut space = Space::new();
    space.create_zone("zone1".to_string()).unwrap();

    assert!(space.has_zone("zone1"));
    assert_eq!(space.get_zone_names().len(), 1);
}

#[test]
fn test_place_token() {
    let mut space = Space::new();
    let token = create_test_token("t1", 0);

    space.place("zone1", token, Some(ScalarValue::F64(10.0)), Some(ScalarValue::F64(20.0))).unwrap();

    assert_eq!(space.count("zone1").unwrap(), 1);
}

#[test]
fn test_remove_token() {
    let mut space = Space::new();
    let token = create_test_token("t1", 0);

    space.place("zone1", token, None, None).unwrap();
    assert_eq!(space.count("zone1").unwrap(), 1);

    space.remove("zone1", "t1").unwrap();
    assert_eq!(space.count("zone1").unwrap(), 0);
}

#[test]
fn test_move_token() {
    let mut space = Space::new();
    let token = create_test_token("t1", 0);

    space.place("zone1", token, None, None).unwrap();
    space.move_token("t1", "zone1", "zone2", Some(ScalarValue::F64(5.0)), Some(ScalarValue::F64(5.0))).unwrap();

    assert_eq!(space.count("zone1").unwrap(), 0);
    assert_eq!(space.count("zone2").unwrap(), 1);
}

#[test]
fn test_lock_zone() {
    let mut space = Space::new();
    space.create_zone("zone1".to_string()).unwrap();

    space.lock_zone("zone1", true).unwrap();
    assert!(space.is_zone_locked("zone1"));

    // Should fail to place in locked zone
    assert!(space.place("zone1", create_test_token("t1", 0), None, None).is_err());

    space.lock_zone("zone1", false).unwrap();
    assert!(!space.is_zone_locked("zone1"));

    // Should succeed now
    assert!(space.place("zone1", create_test_token("t1", 0), None, None).is_ok());
}

#[test]
fn test_clear_zone() {
    let mut space = Space::new();

    for i in 0..10 {
        let token = create_test_token(&format!("t{}", i), i);
        space.place("zone1", token, None, None).unwrap();
    }

    assert_eq!(space.count("zone1").unwrap(), 10);

    space.clear_zone("zone1").unwrap();
    assert_eq!(space.count("zone1").unwrap(), 0);
}

#[test]
fn test_shuffle_zone() {
    let mut space = Space::new();

    for i in 0..10 {
        let token = create_test_token(&format!("t{}", i), i);
        space.place("zone1", token, None, None).unwrap();
    }

    space.shuffle_zone("zone1", Some("test-seed".to_string())).unwrap();

    assert_eq!(space.count("zone1").unwrap(), 10);
    let mut sorted = ids(&space, "zone1");
    sorted.sort();
    assert_eq!(sorted, (0..10).map(|i| format!("t{}", i)).collect::<Vec<_>>());
}

#[test]
fn a_placement_is_made_face_up_at_the_given_place() {
    let mut space = Space::new();
    let p = space
        .place_as("z", create_test_token("t1", 0), Some(ScalarValue::F64(1.5)), None, "p-0-77".to_string(), 99)
        .unwrap();
    assert_eq!(p.id, "p-0-77");
    assert_eq!(p.tokenId, "t1");
    assert_eq!(p.tokenSnapshot.id, "t1");
    assert_eq!(p.x, Some(ScalarValue::F64(1.5)));
    assert_eq!(p.y, Some(ScalarValue::F64(0.0)));
    assert!(p.faceUp);
    assert!(!p.reversed);
    assert_eq!(p.ts, 99);
    assert!(p.label.is_none() && p.tags.is_empty());
    let held = space.get_placements("z").unwrap();
    assert_eq!(held.len(), 1);
    assert_eq!(held[0].id, "p-0-77");
    let q = space.place("z", create_test_token("t2", 1), None, None).unwrap();
    assert!(q.id.starts_with("p-1-"));
    assert_eq!(Space::placement_id(3, 1234), "p-3-1234");
}

#[test]
fn zones_are_made_once_and_deleted() {
    let mut space = Space::new();
    space.create_zone("a".to_string()).unwrap();
    assert!(matches!(space.create_zone("a".to_string()), Err(HyperTokenError::InvalidOperation(_))));
    space.create_zone("b".to_string()).unwrap();
    assert_eq!(space.get_zone_names(), vec!["a", "b"]);
    assert!(matches!(space.delete_zone("c"), Err(HyperTokenError::ZoneNotFound(_))));
    space.delete_zone("a").unwrap();
    assert_eq!(space.get_zone_names(), vec!["b"]);
    assert!(!space.has_zone("a"));
    assert!(matches!(space.count("a"), Err(HyperTokenError::ZoneNotFound(_))));
    assert!(matches!(space.get_tokens("a"), Err(HyperTokenError::ZoneNotFound(_))));
    assert!(matches!(space.get_placements("a"), Err(HyperTokenError::ZoneNotFound(_))));
    assert!(!space.is_zone_locked("a"));
}

#[test]
fn locking_notes_the_time_and_unlocking_forgets() {
    let mut space = Space::new();
    assert!(matches!(space.lock_zone("z", true), Err(HyperTokenError::ZoneNotFound(_))));
    space.create_zone("z".to_string()).unwrap();
    space.state_mut().zones[0].1.lock.locked_by = Some("me".to_string());
    space.lock_zone_at("z", true, 555).unwrap();
    assert!(space.state().zones[0].1.lock.locked);
    assert_eq!(space.state().zones[0].1.lock.locked_at, Some(555));
    assert_eq!(space.state().zones[0].1.lock.locked_by.as_deref(), Some("me"));
    space.lock_zone_at("z", false, 777).unwrap();
    assert!(!space.state().zones[0].1.lock.locked);
    assert_eq!(space.state().zones[0].1.lock.locked_at, None);
    assert_eq!(space.state().zones[0].1.lock.locked_by, None);
}

#[test]
fn a_locked_zone_refuses_changes() {
    let mut space = Space::new();
    space.place_as("z", create_test_token("t1", 0), None, None, "pa".to_string(), 1).unwrap();
    space.lock_zone("z", true).unwrap();
    assert!(matches!(space.remove("z", "pa"), Err(HyperTokenError::ZoneLocked(_))));
    assert!(matches!(space.flip("z", "pa", None), Err(HyperTokenError::ZoneLocked(_))));
    assert!(matches!(space.clear_zone("z"), Err(HyperTokenError::ZoneLocked(_))));
    assert!(matches!(space.shuffle_zone("z", None), Err(HyperTokenError::ZoneLocked(_))));
    assert!(matches!(space.move_token("pa", "z", "y", None, None), Err(HyperTokenError::ZoneLocked(_))));
    assert!(matches!(space.transfer_zone("z", "y"), Err(HyperTokenError::ZoneLocked(_))));
    assert!(matches!(space.arrange("z", &vec![]), Err(HyperTokenError::ZoneLocked(_))));
    match space.clear() {
        Err(HyperTokenError::ZoneLocked(name)) => assert_eq!(name, "z"),
        _ => panic!("a locked zone must stop the clearing"),
    }
    assert_eq!(space.count("z").unwrap(), 1);
}

#[test]
fn remove_and_flip_find_the_placement() {
    let mut space = Space::new();
    space.place_as("z", create_test_token("t1", 0), None, None, "pa".to_string(), 1).unwrap();
    space.place_as("z", create_test_token("t2", 1), None, None, "pb".to_string(), 2).unwrap();
    assert!(matches!(space.remove("z", "p9"), Err(HyperTokenError::TokenNotFound(_))));
    assert!(matches!(space.remove("y", "pa"), Err(HyperTokenError::ZoneNotFound(_))));
    assert!(matches!(space.flip("z", "p9", None), Err(HyperTokenError::TokenNotFound(_))));
    space.flip("z", "pb", None).unwrap();
    assert!(!space.get_placements("z").unwrap()[1].faceUp);
    space.flip("z", "pb", None).unwrap();
    assert!(space.get_placements("z").unwrap()[1].faceUp);
    space.flip("z", "pa", Some(false)).unwrap();
    space.flip("z", "pa", Some(false)).unwrap();
    assert!(!space.get_placements("z").unwrap()[0].faceUp);
    assert_eq!(space.remove("z", "pa").unwrap().id, "t1");
    assert_eq!(ids(&space, "z"), vec!["t2"]);
}

#[test]
fn a_move_to_a_locked_zone_loses_the_placement() {
    let mut space = Space::new();
    space.place_as("a", create_test_token("t1", 0), None, None, "pa".to_string(), 1).unwrap();
    space.create_zone("b".to_string()).unwrap();
    space.lock_zone("b", true).unwrap();
    assert!(matches!(space.move_token("pa", "a", "b", None, None), Err(HyperTokenError::ZoneLocked(_))));
    assert_eq!(space.count("a").unwrap(), 0);
    assert_eq!(space.count("b").unwrap(), 0);
}

#[test]
fn a_move_keeps_the_coordinates_that_are_not_given() {
    let mut space = Space::new();
    space
        .place_as("a", create_test_token("t1", 0), Some(ScalarValue::F64(1.0)), Some(ScalarValue::F64(2.0)), "pa".to_string(), 1)
        .unwrap();
    space.move_token("pa", "a", "a", None, Some(ScalarValue::F64(9.0))).unwrap();
    let p = &space.get_placements("a").unwrap()[0];
    assert_eq!(p.x, Some(ScalarValue::F64(1.0)));
    assert_eq!(p.y, Some(ScalarValue::F64(9.0)));
    assert!(matches!(space.move_token("pa", "nowhere", "a", None, None), Err(HyperTokenError::ZoneNotFound(_))));
    assert!(matches!(space.move_token("pz", "a", "b", None, None), Err(HyperTokenError::TokenNotFound(_))));
    assert!(!space.has_zone("b"));
}

#[test]
fn a_transfer_moves_everything_to_the_end() {
    let mut space = Space::new();
    space.place_as("a", create_test_token("t1", 0), None, None, "pa".to_string(), 1).unwrap();
    space.place_as("a", create_test_token("t2", 0), None, None, "pb".to_string(), 1).unwrap();
    space.place_as("b", create_test_token("t3", 0), None, None, "p3".to_string(), 1).unwrap();
    assert_eq!(space.transfer_zone("a", "b").unwrap(), 2);
    assert_eq!(ids(&space, "b"), vec!["t3", "t1", "t2"]);
    assert_eq!(space.count("a").unwrap(), 0);
    assert_eq!(space.transfer_zone("b", "b").unwrap(), 3);
    assert_eq!(ids(&space, "b"), vec!["t3", "t1", "t2"]);
    assert_eq!(space.transfer_zone("b", "c").unwrap(), 3);
    assert_eq!(space.count("c").unwrap(), 3);
    assert!(matches!(space.transfer_zone("zzz", "c"), Err(HyperTokenError::ZoneNotFound(_))));
    space.clear().unwrap();
    assert_eq!(space.count("c").unwrap(), 0);
    assert_eq!(space.get_zone_names(), vec!["a", "b", "c"]);
}

#[test]
fn arranging_sets_the_coordinates_in_order() {
    let mut space = Space::new();
    for i in 0..3 {
        space.place_as("z", create_test_token(&format!("t{}", i), i), None, None, format!("p{}", i), 1).unwrap();
    }
    let positions = vec![
        (ScalarValue::F64(1.0), ScalarValue::F64(2.0)),
        (ScalarValue::F64(3.0), ScalarValue::F64(4.0)),
    ];
    space.arrange("z", &positions).unwrap();
    let held = space.get_placements("z").unwrap();
    assert_eq!(held[0].x, Some(ScalarValue::F64(1.0)));
    assert_eq!(held[0].y, Some(ScalarValue::F64(2.0)));
    assert_eq!(held[1].x, Some(ScalarValue::F64(3.0)));
    assert_eq!(held[1].y, Some(ScalarValue::F64(4.0)));
    assert_eq!(held[2].x, Some(ScalarValue::F64(0.0)));
    assert!(matches!(space.arrange("y", &positions), Err(HyperTokenError::ZoneNotFound(_))));
}

#[test]
fn names_must_not_repeat() {
    let zone = || Zone { placements: vec![], lock: ZoneLock::default() };
    let good = SpaceState { zones: vec![("a".to_string(), zone()), ("b".to_string(), zone())] };
    let bad = SpaceState { zones: vec![("a".to_string(), zone()), ("b".to_string(), zone()), ("a".to_string(), zone())] };
    assert!(good.is_wf());
    assert!(!bad.is_wf());
    let mut space = Space::default();
    space.set_state(good).unwrap();
    assert_eq!(space.get_zone_names(), vec!["a", "b"]);
}

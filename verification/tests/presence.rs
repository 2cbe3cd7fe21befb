use eonserver::session::{HUNDRED_BITS, ZERO_BITS};
use eonserver::{
    client_disconnected, create_instance, delete_instance, join_instance, leave_instance,
    register_player, set_player_online, update_player_health, update_player_position, Database,
    Error, Identity, Instance, Player, ReducerContext, Timestamp, Transform,
};

fn id(n: u128) -> Identity {
    Identity { hi: 0, lo: n }
}

fn at(micros: i64) -> Timestamp {
    Timestamp { micros_since_unix_epoch: micros }
}

fn call(n: u128, micros: i64) -> ReducerContext {
    ReducerContext { sender: id(n), timestamp: at(micros) }
}

fn player(db: &Database, n: u128) -> Player {
    db.players().get(id(n)).unwrap().clone()
}

#[test]
fn bit_patterns_stand_for_zero_and_one_hundred() {
    assert_eq!(ZERO_BITS, 0.0f32.to_bits());
    assert_eq!(HUNDRED_BITS, 100.0f32.to_bits());
}

#[test]
fn a_registered_player_starts_online_at_the_origin_in_full_health() {
    let mut db = Database::new();
    assert_eq!(register_player(&mut db, &call(1, 10), "ann".to_string()), Ok(()));
    let p = player(&db, 1);
    assert_eq!(p.identity, id(1));
    assert_eq!(p.username, "ann");
    assert_eq!(p.instance_id, None);
    assert_eq!(
        [p.position_x, p.position_y, p.position_z, p.rotation_pitch, p.rotation_yaw, p.rotation_roll],
        [0u32; 6]
    );
    assert_eq!(f32::from_bits(p.health), 100.0);
    assert_eq!(f32::from_bits(p.max_health), 100.0);
    assert!(p.is_online);
    assert_eq!(p.last_seen, at(10));
}

#[test]
fn registering_twice_is_refused_and_keeps_the_first_record() {
    let mut db = Database::new();
    register_player(&mut db, &call(1, 10), "ann".to_string()).unwrap();
    assert_eq!(
        register_player(&mut db, &call(1, 20), "bob".to_string()),
        Err(Error::AlreadyExists)
    );
    assert_eq!(db.players().players().len(), 1);
    assert_eq!(player(&db, 1).username, "ann");
    assert_eq!(player(&db, 1).last_seen, at(10));
}

#[test]
fn presence_follows_the_connection() {
    let mut db = Database::new();
    register_player(&mut db, &call(1, 10), "ann".to_string()).unwrap();
    register_player(&mut db, &call(2, 11), "bob".to_string()).unwrap();
    assert!(client_disconnected(&mut db, &call(1, 30)));
    assert!(!player(&db, 1).is_online);
    assert_eq!(player(&db, 1).last_seen, at(30));
    assert!(player(&db, 2).is_online);
    assert_eq!(player(&db, 2).last_seen, at(11));
    assert!(set_player_online(&mut db, &call(1, 40), true));
    assert!(player(&db, 1).is_online);
    assert_eq!(player(&db, 1).last_seen, at(40));
    assert!(set_player_online(&mut db, &call(1, 50), false));
    assert!(!player(&db, 1).is_online);
}

#[test]
fn presence_of_an_unknown_caller_changes_nothing() {
    let mut db = Database::new();
    register_player(&mut db, &call(1, 10), "ann".to_string()).unwrap();
    assert!(!client_disconnected(&mut db, &call(2, 30)));
    assert!(!set_player_online(&mut db, &call(2, 30), false));
    assert!(!leave_instance(&mut db, &call(2, 30)));
    assert!(!update_player_health(&mut db, &call(2, 30), 7));
    assert!(player(&db, 1).is_online);
    assert_eq!(db.players().players().len(), 1);
}

#[test]
fn instances_get_rising_ids_and_belong_to_their_creator() {
    let mut db = Database::new();
    assert_eq!(create_instance(&mut db, &call(1, 10), "arena".to_string(), 4, true), Ok(1));
    assert_eq!(create_instance(&mut db, &call(2, 20), "cave".to_string(), 0, false), Ok(2));
    let rows = db.instances().instances();
    assert_eq!(rows.len(), 2);
    assert_eq!(rows[0].name, "arena");
    assert_eq!(rows[0].max_players, 4);
    assert!(rows[0].is_public);
    assert_eq!(rows[0].created_at, at(10));
    assert_eq!(rows[0].owner_identity, id(1));
    assert_eq!(rows[1].instance_id, 2);
    assert_eq!(rows[1].owner_identity, id(2));
    assert!(!rows[1].is_public);
    assert_eq!(db.instances().next_instance_id(), 3);
}

#[test]
fn joining_puts_the_player_at_the_entry_point() {
    let mut db = Database::new();
    register_player(&mut db, &call(1, 10), "ann".to_string()).unwrap();
    create_instance(&mut db, &call(1, 11), "arena".to_string(), 4, true).unwrap();
    let there = Transform { x: 5, y: 6, z: 7, pitch: 8, yaw: 9, roll: 10 };
    update_player_position(&mut db, &call(1, 12), there);
    assert_eq!(join_instance(&mut db, &call(1, 13), 1), Ok(()));
    let p = player(&db, 1);
    assert_eq!(p.instance_id, Some(1));
    assert_eq!(f32::from_bits(p.position_x), 0.0);
    assert_eq!(f32::from_bits(p.position_y), 0.0);
    assert_eq!(f32::from_bits(p.position_z), 100.0);
    assert_eq!([p.rotation_pitch, p.rotation_yaw, p.rotation_roll], [8, 9, 10]);
    assert_eq!(p.last_seen, at(12));
}

#[test]
fn joining_an_unknown_instance_is_refused() {
    let mut db = Database::new();
    register_player(&mut db, &call(1, 10), "ann".to_string()).unwrap();
    assert_eq!(join_instance(&mut db, &call(1, 13), 1), Err(Error::UnknownInstance));
    assert_eq!(player(&db, 1).instance_id, None);
}

#[test]
fn joining_a_full_instance_is_refused() {
    let mut db = Database::new();
    create_instance(&mut db, &call(9, 1), "duel".to_string(), 2, true).unwrap();
    for n in 1..=3 {
        register_player(&mut db, &call(n, 10), format!("p{}", n)).unwrap();
    }
    assert_eq!(join_instance(&mut db, &call(1, 11), 1), Ok(()));
    assert_eq!(join_instance(&mut db, &call(2, 12), 1), Ok(()));
    assert_eq!(join_instance(&mut db, &call(3, 13), 1), Err(Error::InstanceFull));
    assert_eq!(player(&db, 3).instance_id, None);
    assert_eq!(db.players().count_present(1), 2);
}

#[test]
fn offline_players_do_not_fill_an_instance() {
    let mut db = Database::new();
    create_instance(&mut db, &call(9, 1), "duel".to_string(), 1, true).unwrap();
    register_player(&mut db, &call(1, 10), "ann".to_string()).unwrap();
    register_player(&mut db, &call(2, 10), "bob".to_string()).unwrap();
    join_instance(&mut db, &call(1, 11), 1).unwrap();
    assert_eq!(join_instance(&mut db, &call(2, 12), 1), Err(Error::InstanceFull));
    set_player_online(&mut db, &call(1, 13), false);
    assert_eq!(db.players().count_present(1), 0);
    assert_eq!(join_instance(&mut db, &call(2, 14), 1), Ok(()));
    assert_eq!(player(&db, 2).instance_id, Some(1));
}

#[test]
fn an_instance_for_nobody_is_always_full() {
    let mut db = Database::new();
    create_instance(&mut db, &call(9, 1), "void".to_string(), 0, true).unwrap();
    register_player(&mut db, &call(1, 10), "ann".to_string()).unwrap();
    assert_eq!(join_instance(&mut db, &call(1, 11), 1), Err(Error::InstanceFull));
}

#[test]
fn joining_without_a_player_record_is_refused() {
    let mut db = Database::new();
    create_instance(&mut db, &call(9, 1), "arena".to_string(), 4, true).unwrap();
    assert_eq!(join_instance(&mut db, &call(1, 11), 1), Err(Error::UnknownPlayer));
    assert!(db.players().players().is_empty());
}

#[test]
fn leaving_puts_the_player_outside() {
    let mut db = Database::new();
    create_instance(&mut db, &call(9, 1), "arena".to_string(), 4, true).unwrap();
    register_player(&mut db, &call(1, 10), "ann".to_string()).unwrap();
    join_instance(&mut db, &call(1, 11), 1).unwrap();
    assert!(leave_instance(&mut db, &call(1, 12)));
    let p = player(&db, 1);
    assert_eq!(p.instance_id, None);
    assert_eq!(f32::from_bits(p.position_z), 100.0);
    assert_eq!(p.last_seen, at(10));
}

#[test]
fn deleting_an_instance_puts_its_players_outside() {
    let mut db = Database::new();
    create_instance(&mut db, &call(9, 1), "arena".to_string(), 4, true).unwrap();
    create_instance(&mut db, &call(9, 2), "cave".to_string(), 4, true).unwrap();
    for n in 1..=3 {
        register_player(&mut db, &call(n, 10), format!("p{}", n)).unwrap();
    }
    join_instance(&mut db, &call(1, 11), 1).unwrap();
    join_instance(&mut db, &call(2, 11), 2).unwrap();
    join_instance(&mut db, &call(3, 11), 1).unwrap();
    assert_eq!(delete_instance(&mut db, &call(9, 20), 1), Ok(()));
    assert_eq!(player(&db, 1).instance_id, None);
    assert_eq!(player(&db, 2).instance_id, Some(2));
    assert_eq!(player(&db, 3).instance_id, None);
    let rows = db.instances().instances();
    assert_eq!(rows.len(), 1);
    assert_eq!(rows[0].instance_id, 2);
    assert!(db.instances().get(1).is_none());
}

#[test]
fn deleting_another_players_instance_is_refused() {
    let mut db = Database::new();
    create_instance(&mut db, &call(9, 1), "arena".to_string(), 4, true).unwrap();
    register_player(&mut db, &call(1, 10), "ann".to_string()).unwrap();
    join_instance(&mut db, &call(1, 11), 1).unwrap();
    assert_eq!(delete_instance(&mut db, &call(1, 20), 1), Err(Error::NotOwner));
    assert_eq!(db.instances().instances().len(), 1);
    assert_eq!(player(&db, 1).instance_id, Some(1));
}

#[test]
fn deleting_an_unknown_instance_is_refused() {
    let mut db = Database::new();
    assert_eq!(delete_instance(&mut db, &call(1, 20), 1), Err(Error::UnknownInstance));
}

#[test]
fn ids_of_deleted_instances_are_not_used_again() {
    let mut db = Database::new();
    create_instance(&mut db, &call(9, 1), "arena".to_string(), 4, true).unwrap();
    delete_instance(&mut db, &call(9, 2), 1).unwrap();
    assert_eq!(create_instance(&mut db, &call(9, 3), "arena".to_string(), 4, true), Ok(2));
}

#[test]
fn position_is_written_as_sent() {
    let mut db = Database::new();
    register_player(&mut db, &call(1, 10), "ann".to_string()).unwrap();
    let there = Transform {
        x: 1.5f32.to_bits(),
        y: (-2.25f32).to_bits(),
        z: 300.0f32.to_bits(),
        pitch: 0.1f32.to_bits(),
        yaw: 3.0f32.to_bits(),
        roll: f32::NAN.to_bits(),
    };
    assert!(update_player_position(&mut db, &call(1, 25), there));
    let p = player(&db, 1);
    assert_eq!(f32::from_bits(p.position_x), 1.5);
    assert_eq!(f32::from_bits(p.position_y), -2.25);
    assert_eq!(f32::from_bits(p.position_z), 300.0);
    assert_eq!(f32::from_bits(p.rotation_pitch), 0.1);
    assert_eq!(f32::from_bits(p.rotation_yaw), 3.0);
    assert!(f32::from_bits(p.rotation_roll).is_nan());
    assert_eq!(p.last_seen, at(25));
    assert!(!update_player_position(&mut db, &call(2, 26), there));
}

#[test]
fn health_is_written_as_sent() {
    let mut db = Database::new();
    register_player(&mut db, &call(1, 10), "ann".to_string()).unwrap();
    assert!(update_player_health(&mut db, &call(1, 25), 42.5f32.to_bits()));
    let p = player(&db, 1);
    assert_eq!(f32::from_bits(p.health), 42.5);
    assert_eq!(f32::from_bits(p.max_health), 100.0);
    assert_eq!(p.last_seen, at(10));
}

#[test]
fn saved_players_and_instances_are_taken_in_with_their_keys() {
    let mut db = Database::new();
    let instance = Instance {
        instance_id: 40,
        name: "old".to_string(),
        max_players: 3,
        is_public: false,
        created_at: at(1),
        owner_identity: id(9),
    };
    assert_eq!(db.insert_instance(instance.clone()), Ok(()));
    assert_eq!(db.insert_instance(instance), Err(Error::AlreadyExists));
    assert_eq!(db.instances().next_instance_id(), 41);
    let mut last = db.instances().get(40).unwrap().clone();
    last.instance_id = u64::MAX;
    assert_eq!(db.insert_instance(last), Err(Error::LimitReached));
    assert_eq!(create_instance(&mut db, &call(1, 2), "new".to_string(), 1, true), Ok(41));

    register_player(&mut db, &call(1, 10), "ann".to_string()).unwrap();
    let mut saved = player(&db, 1);
    assert_eq!(db.insert_player(saved.clone()), Err(Error::AlreadyExists));
    saved.identity = id(2);
    saved.instance_id = Some(40);
    assert_eq!(db.insert_player(saved), Ok(()));
    assert_eq!(db.players().count_present(40), 1);
    assert!(db.players().contains(id(2)));
    assert!(!db.players().contains(id(3)));
}

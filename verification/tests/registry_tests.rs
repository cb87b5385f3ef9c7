use room_registry::registry::{JoinError, Registry};

fn code_ok(code: &str) -> bool {
    code.len() == 6 && code.chars().all(|c| c.is_ascii_uppercase() || c.is_ascii_digit())
}

#[test]
fn create_then_get_returns_host_room() {
    let mut reg = Registry::new();
    let room = reg.create("Ada".to_owned()).expect("create should find a free code");
    assert!(code_ok(&room.code));
    assert_eq!(room.players.len(), 1);
    assert_eq!(room.players[0].name, "Ada");
    assert_eq!(room.players[0].score, 0);
    assert_eq!(room.current_question_index, 0);
    // the player identifier is a hyphenated UUID: 36 characters
    assert_eq!(room.players[0].id.len(), 36);

    let got = reg.get(&room.code).expect("created room should be found");
    assert_eq!(got.code, room.code);
    assert_eq!(got.players.len(), 1);
    assert_eq!(got.players[0].name, "Ada");
    assert_eq!(got.players[0].score, 0);
}

#[test]
fn join_missing_code_fails_not_found() {
    let mut reg = Registry::new();
    let res = reg.join(&"ZZZZZZ".to_owned(), "Bea".to_owned());
    assert!(matches!(res, Err(JoinError::RoomNotFound)));
    assert!(reg.get(&"ZZZZZZ".to_owned()).is_none());

    // the registry is left unchanged: a room created before still has one
    // player ("zzzzzz" is lowercase, so no generated code can equal it)
    let room = reg.create("Ada".to_owned()).expect("create should find a free code");
    let res = reg.join(&"zzzzzz".to_owned(), "Bea".to_owned());
    assert!(matches!(res, Err(JoinError::RoomNotFound)));
    let got = reg.get(&room.code).expect("created room should be found");
    assert_eq!(got.players.len(), 1);
}

#[test]
fn join_fresh_room_succeeds_in_order() {
    let mut reg = Registry::new();
    let room = reg.create("Ada".to_owned()).expect("create should find a free code");
    let joined = reg
        .join(&room.code, "Grace".to_owned())
        .expect("join on a one-player room should succeed");
    assert_eq!(joined.code, room.code);
    assert_eq!(joined.players.len(), 2);
    assert_eq!(joined.players[0].name, "Ada");
    assert_eq!(joined.players[1].name, "Grace");
    assert_eq!(joined.players[1].score, 0);
    assert_eq!(joined.players[1].id.len(), 36);
}

#[test]
fn second_join_fails_room_full() {
    let mut reg = Registry::new();
    let room = reg.create("Ada".to_owned()).expect("create should find a free code");
    reg.join(&room.code, "Grace".to_owned())
        .expect("join on a one-player room should succeed");
    let res = reg.join(&room.code, "Max".to_owned());
    assert!(matches!(res, Err(JoinError::RoomFull)));
    // no partial append: the room still has exactly two players
    let got = reg.get(&room.code).expect("room should still be found");
    assert_eq!(got.players.len(), 2);
    assert_eq!(got.players[0].name, "Ada");
    assert_eq!(got.players[1].name, "Grace");
}

#[test]
fn serialized_contention_one_winner() {
    let mut reg = Registry::new();
    let room = reg.create("Ada".to_owned()).expect("create should find a free code");
    let mut successes = 0;
    let mut full = 0;
    for k in 0..5 {
        match reg.join(&room.code, format!("Joiner{}", k)) {
            Ok(r) => {
                successes += 1;
                assert_eq!(r.players.len(), 2);
            }
            Err(JoinError::RoomFull) => full += 1,
            Err(JoinError::RoomNotFound) => panic!("room should exist"),
        }
    }
    assert_eq!(successes, 1);
    assert_eq!(full, 4);
    let got = reg.get(&room.code).expect("room should still be found");
    assert_eq!(got.players.len(), 2);
}

#[test]
fn create_get_round_trip() {
    let mut reg = Registry::new();
    for k in 0..8 {
        let room = reg.create(format!("Host{}", k)).expect("create should find a free code");
        let got = reg.get(&room.code).expect("created room should be found");
        assert_eq!(got.code, room.code);
    }
}

#[test]
fn scenario_create_join_full_lookup() {
    let mut reg = Registry::new();
    let room = reg.create("Ada".to_owned()).expect("create should find a free code");
    assert!(code_ok(&room.code));
    let joined = reg
        .join(&room.code, "Grace".to_owned())
        .expect("join on a one-player room should succeed");
    let names: Vec<&str> = joined.players.iter().map(|p| p.name.as_str()).collect();
    assert_eq!(names, vec!["Ada", "Grace"]);
    let res = reg.join(&room.code, "Max".to_owned());
    assert!(matches!(res, Err(JoinError::RoomFull)));
    if room.code != "ZZZZZZ" {
        assert!(reg.get(&"ZZZZZZ".to_owned()).is_none());
    }
}

#[test]
fn rooms_are_independent() {
    let mut reg = Registry::new();
    let a = reg.create("Ada".to_owned()).expect("create should find a free code");
    let b = reg.create("Bea".to_owned()).expect("create should find a free code");
    assert_ne!(a.code, b.code);
    reg.join(&a.code, "Grace".to_owned())
        .expect("join on a one-player room should succeed");
    let got_b = reg.get(&b.code).expect("second room should be found");
    assert_eq!(got_b.players.len(), 1);
    assert_eq!(got_b.players[0].name, "Bea");
}

#[test]
fn empty_host_name_is_accepted() {
    let mut reg = Registry::new();
    let room = reg.create(String::new()).expect("create should find a free code");
    assert_eq!(room.players[0].name, "");
    let got = reg.get(&room.code).expect("created room should be found");
    assert_eq!(got.players[0].name, "");
}

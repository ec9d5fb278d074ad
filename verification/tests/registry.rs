use rxx::db::{fresh, generate_nonce, seconds_since_epoch, unix_now, Database, Registration};
use rxx::db::{RegistryError, FRESHNESS_WINDOW_SECS};
use rxx::error::ErrorKind;
use rxx::identifier::{normalize_id, validate_id, IdError};
use rxx::server::{register, register_with, update, update_at};
use rxx::server::{RegisterReply, RegisterRequest, UpdateReply, UpdateRequest};

const NONCE_A: &str = "Ab3dEf6hIj9kLm2nOp5qRs8tUv1wXy4z";
const NONCE_B: &str = "zY9xWv8uTs7rQp6oNm5lKj4iHg3fEd2c";
const YEAR: i64 = 31_536_000;

fn register_request(id: &str, address: &str) -> RegisterRequest {
    RegisterRequest {
        id: id.to_string(),
        address: address.to_string(),
    }
}

fn update_request(id: &str, address: &str, nonce: &str, peer_id: &str) -> UpdateRequest {
    UpdateRequest {
        id: id.to_string(),
        address: address.to_string(),
        nonce: nonce.to_string(),
        peer_id: peer_id.to_string(),
    }
}

fn nonce_of(reply: RegisterReply) -> String {
    match reply {
        RegisterReply::Registered(body) => body.nonce,
        other => panic!("not registered: {:?}", other),
    }
}

#[test]
fn register_alice_then_again_conflicts() {
    let mut db = Database::new();
    let reply = register_with(
        &mut db,
        &register_request("alice", "2001:db8::1"),
        NONCE_A.to_string(),
        1_700_000_000,
    );
    assert_eq!(reply.status(), 200);
    assert_eq!(nonce_of(reply), NONCE_A);
    let again = register_with(
        &mut db,
        &register_request("alice", "2001:db8::9"),
        NONCE_B.to_string(),
        1_700_000_100,
    );
    assert_eq!(again.status(), 409);
    assert!(matches!(again, RegisterReply::Conflict));
    let row = db.record("alice").unwrap();
    assert_eq!(row.nonce, NONCE_A);
    assert_eq!(row.address, "2001:db8::1");
    assert_eq!(row.updated_at, 1_700_000_000);
    assert_eq!(db.rows().len(), 1);
}

#[test]
fn update_when_peer_is_absent_is_not_found() {
    let mut db = Database::new();
    register_with(
        &mut db,
        &register_request("alice", "2001:db8::1"),
        NONCE_A.to_string(),
        1_700_000_000,
    );
    let reply = update_at(
        &mut db,
        &update_request("alice", "2001:db8::1", NONCE_A, "bob"),
        1_700_000_010,
    );
    assert_eq!(reply.status(), 404);
    assert!(matches!(reply, UpdateReply::NotFound));
}

#[test]
fn update_after_bob_registered_resolves_him() {
    let mut db = Database::new();
    register_with(
        &mut db,
        &register_request("alice", "2001:db8::1"),
        NONCE_A.to_string(),
        1_700_000_000,
    );
    register_with(
        &mut db,
        &register_request("bob", "2001:db8::2"),
        NONCE_B.to_string(),
        1_700_000_005,
    );
    let reply = update_at(
        &mut db,
        &update_request("alice", "2001:db8::1", NONCE_A, "bob"),
        1_700_000_010,
    );
    assert_eq!(reply.status(), 200);
    match reply {
        UpdateReply::Resolved(body) => assert_eq!(body.peer_address, "2001:db8::2"),
        other => panic!("not resolved: {:?}", other),
    }
}

#[test]
fn update_with_wrong_nonce_is_unauthorized_and_changes_nothing() {
    let mut db = Database::new();
    register_with(
        &mut db,
        &register_request("alice", "2001:db8::1"),
        NONCE_A.to_string(),
        1_700_000_000,
    );
    register_with(
        &mut db,
        &register_request("bob", "2001:db8::2"),
        NONCE_B.to_string(),
        1_700_000_005,
    );
    let reply = update_at(
        &mut db,
        &update_request("alice", "2001:db8::66", NONCE_B, "bob"),
        1_700_000_010,
    );
    assert_eq!(reply.status(), 401);
    assert!(matches!(reply, UpdateReply::Unauthorized));
    let row = db.record("alice").unwrap();
    assert_eq!(row.address, "2001:db8::1");
    assert_eq!(row.updated_at, 1_700_000_000);
    // The same answer whether or not the peer exists.
    let reply = update_at(
        &mut db,
        &update_request("alice", "2001:db8::66", NONCE_B, "nobody"),
        1_700_000_010,
    );
    assert_eq!(reply.status(), 401);
    // An identifier that is not registered is not authorised either.
    let reply = update_at(
        &mut db,
        &update_request("carol", "2001:db8::3", NONCE_A, "bob"),
        1_700_000_010,
    );
    assert_eq!(reply.status(), 401);
    assert!(db.record("carol").is_none());
    // Nor is an empty nonce.
    let reply = update_at(
        &mut db,
        &update_request("alice", "2001:db8::66", "", "bob"),
        1_700_000_010,
    );
    assert_eq!(reply.status(), 401);
}

#[test]
fn update_with_new_address_writes_it_with_the_time() {
    let mut db = Database::new();
    db.register_with("alice", "2001:db8::1", NONCE_A.to_string(), 100);
    assert!(db.update_at("alice", "2001:db8::7", NONCE_A, 250));
    let row = db.record("alice").unwrap();
    assert_eq!(row.address, "2001:db8::7");
    assert_eq!(row.updated_at, 250);
    assert_eq!(row.nonce, NONCE_A);
    assert_eq!(row.id, "alice");
}

#[test]
fn update_twice_with_the_same_address_writes_nothing() {
    let mut db = Database::new();
    db.register_with("alice", "2001:db8::1", NONCE_A.to_string(), 100);
    assert!(db.update_at("alice", "2001:db8::1", NONCE_A, 200));
    assert_eq!(db.record("alice").unwrap().updated_at, 100);
    assert!(db.update_at("alice", "2001:db8::5", NONCE_A, 300));
    assert_eq!(db.record("alice").unwrap().updated_at, 300);
    assert!(db.update_at("alice", "2001:db8::5", NONCE_A, 400));
    let row = db.record("alice").unwrap();
    assert_eq!(row.updated_at, 300);
    assert_eq!(row.address, "2001:db8::5");
}

#[test]
fn stale_record_is_invisible_but_stays() {
    let mut db = Database::new();
    db.register_with("alice", "2001:db8::1", NONCE_A.to_string(), 1_000_000);
    db.register_with("bob", "2001:db8::2", NONCE_B.to_string(), 1_000_000);
    let now = 1_000_000 + YEAR + 1;
    assert_eq!(db.get_ipv6_at("bob", now), None);
    let reply = update_at(
        &mut db,
        &update_request("alice", "2001:db8::1", NONCE_A, "bob"),
        now,
    );
    assert_eq!(reply.status(), 404);
    let row = db.record("bob").unwrap();
    assert_eq!(row.address, "2001:db8::2");
    assert_eq!(row.updated_at, 1_000_000);
    assert_eq!(db.rows().len(), 2);
    // Bob refreshes his address and is found again.
    assert!(db.update_at("bob", "2001:db8::22", NONCE_B, now));
    assert_eq!(db.get_ipv6_at("bob", now), Some("2001:db8::22".to_string()));
}

#[test]
fn freshness_window_is_one_year_exactly() {
    assert_eq!(FRESHNESS_WINDOW_SECS, 31_536_000);
    assert_eq!(FRESHNESS_WINDOW_SECS, 365 * 24 * 60 * 60);
    assert!(fresh(0, 0));
    assert!(fresh(1000, YEAR + 999));
    assert!(!fresh(1000, YEAR + 1000));
    assert!(!fresh(1000, YEAR + 1001));
    assert!(fresh(1000, 0));
    assert!(!fresh(i64::MIN, i64::MAX));
    assert!(fresh(i64::MAX, i64::MIN));
    let mut db = Database::new();
    db.register_with("bob", "2001:db8::2", NONCE_B.to_string(), 1000);
    assert!(db.get_ipv6_at("bob", YEAR + 999).is_some());
    assert!(db.get_ipv6_at("bob", YEAR + 1000).is_none());
}

#[test]
fn identifiers_are_keyed_by_their_lower_case_form() {
    let mut db = Database::new();
    let (created, nonce) = db.register_with("Alice", "2001:db8::1", NONCE_A.to_string(), 5);
    assert!(created);
    assert_eq!(nonce, NONCE_A);
    let (created, nonce) = db.register_with("ALICE", "2001:db8::2", NONCE_B.to_string(), 6);
    assert!(!created);
    assert_eq!(nonce, "");
    assert_eq!(db.record("aLiCe").unwrap().id, "alice");
    assert_eq!(db.get_ipv6_at("ALICE", 7), Some("2001:db8::1".to_string()));
    assert!(db.update_at("aliCE", "2001:db8::3", NONCE_A, 8));
    assert_eq!(db.get_ipv6_at("alice", 9), Some("2001:db8::3".to_string()));
    assert_eq!(normalize_id("A.b-C_9"), "a.b-c_9");
    assert_eq!(normalize_id("@[`{AZaz"), "@[`{azaz");
    assert_eq!(normalize_id("ÄB"), "ÄB");
    assert_eq!(normalize_id(""), "");
}

#[test]
fn invalid_identifier_is_a_bad_request() {
    let mut db = Database::new();
    for id in ["", "-alice", "alice-", "al ice", "a/b", "abcdefghijklmnopqrstu", "älice"] {
        let reply = register_with(
            &mut db,
            &register_request(id, "2001:db8::1"),
            NONCE_A.to_string(),
            1,
        );
        assert_eq!(reply.status(), 400, "{}", id);
        assert!(matches!(reply, RegisterReply::BadRequest));
    }
    assert!(db.rows().is_empty());
}

#[test]
fn identifier_rule() {
    for id in ["a", "alice", "user123", "a.b-c_d", "A", "0", "abcdefghijklmnopqrst", "a-.-b"] {
        assert_eq!(validate_id(id), Ok(()), "{}", id);
    }
    assert_eq!(validate_id(""), Err(IdError::Length));
    assert_eq!(validate_id("abcdefghijklmnopqrstu"), Err(IdError::Length));
    assert_eq!(validate_id(".alice"), Err(IdError::Edge));
    assert_eq!(validate_id("alice_"), Err(IdError::Edge));
    assert_eq!(validate_id("-"), Err(IdError::Edge));
    assert_eq!(validate_id("ünal"), Err(IdError::Edge));
    assert_eq!(validate_id("al ice"), Err(IdError::Character));
    assert_eq!(validate_id("al:ice"), Err(IdError::Character));
    assert_eq!(validate_id("aéb"), Err(IdError::Character));
    // Twenty characters, though more than twenty bytes.
    assert_eq!(validate_id("aééééééééééééééééééb"), Err(IdError::Character));
    assert_eq!(IdError::Length.kind(), ErrorKind::InvalidIdentifier);
    assert_eq!(
        IdError::Length.message(),
        "ID must be between 1 and 20 characters"
    );
    assert_eq!(
        IdError::Edge.message(),
        "ID must start and end with alphanumeric characters"
    );
    assert_eq!(
        IdError::Character.message(),
        "ID can only contain alphanumeric characters, dots, hyphens, and underscores"
    );
}

#[test]
fn nonce_is_32_letters_and_digits() {
    let mut seen = std::collections::HashSet::new();
    for _ in 0..200 {
        let nonce = generate_nonce();
        assert_eq!(nonce.len(), 32);
        assert!(nonce.chars().all(|c| c.is_ascii_alphanumeric()));
        seen.insert(nonce);
    }
    assert!(seen.len() > 190);
}

#[test]
fn register_now_issues_a_nonce_and_stores_the_time() {
    let mut db = Database::new();
    let before = unix_now().unwrap();
    let reply = register(&mut db, &register_request("alice", "2001:db8::1"));
    let after = unix_now().unwrap();
    assert_eq!(reply.status(), 200);
    let nonce = nonce_of(reply);
    assert_eq!(nonce.len(), 32);
    assert!(nonce.chars().all(|c| c.is_ascii_alphanumeric()));
    let row = db.record("alice").unwrap();
    assert_eq!(row.nonce, nonce);
    assert!(before <= row.updated_at && row.updated_at <= after);
    assert!(before > 1_600_000_000);
    assert_eq!(
        register(&mut db, &register_request("alice", "2001:db8::1")).status(),
        409
    );
    assert_eq!(
        register(&mut db, &register_request("", "2001:db8::1")).status(),
        400
    );
    let (created, nonce) = db.register("bob", "2001:db8::2").unwrap();
    assert!(created);
    assert_eq!(nonce.len(), 32);
    let (created, nonce) = db.register("bob", "2001:db8::2").unwrap();
    assert!(!created);
    assert_eq!(nonce, "");
}

#[test]
fn update_now_refreshes_and_resolves() {
    let mut db = Database::new();
    let alice = nonce_of(register(&mut db, &register_request("alice", "2001:db8::1")));
    let bob = nonce_of(register(&mut db, &register_request("bob", "2001:db8::2")));
    let reply = update(&mut db, &update_request("alice", "2001:db8::11", &alice, "bob"));
    match reply {
        UpdateReply::Resolved(body) => assert_eq!(body.peer_address, "2001:db8::2"),
        other => panic!("not resolved: {:?}", other),
    }
    assert_eq!(db.record("alice").unwrap().address, "2001:db8::11");
    let reply = update(&mut db, &update_request("bob", "2001:db8::2", &bob, "alice"));
    match reply {
        UpdateReply::Resolved(body) => assert_eq!(body.peer_address, "2001:db8::11"),
        other => panic!("not resolved: {:?}", other),
    }
    assert_eq!(
        update(&mut db, &update_request("bob", "2001:db8::2", &alice, "alice")).status(),
        401
    );
    assert_eq!(
        update(&mut db, &update_request("bob", "2001:db8::2", &bob, "carol")).status(),
        404
    );
    assert_eq!(db.update("bob", "2001:db8::2", &bob), Ok(true));
    assert_eq!(db.update("bob", "2001:db8::2", &alice), Ok(false));
    assert_eq!(db.get_ipv6("alice"), Ok(Some("2001:db8::11".to_string())));
    assert_eq!(db.get_ipv6("carol"), Ok(None));
}

#[test]
fn caller_may_resolve_itself_and_sees_its_new_address() {
    let mut db = Database::new();
    db.register_with("alice", "2001:db8::1", NONCE_A.to_string(), 0);
    let reply = update_at(
        &mut db,
        &update_request("alice", "2001:db8::4", NONCE_A, "alice"),
        2 * YEAR,
    );
    match reply {
        UpdateReply::Resolved(body) => assert_eq!(body.peer_address, "2001:db8::4"),
        other => panic!("not resolved: {:?}", other),
    }
}

#[test]
fn table_is_restored_from_its_rows() {
    let rows = vec![
        Registration {
            id: "alice".to_string(),
            address: "2001:db8::1".to_string(),
            nonce: NONCE_A.to_string(),
            updated_at: 10,
        },
        Registration {
            id: "bob".to_string(),
            address: "2001:db8::2".to_string(),
            nonce: NONCE_B.to_string(),
            updated_at: 20,
        },
    ];
    let mut db = Database::open(rows.clone()).unwrap();
    assert_eq!(db.get_ipv6_at("bob", 30), Some("2001:db8::2".to_string()));
    assert!(db.update_at("alice", "2001:db8::3", NONCE_A, 40));
    let kept = db.rows();
    assert_eq!(kept.len(), 2);
    assert_eq!(kept[0].id, "alice");
    assert_eq!(kept[0].address, "2001:db8::3");
    assert_eq!(kept[0].updated_at, 40);
    assert_eq!(kept[1].id, "bob");
    assert_eq!(kept[1].updated_at, 20);
    let mut twice = rows.clone();
    twice.push(rows[0].clone());
    assert!(Database::open(twice).is_none());
    assert!(Database::open(Vec::new()).is_some());
}

#[test]
fn reply_statuses() {
    assert_eq!(RegisterReply::Conflict.status(), 409);
    assert_eq!(RegisterReply::BadRequest.status(), 400);
    assert_eq!(RegisterReply::ServerError.status(), 500);
    assert_eq!(UpdateReply::Unauthorized.status(), 401);
    assert_eq!(UpdateReply::NotFound.status(), 404);
    assert_eq!(UpdateReply::ServerError.status(), 500);
}

#[test]
fn only_an_authorised_update_with_a_new_address_writes() {
    let mut db = Database::new();
    db.register_with("alice", "2001:db8::1", NONCE_A.to_string(), 100);
    assert!(!db.would_write("alice", "2001:db8::1", NONCE_A));
    assert!(db.would_write("alice", "2001:db8::2", NONCE_A));
    assert!(db.would_write("ALICE", "2001:db8::2", NONCE_A));
    assert!(!db.would_write("alice", "2001:db8::2", NONCE_B));
    assert!(!db.would_write("bob", "2001:db8::2", NONCE_A));
    let before = db.rows();
    assert!(db.update_at("alice", "2001:db8::1", NONCE_A, 200));
    assert!(!db.update_at("alice", "2001:db8::2", NONCE_B, 200));
    let after = db.rows();
    assert_eq!(before.len(), after.len());
    assert_eq!(before[0].address, after[0].address);
    assert_eq!(before[0].updated_at, after[0].updated_at);
}

#[test]
fn clock_reading_becomes_a_time_to_store() {
    assert_eq!(seconds_since_epoch(Some(0)), Ok(0));
    assert_eq!(seconds_since_epoch(Some(1_700_000_000)), Ok(1_700_000_000));
    assert_eq!(seconds_since_epoch(Some(i64::MAX as u64)), Ok(i64::MAX));
    assert_eq!(
        seconds_since_epoch(Some(i64::MAX as u64 + 1)),
        Err(RegistryError::Clock)
    );
    assert_eq!(seconds_since_epoch(Some(u64::MAX)), Err(RegistryError::Clock));
    assert_eq!(seconds_since_epoch(None), Err(RegistryError::Clock));
}

#[test]
fn table_knows_its_records_and_their_nonces() {
    let mut db = Database::new();
    assert!(!db.contains("alice"));
    assert!(!db.is_authorised("alice", NONCE_A));
    db.register_with("alice", "2001:db8::1", NONCE_A.to_string(), 100);
    assert!(db.contains("alice"));
    assert!(db.contains("ALICE"));
    assert!(!db.contains("bob"));
    assert!(db.is_authorised("alice", NONCE_A));
    assert!(db.is_authorised("Alice", NONCE_A));
    assert!(!db.is_authorised("alice", NONCE_B));
    assert!(!db.is_authorised("alice", ""));
    assert!(!db.is_authorised("bob", NONCE_A));
}

#[test]
fn answers_that_need_no_time_leave_the_table_as_it_is() {
    let mut db = Database::new();
    let alice = nonce_of(register(&mut db, &register_request("alice", "2001:db8::1")));
    let before = db.rows();
    assert!(matches!(
        register(&mut db, &register_request("-bad", "2001:db8::1")),
        RegisterReply::BadRequest
    ));
    assert!(matches!(
        register(&mut db, &register_request("Alice", "2001:db8::9")),
        RegisterReply::Conflict
    ));
    assert!(matches!(
        update(&mut db, &update_request("alice", "2001:db8::9", NONCE_B, "alice")),
        UpdateReply::Unauthorized
    ));
    assert!(matches!(
        update(&mut db, &update_request("nobody", "2001:db8::9", &alice, "alice")),
        UpdateReply::Unauthorized
    ));
    assert!(matches!(
        update(&mut db, &update_request("alice", "2001:db8::1", &alice, "nobody")),
        UpdateReply::NotFound
    ));
    assert_eq!(db.update("alice", "2001:db8::1", &alice), Ok(true));
    assert_eq!(db.update("alice", "2001:db8::9", NONCE_B), Ok(false));
    assert_eq!(db.register("alice", "2001:db8::9"), Ok((false, String::new())));
    assert_eq!(db.get_ipv6("nobody"), Ok(None));
    let after = db.rows();
    assert_eq!(after.len(), 1);
    assert_eq!(after[0].address, before[0].address);
    assert_eq!(after[0].updated_at, before[0].updated_at);
    assert_eq!(after[0].nonce, alice);
}

#[test]
fn update_now_writes_the_new_address_with_the_time() {
    let mut db = Database::new();
    db.register_with("alice", "2001:db8::1", NONCE_A.to_string(), 100);
    let before = unix_now().unwrap();
    assert_eq!(db.update("alice", "2001:db8::5", NONCE_A), Ok(true));
    let after = unix_now().unwrap();
    let row = db.record("alice").unwrap();
    assert_eq!(row.address, "2001:db8::5");
    assert!(before <= row.updated_at && row.updated_at <= after);
    assert_eq!(db.get_ipv6("alice"), Ok(Some("2001:db8::5".to_string())));
    // A record from 1970 is not fresh today.
    db.register_with("old", "2001:db8::7", NONCE_B.to_string(), 0);
    assert_eq!(db.get_ipv6("old"), Ok(None));
    assert!(db.contains("old"));
}

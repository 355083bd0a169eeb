use artifact_cache::lock_server::decode_generation;
use artifact_cache::lock_server::encode_generation;
use artifact_cache::lock_server::lock_request;
use artifact_cache::lock_server::parse_lock_request;
use artifact_cache::lock_server::LockMode;
use artifact_cache::lock_server::LockState;
use artifact_cache::lock_server::LockTable;

/// Asks for a lock as a client does.
fn lock(table: &mut LockTable, mode: LockMode, name: &str) -> Option<u64> {
    let at = table.entry(name);
    table.locks[at].register(mode);
    table.locks[at].acquire(mode)
}

fn release(table: &mut LockTable, mode: LockMode, name: &str) {
    let at = table.entry(name);
    table.locks[at].release(mode);
}

#[test]
fn shared_locks_can_overlap() {
    let mut table = LockTable::new();
    assert!(lock(&mut table, LockMode::Shared, "shared").is_some());
    assert!(lock(&mut table, LockMode::Shared, "shared").is_some());
}

#[test]
fn exclusive_lock_waits_for_shared_lock() {
    let mut table = LockTable::new();
    assert!(lock(&mut table, LockMode::Shared, "exclusive").is_some());
    assert_eq!(lock(&mut table, LockMode::Exclusive, "exclusive"), None);
    release(&mut table, LockMode::Shared, "exclusive");
    let at = table.entry("exclusive");
    assert!(table.locks[at].acquire(LockMode::Exclusive).is_some());
}

#[test]
fn waiting_exclusive_lock_blocks_later_shared_lock() {
    let mut state = LockState::default();
    assert!(state.acquire(LockMode::Shared).is_some());
    state.register(LockMode::Exclusive);
    assert_eq!(state.acquire(LockMode::Shared), None);
    assert_eq!(state.acquire(LockMode::Exclusive), None);
    state.release(LockMode::Shared);
    assert_eq!(state.acquire(LockMode::Shared), None);
    assert!(state.acquire(LockMode::Exclusive).is_some());
    assert_eq!(state.acquire(LockMode::Shared), None);
    state.release(LockMode::Exclusive);
    assert!(state.acquire(LockMode::Shared).is_some());
}

#[test]
fn generation_advances_for_exclusive_locks() {
    let mut table = LockTable::new();
    let preflight_generation = lock(&mut table, LockMode::Shared, "generation").unwrap();
    assert_eq!(preflight_generation, 0);
    release(&mut table, LockMode::Shared, "generation");
    assert_eq!(lock(&mut table, LockMode::Exclusive, "generation"), Some(0));
    release(&mut table, LockMode::Exclusive, "generation");
    let later = lock(&mut table, LockMode::Exclusive, "generation").unwrap();
    assert_eq!(later, 1);
    assert_ne!(later, preflight_generation);
}

#[test]
fn locks_with_other_names_are_independent() {
    let mut table = LockTable::new();
    assert_eq!(lock(&mut table, LockMode::Exclusive, "a"), Some(0));
    assert_eq!(lock(&mut table, LockMode::Exclusive, "b"), Some(0));
    assert_eq!(lock(&mut table, LockMode::Shared, "a"), None);
}

#[test]
fn requests_and_replies_round_trip() {
    let request = lock_request(LockMode::Shared, b"some crate");
    assert_eq!(request, b"shared some crate\n".to_vec());
    let line = String::from_utf8(request).unwrap();
    assert_eq!(
        parse_lock_request(&line),
        Some((LockMode::Shared, "some crate".to_owned()))
    );
    assert_eq!(
        parse_lock_request("exclusive x\r\n"),
        Some((LockMode::Exclusive, "x".to_owned()))
    );
    assert_eq!(parse_lock_request("exclusive"), None);
    assert_eq!(parse_lock_request("other x"), None);

    let reply = encode_generation(0x0102);
    assert_eq!(reply, vec![0, 0, 0, 0, 0, 0, 1, 2]);
    assert_eq!(decode_generation(&reply), Some(0x0102));
    assert_eq!(decode_generation(&[1]), None);
}

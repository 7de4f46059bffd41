use picobroker_core::handler::{keep_alive_expired, keep_alive_timeout_ms};
use picobroker_core::state::{session_id_from, SessionIdGen, SessionIdGenerator};

#[test]
fn test_session_id_generation() {
    let gen = SessionIdGenerator::new();
    let base: u128 = 1_700_000_000;
    let id1 = gen.generate(base);
    let id2 = gen.generate(base);
    assert_ne!(id1, id2);
}

#[test]
fn session_id_puts_stamp_above_counter() {
    assert_eq!(session_id_from(1, 0), 1u128 << 32);
    assert_eq!(session_id_from(2, 5), (2u128 << 32) | 5);
    assert_eq!(session_id_from(0, u64::MAX), u64::MAX as u128);
}

#[test]
fn session_id_gen_counts_up() {
    let mut gen = SessionIdGen::new();
    assert_eq!(gen.generate(7), 7u128 << 32);
    assert_eq!(gen.generate(7), (7u128 << 32) | 1);
    assert_eq!(gen.generate(9), (9u128 << 32) | 2);
}

#[test]
fn keep_alive_runs_out_after_one_and_a_half_intervals() {
    assert_eq!(keep_alive_timeout_ms(60), 90_000);
    assert_eq!(keep_alive_timeout_ms(1), 1_000);
    assert!(!keep_alive_expired(60, 89_999));
    assert!(keep_alive_expired(60, 90_000));
    assert!(keep_alive_expired(0, 0));
}

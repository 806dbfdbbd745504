//! The integrity protocol: codecs, the binding value, hashes and proofs.

use score_ledger::binding::{create_proof_binding, validate_guest, BindingOutput};
use score_ledger::codec::{decode_guest_input, decode_submission_input, encode_guest_input};
use score_ledger::text::{hex_string, u64_to_string};
use score_ledger::{GameScore, ScoreError, ScoreManager, ScoreProof};

fn valid_session_id() -> u64 {
    // A session stamped at epoch second 1_700_000_001, in the high bits.
    (1_700_000_001u64 << 20) | 0xabcde
}

#[test]
fn test_guest_codec_roundtrip() {
    let cases: [(u64, u64); 4] = [
        (1, 1),
        (1000, valid_session_id()),
        (0, u64::MAX),
        (u64::MAX, 0x0123_4567_89ab_cdef),
    ];
    for (score, session_id) in cases {
        let buf = encode_guest_input(score, session_id);
        assert_eq!(buf.len(), 16);
        assert_eq!(decode_guest_input(&buf), Ok((score, session_id)));
    }
}

#[test]
fn test_guest_codec_exact_layout() {
    let buf = encode_guest_input(1, 2);
    let mut expected = vec![0u8; 16];
    expected[0] = 1;
    expected[8] = 2;
    assert_eq!(buf, expected);
}

#[test]
fn test_guest_input_wrong_length_rejected() {
    let short = [0u8; 15];
    assert_eq!(decode_guest_input(&short), Err(ScoreError::MalformedInput));
    let long = [0u8; 17];
    assert_eq!(decode_guest_input(&long), Err(ScoreError::MalformedInput));
    let empty: [u8; 0] = [];
    assert_eq!(decode_guest_input(&empty), Err(ScoreError::MalformedInput));
}

#[test]
fn test_guest_validation_bounds() {
    let sid = valid_session_id();
    assert_eq!(validate_guest(0, sid), Err(ScoreError::ScoreOutOfRange));
    assert_eq!(validate_guest(1001, sid), Err(ScoreError::ScoreOutOfRange));
    assert_eq!(validate_guest(500, 0), Err(ScoreError::SessionIdZero));
    // Non-zero session whose high bits decode to a pre-launch timestamp.
    assert_eq!(validate_guest(500, 5), Err(ScoreError::SessionTooOld));
    assert_eq!(validate_guest(1, sid), Ok(()));
    assert_eq!(validate_guest(1000, sid), Ok(()));
}

#[test]
fn test_binding_deterministic_and_avalanche() {
    let sid = valid_session_id();
    let b1 = create_proof_binding(700, sid);
    let b2 = create_proof_binding(700, sid);
    assert_eq!(b1, b2);
    // Spot-check the avalanche behaviour: one flipped bit in either input
    // lands on a different binding value.
    assert_ne!(create_proof_binding(701, sid), b1);
    assert_ne!(create_proof_binding(700, sid ^ 1), b1);
    assert_ne!(create_proof_binding(700 ^ (1 << 63), sid), b1);
}

#[test]
fn test_binding_output_slots() {
    let out = BindingOutput { score: 0x1_0000_0002, session_id: 0x3_0000_0004, binding: 99 };
    let slots = out.output_slots();
    assert_eq!(slots, vec![2, 1, 4, 3, 99]);
}

#[test]
fn test_run_guest_matches_components() {
    let sid = valid_session_id();
    let buf = encode_guest_input(321, sid);
    let out = score_ledger::binding::run_guest(&buf).unwrap();
    assert_eq!(out.score, 321);
    assert_eq!(out.session_id, sid);
    assert_eq!(out.binding, create_proof_binding(321, sid));

    let bad = score_ledger::binding::run_guest(&buf[..15]);
    assert!(matches!(bad, Err(ScoreError::MalformedInput)));
    let zero_session = encode_guest_input(321, 0);
    assert!(matches!(
        score_ledger::binding::run_guest(&zero_session),
        Err(ScoreError::SessionIdZero)
    ));
}

#[test]
fn test_decimal_and_hex_text() {
    assert_eq!(u64_to_string(0), "0");
    assert_eq!(u64_to_string(12345), "12345");
    assert_eq!(u64_to_string(u64::MAX), "18446744073709551615");
    assert_eq!(hex_string(&[]), "");
    assert_eq!(hex_string(&[0xde, 0xad, 0xbe, 0xef]), "deadbeef");
    assert_eq!(hex_string(&[0x00, 0x0f]), "000f");
}

#[test]
fn test_submission_codec_exact() {
    let mut buf = vec![5u8];
    buf.extend_from_slice(b"Alice");
    buf.extend_from_slice(&100u32.to_le_bytes());
    buf.push(3);
    let (player, score, difficulty) = decode_submission_input(&buf).unwrap();
    assert_eq!(player, "Alice");
    assert_eq!(score, 100);
    assert_eq!(difficulty, 3);
}

#[test]
fn test_submission_codec_lossy_and_short() {
    // An invalid UTF-8 byte is replaced, not rejected.
    let mut buf = vec![2u8, 0xff, b'A'];
    buf.extend_from_slice(&7u32.to_le_bytes());
    buf.push(0);
    let (player, score, difficulty) = decode_submission_input(&buf).unwrap();
    assert_eq!(player, "\u{fffd}A");
    assert_eq!(score, 7);
    assert_eq!(difficulty, 0);

    // One byte short of the announced layout is rejected.
    let mut short = vec![5u8];
    short.extend_from_slice(b"Alice");
    short.extend_from_slice(&100u32.to_le_bytes());
    assert_eq!(decode_submission_input(&short), Err(ScoreError::MalformedInput));
    assert_eq!(decode_submission_input(&[1u8, 2, 3]), Err(ScoreError::MalformedInput));
}

#[test]
fn test_content_hash_against_independent_digest() {
    let mut record = GameScore::new("Alice".to_string(), 100, 1);
    record.compute_proof_hash();
    let expected = hex::encode(<sha2::Sha256 as sha2::Digest>::digest(
        b"Alice:100:1234567890:session_100:1",
    ));
    assert_eq!(record.proof_hash, expected);
    assert_eq!(record.game_session_id, "session_100");
    assert_eq!(record.timestamp, 1234567890);
}

#[test]
fn test_proof_structure() {
    let record = GameScore::new("Carol".to_string(), 42, 2);
    let p = ScoreProof::new(record);
    assert_eq!(p.proof_path.len(), 3);
    assert_eq!(p.proof_path[0], p.score_data.proof_hash);
    assert_eq!(
        p.proof_path[1],
        hex::encode(<sha2::Sha256 as sha2::Digest>::digest(&1234567890u64.to_le_bytes()))
    );
    assert_eq!(p.proof_path[2], hex::encode(<sha2::Sha256 as sha2::Digest>::digest(&[2u8])));
    let mut root_bytes = p.score_data.proof_hash.as_bytes().to_vec();
    root_bytes.extend_from_slice(&1234567890u64.to_le_bytes());
    assert_eq!(
        p.merkle_root,
        hex::encode(<sha2::Sha256 as sha2::Digest>::digest(&root_bytes))
    );

    let mut expected_inputs = 42u32.to_le_bytes().to_vec();
    expected_inputs.push(2);
    expected_inputs.extend_from_slice(&1234567890u64.to_le_bytes());
    assert_eq!(p.public_inputs, expected_inputs);
    assert_eq!(p.public_inputs.len(), 13);
}

#[test]
fn test_verify_accepts_built_proof_and_rejects_mutation() {
    let record = GameScore::new("Dave".to_string(), 77, 4);
    let p = ScoreProof::new(record);
    assert_eq!(ScoreManager::verify_proof(&p), Ok(true));

    let mut tampered_score = ScoreProof::new(GameScore::new("Dave".to_string(), 77, 4));
    tampered_score.score_data.score = 78;
    assert_eq!(ScoreManager::verify_proof(&tampered_score), Ok(false));

    let mut tampered_player = ScoreProof::new(GameScore::new("Dave".to_string(), 77, 4));
    tampered_player.score_data.player_id = "Eve".to_string();
    assert_eq!(ScoreManager::verify_proof(&tampered_player), Ok(false));

    let mut tampered_ts = ScoreProof::new(GameScore::new("Dave".to_string(), 77, 4));
    tampered_ts.score_data.timestamp += 1;
    assert_eq!(ScoreManager::verify_proof(&tampered_ts), Ok(false));

    let mut tampered_session = ScoreProof::new(GameScore::new("Dave".to_string(), 77, 4));
    tampered_session.score_data.game_session_id = "session_78".to_string();
    assert_eq!(ScoreManager::verify_proof(&tampered_session), Ok(false));

    let mut tampered_difficulty = ScoreProof::new(GameScore::new("Dave".to_string(), 77, 4));
    tampered_difficulty.score_data.difficulty_level = 5;
    assert_eq!(ScoreManager::verify_proof(&tampered_difficulty), Ok(false));
}

#[test]
fn test_host_output_slots() {
    let record = GameScore::new("Frank".to_string(), 9, 1);
    let p = ScoreProof::new(record);
    let slots = p.host_output_slots();
    assert_eq!(slots.len(), 8);
    assert_eq!(slots[0], 9);
    assert_eq!(slots[1], 1);
    assert_eq!(slots[2], 1234567890);
    assert_eq!(slots[3], 0);
    let root = hex::decode(&p.merkle_root).unwrap();
    for i in 0..4 {
        let expected = u32::from_be_bytes([
            root[4 * i],
            root[4 * i + 1],
            root[4 * i + 2],
            root[4 * i + 3],
        ]);
        assert_eq!(slots[4 + i], expected);
    }
}

#[test]
fn test_error_messages() {
    assert_eq!(ScoreError::EmptyPlayerId.message(), "Player ID cannot be empty");
    assert_eq!(ScoreError::ScoreZero.message(), "Score must be non-zero");
    assert_eq!(ScoreError::ScoreTooHigh.message(), "Score seems unreasonably high");
    assert_eq!(ScoreError::InvalidDifficulty.message(), "Invalid difficulty level");
    assert_eq!(ScoreError::CollisionError.message(), "Duplicate content hash");
}

//! Score records and their hash-chain proofs.
//!
//! A record's content hash is the SHA-256 digest of a canonical, colon-
//! separated textual rendering of its fields, rendered in hexadecimal.  The
//! textual framing is deliberate: it keeps the hash input human-auditable
//! and avoids field-boundary ambiguity.  A proof chains the content hash
//! with a timestamp hash and a difficulty hash; the "root" is the chained
//! top hash of that three-element path, not a multi-leaf tree root.

use crate::binding::{high32, low32};
use crate::hashing::{sha256, sha256_of};
use crate::text::{
    ascii_of, dec_of, hex_bytes_valid, hex_decode_bytes, hex_decode_of, hex_of, hex_string,
    lemma_hex_roundtrip, push_dec,
};
use vstd::bytes::{spec_u32_to_le_bytes, spec_u64_to_le_bytes, u32_to_le_bytes, u64_to_le_bytes};
use vstd::prelude::*;
use vstd::string::{StrSliceExecFns, StringExecFns};
use vstd::utf8::encode_utf8;

verus! {

/// One reported score, bound to a play session.  The proof hash is computed,
/// never supplied, and is empty until [`GameScore::compute_proof_hash`] runs.
pub struct GameScore {
    pub player_id: String,
    pub score: u32,
    pub timestamp: u64,
    pub game_session_id: String,
    pub difficulty_level: u8,
    pub proof_hash: String,
}

/// The canonical text a record is hashed over:
/// `player:score:timestamp:session:difficulty`, numbers in decimal.
pub open spec fn record_text(
    player: Seq<char>,
    score: u32,
    timestamp: u64,
    session: Seq<char>,
    difficulty: u8,
) -> Seq<char> {
    player + ":"@ + dec_of(score as nat) + ":"@ + dec_of(timestamp as nat) + ":"@ + session + ":"@
        + dec_of(difficulty as nat)
}

/// The hexadecimal SHA-256 digest of a record's canonical text.
pub open spec fn spec_content_hash(
    player: Seq<char>,
    score: u32,
    timestamp: u64,
    session: Seq<char>,
    difficulty: u8,
) -> Seq<char> {
    hex_of(sha256_of(encode_utf8(record_text(player, score, timestamp, session, difficulty))))
}

/// The chained top hash: the digest of the content-hash text followed by the
/// little-endian timestamp bytes, rendered in hexadecimal.
pub open spec fn spec_chain_root(content_hash: Seq<char>, timestamp: u64) -> Seq<char> {
    hex_of(sha256_of(encode_utf8(content_hash) + spec_u64_to_le_bytes(timestamp)))
}

/// The hexadecimal digest of the little-endian timestamp bytes.
pub open spec fn spec_timestamp_hash(timestamp: u64) -> Seq<char> {
    hex_of(sha256_of(spec_u64_to_le_bytes(timestamp)))
}

/// The hexadecimal digest of the single difficulty byte.
pub open spec fn spec_difficulty_hash(difficulty: u8) -> Seq<char> {
    hex_of(sha256_of(seq![difficulty]))
}

/// The fixed 13-byte public-input buffer: score, difficulty, timestamp.
pub open spec fn spec_public_inputs(score: u32, difficulty: u8, timestamp: u64) -> Seq<u8> {
    spec_u32_to_le_bytes(score) + seq![difficulty] + spec_u64_to_le_bytes(timestamp)
}

impl GameScore {
    /// The canonical text of this record's fields.
    pub open spec fn hash_text(self) -> Seq<char> {
        record_text(
            self.player_id@,
            self.score,
            self.timestamp,
            self.game_session_id@,
            self.difficulty_level,
        )
    }

    /// The content hash this record's fields re-derive to.  Verification
    /// compares the stored hash against this value.
    pub open spec fn expected_hash(self) -> Seq<char> {
        spec_content_hash(
            self.player_id@,
            self.score,
            self.timestamp,
            self.game_session_id@,
            self.difficulty_level,
        )
    }

    /// Builds a record with the fixed protocol timestamp and a session
    /// identifier derived from the score; the proof hash starts empty.
    pub fn new(player_id: String, score: u32, difficulty_level: u8) -> (r: GameScore)
        ensures
            r.player_id == player_id,
            r.score == score,
            r.timestamp == 1234567890u64,
            r.game_session_id@ == "session_"@ + dec_of(score as nat),
            r.difficulty_level == difficulty_level,
            r.proof_hash@ == Seq::<char>::empty(),
    {
        let timestamp: u64 = 1234567890;
        let mut game_session_id = String::from_str("session_");
        push_dec(&mut game_session_id, score as u64);
        GameScore {
            player_id,
            score,
            timestamp,
            game_session_id,
            difficulty_level,
            proof_hash: String::new(),
        }
    }

    /// Recomputes the content hash from the current fields and stores it.
    /// All other fields are left untouched.
    pub fn compute_proof_hash(&mut self)
        ensures
            final(self).player_id == old(self).player_id,
            final(self).score == old(self).score,
            final(self).timestamp == old(self).timestamp,
            final(self).game_session_id == old(self).game_session_id,
            final(self).difficulty_level == old(self).difficulty_level,
            final(self).proof_hash@ == old(self).expected_hash(),
    {
        let mut data = self.player_id.clone();
        data.append(":");
        push_dec(&mut data, self.score as u64);
        data.append(":");
        push_dec(&mut data, self.timestamp);
        data.append(":");
        data.append(self.game_session_id.as_str());
        data.append(":");
        push_dec(&mut data, self.difficulty_level as u64);
        proof {
            assert(data@ =~= old(self).hash_text());
        }
        let digest = sha256(data.as_str().as_bytes());
        self.proof_hash = hex_string(digest.as_slice());
    }

    /// An exact copy of this record, field by field.
    pub fn duplicate(&self) -> (r: GameScore)
        ensures
            r == *self,
    {
        GameScore {
            player_id: self.player_id.clone(),
            score: self.score,
            timestamp: self.timestamp,
            game_session_id: self.game_session_id.clone(),
            difficulty_level: self.difficulty_level,
            proof_hash: self.proof_hash.clone(),
        }
    }
}

/// A record together with its hash chain: the chained top hash, the fixed
/// three-element proof path, and the serialized public inputs.  Built once,
/// then immutable.
pub struct ScoreProof {
    pub score_data: GameScore,
    pub merkle_root: String,
    pub proof_path: Vec<String>,
    pub public_inputs: Vec<u8>,
}

impl ScoreProof {
    /// Builds the full proof for a record: computes its content hash, then
    /// the chained top hash, the proof path and the public inputs.  The
    /// stored hash of the result always re-derives from its own fields, so a
    /// freshly built proof always verifies.
    pub fn new(score: GameScore) -> (r: ScoreProof)
        ensures
            r.score_data.player_id@ == score.player_id@,
            r.score_data.score == score.score,
            r.score_data.timestamp == score.timestamp,
            r.score_data.game_session_id@ == score.game_session_id@,
            r.score_data.difficulty_level == score.difficulty_level,
            r.score_data.proof_hash@ == score.expected_hash(),
            r.score_data.proof_hash@ == r.score_data.expected_hash(),
            r.merkle_root@ == spec_chain_root(score.expected_hash(), score.timestamp),
            r.proof_path@.len() == 3,
            r.proof_path@[0]@ == score.expected_hash(),
            r.proof_path@[1]@ == spec_timestamp_hash(score.timestamp),
            r.proof_path@[2]@ == spec_difficulty_hash(score.difficulty_level),
            r.public_inputs@ == spec_public_inputs(score.score, score.difficulty_level, score.timestamp),
    {
        let mut score_with_hash = score;
        score_with_hash.compute_proof_hash();

        let merkle_root = Self::generate_merkle_root(&score_with_hash);
        let proof_path = Self::generate_proof_path(&score_with_hash);
        let public_inputs = Self::serialize_public_inputs(&score_with_hash);

        ScoreProof { score_data: score_with_hash, merkle_root, proof_path, public_inputs }
    }

    /// The chained top hash over the stored content-hash text and the
    /// little-endian timestamp bytes.
    pub fn generate_merkle_root(score: &GameScore) -> (r: String)
        ensures
            r@ == spec_chain_root(score.proof_hash@, score.timestamp),
    {
        let mut buf = score.proof_hash.as_str().as_bytes_vec();
        let mut ts = u64_to_le_bytes(score.timestamp);
        buf.append(&mut ts);
        let digest = sha256(buf.as_slice());
        hex_string(digest.as_slice())
    }

    /// The fixed proof path: content hash, timestamp hash, difficulty hash,
    /// in that order.
    pub fn generate_proof_path(score: &GameScore) -> (r: Vec<String>)
        ensures
            r@.len() == 3,
            r@[0]@ == score.proof_hash@,
            r@[1]@ == spec_timestamp_hash(score.timestamp),
            r@[2]@ == spec_difficulty_hash(score.difficulty_level),
    {
        let mut path: Vec<String> = Vec::new();
        path.push(score.proof_hash.clone());

        let ts = u64_to_le_bytes(score.timestamp);
        let ts_digest = sha256(ts.as_slice());
        path.push(hex_string(ts_digest.as_slice()));

        let mut diff_bytes: Vec<u8> = Vec::new();
        diff_bytes.push(score.difficulty_level);
        proof {
            assert(diff_bytes@ =~= seq![score.difficulty_level]);
        }
        let diff_digest = sha256(diff_bytes.as_slice());
        path.push(hex_string(diff_digest.as_slice()));

        path
    }

    /// The fixed host output slots: the score, the difficulty, the
    /// timestamp split into its low and high words, then the chained top
    /// hash decoded from hexadecimal and split big-endian into four words,
    /// zero-padded where bytes run out.
    pub fn host_output_slots(&self) -> (r: Vec<u32>)
        ensures
            r@.len() == 8,
            r@[0] == self.score_data.score,
            r@[1] == self.score_data.difficulty_level as u32,
            r@[2] == low32(self.score_data.timestamp),
            r@[3] == high32(self.score_data.timestamp),
            forall|i: int|
                0 <= i < 4 ==> r@[4 + i] == be_chunk(spec_root_bytes(self.merkle_root@), i),
    {
        let root_bytes = match hex_decode_bytes(self.merkle_root.as_str().as_bytes()) {
            Some(v) => v,
            None => Vec::new(),
        };
        let mut slots: Vec<u32> = Vec::new();
        slots.push(self.score_data.score);
        slots.push(self.score_data.difficulty_level as u32);
        proof {
            let t = self.score_data.timestamp;
            assert(t & 0xffff_ffff < 0x1_0000_0000) by (bit_vector);
            assert(t >> 32 < 0x1_0000_0000) by (bit_vector);
        }
        slots.push((self.score_data.timestamp & 0xffff_ffff) as u32);
        slots.push((self.score_data.timestamp >> 32) as u32);
        slots.push(chunk_at(&root_bytes, 0));
        slots.push(chunk_at(&root_bytes, 1));
        slots.push(chunk_at(&root_bytes, 2));
        slots.push(chunk_at(&root_bytes, 3));
        slots
    }

    /// The 13-byte public-input buffer: little-endian score, difficulty
    /// byte, little-endian timestamp.
    pub fn serialize_public_inputs(score: &GameScore) -> (r: Vec<u8>)
        ensures
            r@ == spec_public_inputs(score.score, score.difficulty_level, score.timestamp),
            r@.len() == 13,
    {
        let mut inputs = u32_to_le_bytes(score.score);
        inputs.push(score.difficulty_level);
        let mut ts = u64_to_le_bytes(score.timestamp);
        inputs.append(&mut ts);
        proof {
            assert(inputs@ =~= spec_public_inputs(score.score, score.difficulty_level, score.timestamp));
        }
        inputs
    }
}

/// The byte at an index, or zero past the end.
pub open spec fn byte_or_zero(bytes: Seq<u8>, j: int) -> u8 {
    if 0 <= j < bytes.len() {
        bytes[j]
    } else {
        0
    }
}

/// The `i`-th big-endian 32-bit word of a byte sequence, zero-padded at the
/// tail; a word that starts past the end is zero.
pub open spec fn be_chunk(bytes: Seq<u8>, i: int) -> u32 {
    if 4 * i < bytes.len() {
        ((byte_or_zero(bytes, 4 * i) * 0x100_0000 + byte_or_zero(bytes, 4 * i + 1) * 0x1_0000
            + byte_or_zero(bytes, 4 * i + 2) * 0x100 + byte_or_zero(bytes, 4 * i + 3)) as u32)
    } else {
        0
    }
}

/// What the hexadecimal top-hash text decodes to: its bytes where the text
/// is well-formed, nothing otherwise.
pub open spec fn spec_root_bytes(root: Seq<char>) -> Seq<u8> {
    if hex_bytes_valid(vstd::utf8::encode_utf8(root)) {
        hex_decode_of(vstd::utf8::encode_utf8(root))
    } else {
        Seq::empty()
    }
}

/// A top hash rendered from digest bytes decodes back to exactly those
/// bytes, for every byte sequence.
pub proof fn lemma_root_bytes_of_hex(bytes: Seq<u8>)
    ensures
        spec_root_bytes(hex_of(bytes)) == bytes,
{
    lemma_hex_roundtrip(bytes);
}

fn byte_at(v: &Vec<u8>, j: usize) -> (r: u8)
    ensures
        r == byte_or_zero(v@, j as int),
{
    if j < v.len() {
        v[j]
    } else {
        0
    }
}

fn chunk_at(v: &Vec<u8>, i: usize) -> (r: u32)
    requires
        i < 4,
    ensures
        r == be_chunk(v@, i as int),
{
    if 4 * i < v.len() {
        let b0 = byte_at(v, 4 * i) as u32;
        let b1 = byte_at(v, 4 * i + 1) as u32;
        let b2 = byte_at(v, 4 * i + 2) as u32;
        let b3 = byte_at(v, 4 * i + 3) as u32;
        b0 * 0x100_0000 + b1 * 0x1_0000 + b2 * 0x100 + b3
    } else {
        0
    }
}

} // verus!

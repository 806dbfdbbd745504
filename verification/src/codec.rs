//! Fixed-layout byte codecs for the two input forms.
//!
//! The single-shot path reads a 16-byte buffer: a little-endian score word
//! followed by a little-endian session-identifier word.  The host submission
//! path reads a length-prefixed player identifier followed by a little-endian
//! score and a difficulty byte.

use crate::errors::ScoreError;
use vstd::bytes::{
    lemma_auto_spec_u64_to_from_le_bytes, spec_u32_from_le_bytes, spec_u64_from_le_bytes,
    spec_u64_to_le_bytes, u32_from_le_bytes, u64_from_le_bytes, u64_to_le_bytes,
};
use vstd::prelude::*;
use vstd::slice::slice_subrange;

verus! {

/// The 16-byte buffer holding `score` then `session_id`, both little-endian.
pub open spec fn spec_encode_guest(score: u64, session_id: u64) -> Seq<u8> {
    spec_u64_to_le_bytes(score) + spec_u64_to_le_bytes(session_id)
}

/// The score word of a 16-byte buffer.
pub open spec fn spec_guest_score(input: Seq<u8>) -> u64 {
    spec_u64_from_le_bytes(input.take(8))
}

/// The session-identifier word of a 16-byte buffer.
pub open spec fn spec_guest_session(input: Seq<u8>) -> u64 {
    spec_u64_from_le_bytes(input.skip(8))
}

/// Packs a score and a session identifier into the 16-byte buffer layout.
pub fn encode_guest_input(score: u64, session_id: u64) -> (r: Vec<u8>)
    ensures
        r@ == spec_encode_guest(score, session_id),
        r@.len() == 16,
{
    let mut buf = u64_to_le_bytes(score);
    let mut tail = u64_to_le_bytes(session_id);
    buf.append(&mut tail);
    buf
}

/// Unpacks a 16-byte buffer into its score and session-identifier words.
/// Any other length is rejected, never partially decoded.
pub fn decode_guest_input(input: &[u8]) -> (r: Result<(u64, u64), ScoreError>)
    ensures
        r is Ok <==> input@.len() == 16,
        input@.len() != 16 ==> r == Err::<(u64, u64), ScoreError>(ScoreError::MalformedInput),
        r matches Ok(pair) ==> pair.0 == spec_guest_score(input@) && pair.1 == spec_guest_session(
            input@,
        ),
{
    if input.len() != 16 {
        return Err(ScoreError::MalformedInput);
    }
    let score_bytes = slice_subrange(input, 0, 8);
    let session_bytes = slice_subrange(input, 8, 16);
    let score = u64_from_le_bytes(score_bytes);
    let session_id = u64_from_le_bytes(session_bytes);
    proof {
        assert(input@.subrange(0, 8) =~= input@.take(8));
        assert(input@.subrange(8, 16) =~= input@.skip(8));
    }
    Ok((score, session_id))
}

/// Packing a pair and unpacking the buffer gives the pair back, for every
/// score and every session identifier.
pub proof fn lemma_guest_codec_roundtrip(score: u64, session_id: u64)
    ensures
        spec_encode_guest(score, session_id).len() == 16,
        spec_guest_score(spec_encode_guest(score, session_id)) == score,
        spec_guest_session(spec_encode_guest(score, session_id)) == session_id,
{
    lemma_auto_spec_u64_to_from_le_bytes();
    assert(spec_encode_guest(score, session_id).take(8) =~= spec_u64_to_le_bytes(score));
    assert(spec_encode_guest(score, session_id).skip(8) =~= spec_u64_to_le_bytes(session_id));
}

/// The characters that `String::from_utf8_lossy` decodes from a byte
/// sequence.  Invalid sequences are replaced, never rejected, so this is a
/// total function of the bytes alone.
pub uninterp spec fn lossy_decode(bytes: Seq<u8>) -> Seq<char>;

/// Relies on `String::from_utf8_lossy` from std: the decoded characters are
/// a function of the input bytes alone, and valid UTF-8 decodes unchanged.
#[verifier::external_body]
pub(crate) fn utf8_lossy(bytes: &[u8]) -> (r: String)
    ensures
        r@ == lossy_decode(bytes@),
        vstd::utf8::valid_utf8(bytes@) ==> r@ == vstd::utf8::decode_utf8(bytes@),
{
    String::from_utf8_lossy(bytes).into_owned()
}

/// Whether a submission buffer is long enough for its own length prefix:
/// one prefix byte, the announced identifier bytes, four score bytes and one
/// difficulty byte.
pub open spec fn submission_input_ok(input: Seq<u8>) -> bool {
    input.len() >= 6 && input.len() >= input[0] + 6
}

/// The player-identifier characters of a well-formed submission buffer.
pub open spec fn spec_submission_player(input: Seq<u8>) -> Seq<char> {
    lossy_decode(input.subrange(1, 1 + input[0] as int))
}

/// The score word of a well-formed submission buffer.
pub open spec fn spec_submission_score(input: Seq<u8>) -> u32 {
    spec_u32_from_le_bytes(input.subrange(1 + input[0] as int, 5 + input[0] as int))
}

/// The difficulty byte of a well-formed submission buffer.
pub open spec fn spec_submission_difficulty(input: Seq<u8>) -> u8 {
    input[5 + input[0] as int]
}

/// Unpacks a host submission buffer: a one-byte identifier length `L`, `L`
/// identifier bytes decoded as UTF-8 with replacement, a little-endian score
/// word, and a difficulty byte.  A buffer shorter than `1 + L + 4 + 1` bytes
/// is rejected.
pub fn decode_submission_input(input: &[u8]) -> (r: Result<(String, u32, u8), ScoreError>)
    ensures
        r is Ok <==> submission_input_ok(input@),
        !submission_input_ok(input@) ==> r == Err::<(String, u32, u8), ScoreError>(
            ScoreError::MalformedInput,
        ),
        r matches Ok(triple) ==> {
            &&& triple.0@ == spec_submission_player(input@)
            &&& triple.1 == spec_submission_score(input@)
            &&& triple.2 == spec_submission_difficulty(input@)
            &&& vstd::utf8::valid_utf8(input@.subrange(1, 1 + input@[0] as int)) ==> triple.0@
                == vstd::utf8::decode_utf8(input@.subrange(1, 1 + input@[0] as int))
        },
{
    if input.len() < 6 {
        return Err(ScoreError::MalformedInput);
    }
    let id_len = input[0] as usize;
    if input.len() < 1 + id_len + 4 + 1 {
        return Err(ScoreError::MalformedInput);
    }
    let player_id = utf8_lossy(slice_subrange(input, 1, 1 + id_len));
    let score = u32_from_le_bytes(slice_subrange(input, 1 + id_len, 5 + id_len));
    let difficulty = *vstd::slice::slice_index_get(input, 5 + id_len);
    Ok((player_id, score, difficulty))
}

} // verus!

//! The integrity binder for the single-shot execution path.
//!
//! A (score, session-identifier) pair is validated against the protocol
//! bounds and then mixed into a 32-bit binding value by a 64-bit avalanche
//! finalizer.  The binding is an unkeyed deterministic commitment, not a MAC:
//! it resists accidental tampering and replay of observed outputs, not
//! forgery by a party that knows the algorithm and both fields.

use crate::errors::ScoreError;
use vstd::prelude::*;

verus! {

/// No play session can predate the protocol launch: a session identifier
/// carries a timestamp in its high bits (above bit 20), and that timestamp
/// must reach this epoch second.
pub const MIN_SESSION_EPOCH: u64 = 1700000000;

/// The single-shot path accepts scores from 1 to this bound, a deliberately
/// tighter policy than the host submission bound.
pub const MAX_GUEST_SCORE: u64 = 1000;

/// The first mixing constant of the 64-bit avalanche finalizer.
pub const MIX_CONSTANT_1: u64 = 0xff51afd7ed558ccd;

/// The second mixing constant of the 64-bit avalanche finalizer.
pub const MIX_CONSTANT_2: u64 = 0xc4ceb9fe1a85ec53;

/// The 64-bit word rotated left by 32 bits.
pub open spec fn rotl32(x: u64) -> u64 {
    (x << 32) | (x >> 32)
}

/// The binding value: the score xored with the rotated session identifier,
/// run through a Murmur-style avalanche finalizer, folded to 32 bits.
pub open spec fn spec_binding(score: u64, session_id: u64) -> u32 {
    let c0 = score ^ rotl32(session_id);
    let c1 = (c0 ^ (c0 >> 33)).wrapping_mul(MIX_CONSTANT_1);
    let c2 = (c1 ^ (c1 >> 33)).wrapping_mul(MIX_CONSTANT_2);
    let c3 = c2 ^ (c2 >> 33);
    (c3 as u32) ^ ((c3 >> 32) as u32)
}

/// The protocol bounds of the single-shot path: score in `[1, 1000]`,
/// session identifier non-zero, session timestamp at or after the launch
/// epoch.
pub open spec fn guest_fields_valid(score: u64, session_id: u64) -> bool {
    &&& 1 <= score <= MAX_GUEST_SCORE
    &&& session_id != 0
    &&& (session_id >> 20) >= MIN_SESSION_EPOCH
}

/// The first protocol bound a (score, session-identifier) pair breaks, if
/// any, checked in the fixed order: score bound, zero session, stale
/// session timestamp.
pub open spec fn guest_fault(score: u64, session_id: u64) -> Option<ScoreError> {
    if score == 0 || score > MAX_GUEST_SCORE {
        Some(ScoreError::ScoreOutOfRange)
    } else if session_id == 0 {
        Some(ScoreError::SessionIdZero)
    } else if (session_id >> 20) < MIN_SESSION_EPOCH {
        Some(ScoreError::SessionTooOld)
    } else {
        None
    }
}

/// Checks the protocol bounds in order and reports the first violation.
pub fn validate_guest(score: u64, session_id: u64) -> (r: Result<(), ScoreError>)
    ensures
        r is Ok <==> guest_fields_valid(score, session_id),
        (match guest_fault(score, session_id) {
            None => r == Ok::<(), ScoreError>(()),
            Some(e) => r == Err::<(), ScoreError>(e),
        }),
{
    if score == 0 || score > MAX_GUEST_SCORE {
        Err(ScoreError::ScoreOutOfRange)
    } else if session_id == 0 {
        Err(ScoreError::SessionIdZero)
    } else if (session_id >> 20) < MIN_SESSION_EPOCH {
        Err(ScoreError::SessionTooOld)
    } else {
        Ok(())
    }
}

/// Computes the binding value for a validated pair.
pub fn create_proof_binding(score: u64, game_id: u64) -> (r: u32)
    ensures
        r == spec_binding(score, game_id),
{
    let rotated = (game_id << 32) | (game_id >> 32);
    let mut combined = score ^ rotated;

    combined ^= combined >> 33;
    combined = combined.wrapping_mul(MIX_CONSTANT_1);
    combined ^= combined >> 33;
    combined = combined.wrapping_mul(MIX_CONSTANT_2);
    combined ^= combined >> 33;

    let lo = #[verifier::truncate] (combined as u32);
    let hi = #[verifier::truncate] ((combined >> 32) as u32);
    lo ^ hi
}

/// Two computations of the binding from the same fields always agree: the
/// binding is a pure function of the score and the session identifier, with
/// no hidden input.
pub proof fn lemma_binding_deterministic(s1: u64, id1: u64, s2: u64, id2: u64)
    requires
        s1 == s2,
        id1 == id2,
    ensures
        spec_binding(s1, id1) == spec_binding(s2, id2),
{
}

/// The low 32 bits of a 64-bit word.
pub open spec fn low32(x: u64) -> u32 {
    (x & 0xffff_ffff) as u32
}

/// The high 32 bits of a 64-bit word.
pub open spec fn high32(x: u64) -> u32 {
    (x >> 32) as u32
}

/// One whole single-shot invocation, as a pure function from the input
/// buffer to its outcome: decode the 16-byte layout, validate the protocol
/// bounds, and compute the binding.  Any violation is fatal for the
/// invocation; the outermost entry boundary turns the error into an abort.
pub fn run_guest(input: &[u8]) -> (r: Result<BindingOutput, ScoreError>)
    ensures
        input@.len() != 16 ==> r == Err::<BindingOutput, ScoreError>(ScoreError::MalformedInput),
        input@.len() == 16 ==> {
            let score = crate::codec::spec_guest_score(input@);
            let session_id = crate::codec::spec_guest_session(input@);
            match guest_fault(score, session_id) {
                Some(e) => r == Err::<BindingOutput, ScoreError>(e),
                None => r matches Ok(out) && {
                    &&& out.score == score
                    &&& out.session_id == session_id
                    &&& out.binding == spec_binding(score, session_id)
                },
            }
        },
{
    let (score, session_id) = match crate::codec::decode_guest_input(input) {
        Ok(pair) => pair,
        Err(e) => {
            return Err(e);
        },
    };
    match validate_guest(score, session_id) {
        Ok(()) => {},
        Err(e) => {
            return Err(e);
        },
    }
    let binding = create_proof_binding(score, session_id);
    Ok(BindingOutput { score, session_id, binding })
}

/// What one validated single-shot invocation produces, before it is written
/// to the fixed output slots.
pub struct BindingOutput {
    pub score: u64,
    pub session_id: u64,
    pub binding: u32,
}

impl BindingOutput {
    /// The fixed output-slot layout: score low and high words, session
    /// identifier low and high words, then the binding value.
    pub fn output_slots(&self) -> (r: Vec<u32>)
        ensures
            r@.len() == 5,
            r@[0] == low32(self.score),
            r@[1] == high32(self.score),
            r@[2] == low32(self.session_id),
            r@[3] == high32(self.session_id),
            r@[4] == self.binding,
    {
        let mut slots: Vec<u32> = Vec::new();
        proof {
            let s = self.score;
            let id = self.session_id;
            assert(s & 0xffff_ffff < 0x1_0000_0000) by (bit_vector);
            assert(id & 0xffff_ffff < 0x1_0000_0000) by (bit_vector);
            assert(s >> 32 < 0x1_0000_0000) by (bit_vector);
            assert(id >> 32 < 0x1_0000_0000) by (bit_vector);
        }
        slots.push((self.score & 0xffff_ffff) as u32);
        slots.push((self.score >> 32) as u32);
        slots.push((self.session_id & 0xffff_ffff) as u32);
        slots.push((self.session_id >> 32) as u32);
        slots.push(self.binding);
        slots
    }
}

} // verus!

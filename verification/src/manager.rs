//! Submission handling: validation, proof construction, and the owned
//! leaderboard store.
//!
//! The store is an owned value passed explicitly to its callers; every
//! mutating operation takes it exclusively, so an insert and its re-sort are
//! one atomic unit and no read ever observes a bucket mid-sort.

use crate::errors::ScoreError;
use crate::leaderboard::{
    bucket_contains_hash, bucket_has_hash, bucket_insert, bucket_sorted, bucket_top,
    hashes_unique, insert_pos, LeaderboardEntry,
};
use crate::proofs::{spec_content_hash, GameScore, ScoreProof};
use crate::text::dec_of;
use vstd::multiset::Multiset;
use vstd::prelude::*;

verus! {

/// The widest score the host path accepts.  This is a deliberately looser
/// policy than the single-shot bound: the two trust boundaries differ.
pub const MAX_SUBMITTED_SCORE: u32 = 1_000_000;

/// The highest difficulty category.
pub const MAX_DIFFICULTY: u8 = 10;

/// The fixed timestamp every record is built with, so that proof
/// construction stays deterministic and testable.
pub const FIXED_TIMESTAMP: u64 = 1234567890;

/// What `str::trim` leaves of a character sequence.  Only emptiness of the
/// result is ever relied on.
pub uninterp spec fn trimmed_of(s: Seq<char>) -> Seq<char>;

/// Every character is an ASCII graphic character, `!` through `~`.  None of
/// those is whitespace, so such a string is untouched by trimming.
pub open spec fn ascii_graphic(s: Seq<char>) -> bool {
    forall|i: int| 0 <= i < s.len() ==> '!' <= #[trigger] s[i] <= '~'
}

/// Relies on `str::trim` from std: it removes leading and trailing
/// whitespace and nothing else, as a function of the characters alone.  So
/// an empty string stays empty, and a string of ASCII graphic characters —
/// none of which is whitespace — trims to itself.
#[verifier::external_body]
fn trim_str(s: &str) -> (r: &str)
    ensures
        r@ == trimmed_of(s@),
        s@.len() == 0 ==> r@.len() == 0,
        ascii_graphic(s@) ==> r@ == s@,
{
    s.trim()
}

/// One score submission, before validation.  The optional session and
/// timestamp fields are accepted for callers that track them; record
/// construction itself uses the fixed protocol timestamp.
pub struct ScoreSubmission {
    pub player_id: String,
    pub score: u32,
    pub difficulty: u8,
    pub game_session_id: Option<String>,
    pub timestamp: Option<i64>,
}

/// The first rule a submission breaks, if any: a blank player identifier,
/// then a zero score, then an unreasonably high score, then an unknown
/// difficulty.  The host score bound is the half-open `(0, 1_000_000]`.
pub open spec fn submission_fault(player: Seq<char>, score: u32, difficulty: u8) -> Option<
    ScoreError,
> {
    if trimmed_of(player).len() == 0 {
        Some(ScoreError::EmptyPlayerId)
    } else if score == 0 {
        Some(ScoreError::ScoreZero)
    } else if score > MAX_SUBMITTED_SCORE {
        Some(ScoreError::ScoreTooHigh)
    } else if difficulty > MAX_DIFFICULTY {
        Some(ScoreError::InvalidDifficulty)
    } else {
        None
    }
}

impl ScoreSubmission {
    /// A submission with no session or timestamp attached.
    pub fn new(player_id: String, score: u32, difficulty: u8) -> (r: ScoreSubmission)
        ensures
            r.player_id == player_id,
            r.score == score,
            r.difficulty == difficulty,
            r.game_session_id is None,
            r.timestamp is None,
    {
        ScoreSubmission { player_id, score, difficulty, game_session_id: None, timestamp: None }
    }

    /// The same submission with a session identifier attached.
    pub fn with_session(self, session_id: String) -> (r: ScoreSubmission)
        ensures
            r.player_id == self.player_id,
            r.score == self.score,
            r.difficulty == self.difficulty,
            r.game_session_id == Some(session_id),
            r.timestamp == self.timestamp,
    {
        ScoreSubmission { game_session_id: Some(session_id), ..self }
    }

    /// The same submission with a timestamp attached.
    pub fn with_timestamp(self, timestamp: i64) -> (r: ScoreSubmission)
        ensures
            r.player_id == self.player_id,
            r.score == self.score,
            r.difficulty == self.difficulty,
            r.game_session_id == self.game_session_id,
            r.timestamp == Some(timestamp),
    {
        ScoreSubmission { timestamp: Some(timestamp), ..self }
    }

    /// Checks the submission rules in order and reports the first one
    /// broken: blank player identifier, score outside the host bound
    /// `(0, 1_000_000]` (zero and over-bound are distinct kinds), difficulty
    /// above the highest category.  The two final clauses expose what
    /// trimming did to the identifier, so that callers can settle concrete
    /// submissions.
    pub fn validate(&self) -> (r: Result<(), ScoreError>)
        ensures
            (match submission_fault(self.player_id@, self.score, self.difficulty) {
                None => r == Ok::<(), ScoreError>(()),
                Some(e) => r == Err::<(), ScoreError>(e),
            }),
            self.player_id@.len() == 0 ==> r == Err::<(), ScoreError>(ScoreError::EmptyPlayerId),
            ascii_graphic(self.player_id@) ==> trimmed_of(self.player_id@) == self.player_id@,
            self.player_id@.len() == 0 ==> trimmed_of(self.player_id@).len() == 0,
    {
        if trim_str(self.player_id.as_str()).is_empty() {
            Err(ScoreError::EmptyPlayerId)
        } else if self.score == 0 {
            Err(ScoreError::ScoreZero)
        } else if self.score > MAX_SUBMITTED_SCORE {
            Err(ScoreError::ScoreTooHigh)
        } else if self.difficulty > MAX_DIFFICULTY {
            Err(ScoreError::InvalidDifficulty)
        } else {
            Ok(())
        }
    }
}

/// The response handed back for one submission: on success a proof and a
/// one-indexed rank, on failure the rule that was broken, with the store
/// untouched.
pub struct ScoreResponse {
    pub success: bool,
    pub proof: Option<ScoreProof>,
    pub error: Option<ScoreError>,
    pub leaderboard_position: Option<u32>,
}

/// A player's aggregates within one difficulty category.  The mean score
/// is left to callers as `score_sum / games_played`; the store keeps exact
/// integers only.
pub struct DifficultyStats {
    pub games_played: u32,
    pub highest_score: u32,
    pub score_sum: u64,
}

/// A player's aggregates across the whole store, recomputed from the
/// current contents on every query: idempotent and insertion-order-free.
pub struct PlayerStats {
    pub player_id: String,
    pub total_games: u32,
    pub highest_score: u32,
    pub total_score: u64,
    pub difficulty_breakdown: Vec<(u8, DifficultyStats)>,
}

/// The number of difficulty categories, `0` through [`MAX_DIFFICULTY`].
pub const BUCKET_COUNT: usize = 11;

/// The entries of the buckets strictly below index `upto`, counted.
pub open spec fn entries_up_to(v: Seq<Seq<LeaderboardEntry>>, upto: int) -> int
    decreases upto,
{
    if upto <= 0 {
        0
    } else {
        entries_up_to(v, upto - 1) + v[upto - 1].len()
    }
}

/// All entries of the store, counted.
pub open spec fn total_entries(v: Seq<Seq<LeaderboardEntry>>) -> int {
    entries_up_to(v, v.len() as int)
}

/// The store invariant: eleven buckets, each sorted, each free of duplicate
/// content hashes, each holding only entries of its own difficulty, and a
/// total entry count that fits the rank type.
pub open spec fn store_wf(v: Seq<Seq<LeaderboardEntry>>) -> bool {
    &&& v.len() == BUCKET_COUNT
    &&& forall|d: int| 0 <= d < v.len() ==> bucket_sorted(#[trigger] v[d])
    &&& forall|d: int| 0 <= d < v.len() ==> hashes_unique(#[trigger] v[d])
    &&& forall|d: int, i: int|
        0 <= d < v.len() && 0 <= i < v[d].len() ==> (#[trigger] v[d][i]).difficulty == d
    &&& total_entries(v) <= u32::MAX
}

/// Owns the authoritative per-category buckets and orchestrates submission
/// validation, proof construction and insertion.
pub struct ScoreManager {
    buckets: Vec<Vec<LeaderboardEntry>>,
}

impl View for ScoreManager {
    type V = Seq<Seq<LeaderboardEntry>>;

    closed spec fn view(&self) -> Seq<Seq<LeaderboardEntry>> {
        Seq::new(self.buckets@.len() as nat, |d: int| self.buckets@[d]@)
    }
}

/// The entries of the buckets strictly below index `upto`, as one multiset.
pub open spec fn entries_multiset_up_to(v: Seq<Seq<LeaderboardEntry>>, upto: int) -> Multiset<
    LeaderboardEntry,
>
    decreases upto,
{
    if upto <= 0 {
        Multiset::empty()
    } else {
        entries_multiset_up_to(v, upto - 1).add(v[upto - 1].to_multiset())
    }
}

/// All entries of the store, as one multiset.
pub open spec fn all_entries(v: Seq<Seq<LeaderboardEntry>>) -> Multiset<LeaderboardEntry> {
    entries_multiset_up_to(v, v.len() as int)
}

proof fn lemma_entries_up_to_mono(v: Seq<Seq<LeaderboardEntry>>, a: int, b: int)
    requires
        a <= b,
    ensures
        entries_up_to(v, a) <= entries_up_to(v, b),
    decreases b - a,
{
    if a < b {
        lemma_entries_up_to_mono(v, a, b - 1);
    }
}

proof fn lemma_entries_up_to_nonneg(v: Seq<Seq<LeaderboardEntry>>, upto: int)
    ensures
        entries_up_to(v, upto) >= 0,
    decreases upto,
{
    if upto > 0 {
        lemma_entries_up_to_nonneg(v, upto - 1);
    }
}

proof fn lemma_bucket_within_total(v: Seq<Seq<LeaderboardEntry>>, d: int, upto: int)
    requires
        0 <= d < upto,
    ensures
        v[d].len() <= entries_up_to(v, upto),
    decreases upto,
{
    if upto - 1 == d {
        lemma_entries_up_to_nonneg(v, d);
    } else {
        lemma_bucket_within_total(v, d, upto - 1);
    }
}

proof fn lemma_entries_up_to_bump(
    v1: Seq<Seq<LeaderboardEntry>>,
    v2: Seq<Seq<LeaderboardEntry>>,
    d: int,
    upto: int,
)
    requires
        v1.len() == v2.len(),
        0 <= d < v1.len(),
        forall|d2: int| 0 <= d2 < v1.len() && d2 != d ==> v2[d2] == v1[d2],
        v2[d].len() == v1[d].len() + 1,
        upto <= v1.len(),
    ensures
        entries_up_to(v2, upto) == entries_up_to(v1, upto) + if d < upto {
            1int
        } else {
            0int
        },
    decreases upto,
{
    if upto > 0 {
        lemma_entries_up_to_bump(v1, v2, d, upto - 1);
    }
}

fn bucket_stats(bucket: &Vec<LeaderboardEntry>, pid: &String) -> (r: (u32, u32, u64))
    requires
        bucket@.len() <= 0xffff_ffff,
    ensures
        r.0 == count_for(bucket@, pid@),
        r.1 == max_for(bucket@, pid@),
        r.2 == sum_for(bucket@, pid@),
{
    let mut games: u32 = 0;
    let mut bmax: u32 = 0;
    let mut bsum: u64 = 0;
    let mut i: usize = 0;
    while i < bucket.len()
        invariant
            i <= bucket@.len(),
            bucket@.len() <= 0xffff_ffff,
            games == count_for(bucket@.take(i as int), pid@),
            bmax == max_for(bucket@.take(i as int), pid@),
            bsum == sum_for(bucket@.take(i as int), pid@),
        decreases bucket@.len() - i,
    {
        proof {
            lemma_count_for_le_len(bucket@.take(i as int), pid@);
            lemma_sum_for_bound(bucket@.take(i as int), pid@);
            lemma_max_for_bound(bucket@.take(i as int), pid@);
            assert(bucket@.take(i as int).len() == i);
            assert(i * 0xffff_ffff + 0xffff_ffff <= 0xffff_ffffint * 0xffff_ffff)
                by (nonlinear_arith)
                requires
                    0 <= i,
                    i + 1 <= 0xffff_ffff,
            ;
            assert(bucket@.take(i + 1).drop_last() =~= bucket@.take(i as int));
            assert(bucket@.take(i + 1).last() == bucket@[i as int]);
        }
        if bucket[i].player_id == *pid {
            games = games + 1;
            if bucket[i].score > bmax {
                bmax = bucket[i].score;
            }
            bsum = bsum + bucket[i].score as u64;
        }
        i = i + 1;
    }
    proof {
        assert(bucket@.take(bucket@.len() as int) =~= bucket@);
    }
    (games, bmax, bsum)
}

impl ScoreManager {
    /// The store invariant, over the abstract bucket sequence.
    pub open spec fn wf(self) -> bool {
        store_wf(self@)
    }

    /// An empty store: eleven empty buckets.
    pub fn new() -> (r: ScoreManager)
        ensures
            r.wf(),
            r@.len() == BUCKET_COUNT,
            forall|d: int| 0 <= d < r@.len() ==> (#[trigger] r@[d]).len() == 0,
            total_entries(r@) == 0,
    {
        let mut buckets: Vec<Vec<LeaderboardEntry>> = Vec::new();
        let mut i: usize = 0;
        while i < BUCKET_COUNT
            invariant
                i <= BUCKET_COUNT,
                buckets@.len() == i,
                forall|d: int| 0 <= d < i ==> (#[trigger] buckets@[d])@.len() == 0,
            decreases BUCKET_COUNT - i,
        {
            buckets.push(Vec::new());
            i = i + 1;
        }
        let r = ScoreManager { buckets };
        proof {
            lemma_entries_up_to_zero(r@, BUCKET_COUNT as int);
        }
        r
    }

    /// Inserts a record's leaderboard projection into its difficulty bucket
    /// and returns its one-indexed rank.  A content hash already present in
    /// the bucket is a protocol error: the duplicate is rejected and the
    /// store is left untouched.
    pub fn add_to_leaderboard(&mut self, score: &GameScore) -> (r: Result<u32, ScoreError>)
        requires
            old(self).wf(),
            score.difficulty_level <= MAX_DIFFICULTY,
            score.timestamp <= i64::MAX,
            total_entries(old(self)@) < u32::MAX,
        ensures
            final(self).wf(),
            bucket_has_hash(old(self)@[score.difficulty_level as int], score.proof_hash@) <==> r
                == Err::<u32, ScoreError>(ScoreError::CollisionError),
            r is Err ==> r == Err::<u32, ScoreError>(ScoreError::CollisionError),
            r is Err ==> final(self)@ == old(self)@,
            r matches Ok(rank) ==> {
                let d = score.difficulty_level as int;
                &&& 1 <= rank <= old(self)@[d].len() + 1
                &&& rank - 1 == insert_pos(old(self)@[d], score.score, score.timestamp as i64)
                &&& exists|e: LeaderboardEntry|
                    {
                        &&& e.player_id@ == score.player_id@
                        &&& e.score == score.score
                        &&& e.difficulty == score.difficulty_level
                        &&& e.timestamp == score.timestamp as i64
                        &&& e.proof_hash@ == score.proof_hash@
                        &&& final(self)@[d] == old(self)@[d].insert(rank - 1, e)
                    }
                &&& forall|d2: int|
                    0 <= d2 < old(self)@.len() && d2 != d ==> final(self)@[d2] == old(self)@[d2]
                &&& total_entries(final(self)@) == total_entries(old(self)@) + 1
            },
    {
        let d = score.difficulty_level as usize;
        let ghost v_old = self@;
        let mut bucket = self.buckets.remove(d);
        proof {
            assert(bucket@ == v_old[d as int]);
        }
        if bucket_contains_hash(&bucket, &score.proof_hash) {
            self.buckets.insert(d, bucket);
            proof {
                assert(self@ =~= v_old);
            }
            return Err(ScoreError::CollisionError);
        }
        let entry = LeaderboardEntry {
            player_id: score.player_id.clone(),
            score: score.score,
            difficulty: score.difficulty_level,
            timestamp: score.timestamp as i64,
            proof_hash: score.proof_hash.clone(),
        };
        let ghost e = entry;
        proof {
            lemma_bucket_within_total(v_old, d as int, v_old.len() as int);
        }
        let rank = bucket_insert(&mut bucket, entry);
        proof {
            crate::leaderboard::lemma_insert_preserves_unique_hashes(
                v_old[d as int],
                e,
                rank - 1,
            );
        }
        self.buckets.insert(d, bucket);
        proof {
            assert forall|d2: int| 0 <= d2 < v_old.len() && d2 != d implies self@[d2] == v_old[d2]
            by {
                assert(self.buckets@[d2] == old(self).buckets@[d2]);
            }
            assert(self@[d as int] == v_old[d as int].insert(rank - 1, e));
            lemma_entries_up_to_bump(v_old, self@, d as int, v_old.len() as int);
            assert forall|dd: int, i: int|
                0 <= dd < self@.len() && 0 <= i < self@[dd].len() implies (#[trigger] (
            self@[dd][i])).difficulty == dd by {
                if dd == d as int {
                    let s = v_old[d as int];
                    let k = rank - 1;
                    s.insert_ensures(k, e);
                    if i < k {
                        assert(self@[dd][i] == s[i]);
                        assert(s[i].difficulty == dd);
                    } else if i == k {
                        assert(self@[dd][i] == e);
                    } else {
                        assert(self@[dd][i] == s[i - 1]);
                        assert(s[i - 1].difficulty == dd);
                    }
                } else {
                    assert(self@[dd][i] == v_old[dd][i]);
                    assert(v_old[dd][i].difficulty == dd);
                }
            }
            assert forall|dd: int| 0 <= dd < self@.len() implies bucket_sorted(
                #[trigger] self@[dd],
            ) && hashes_unique(self@[dd]) by {
                if dd != d as int {
                    assert(self@[dd] == v_old[dd]);
                }
            }
            assert(rank <= u32::MAX);
            assert((rank as u32) as int == rank as int);
            assert({
                &&& e.player_id@ == score.player_id@
                &&& e.score == score.score
                &&& e.difficulty == score.difficulty_level
                &&& e.timestamp == score.timestamp as i64
                &&& e.proof_hash@ == score.proof_hash@
                &&& self@[score.difficulty_level as int] == v_old[score.difficulty_level as int]
                    .insert(rank - 1, e)
            });
        }
        Ok(rank as u32)
    }

    /// Up to `limit` entries of one difficulty category, in ranked order.
    /// An unknown category answers an empty sequence, not an error.
    pub fn get_leaderboard(&self, difficulty: u8, limit: usize) -> (r: Result<
        Vec<LeaderboardEntry>,
        ScoreError,
    >)
        requires
            self.wf(),
        ensures
            r is Ok,
            difficulty > MAX_DIFFICULTY ==> (r matches Ok(v) && v@.len() == 0),
            difficulty <= MAX_DIFFICULTY ==> (r matches Ok(v) && {
                let bucket = self@[difficulty as int];
                &&& v@ == bucket.take(if limit < bucket.len() {
                    limit as int
                } else {
                    bucket.len() as int
                })
                &&& bucket_sorted(v@)
            }),
    {
        if difficulty > MAX_DIFFICULTY {
            return Ok(Vec::new());
        }
        let r = bucket_top(&self.buckets[difficulty as usize], limit);
        proof {
            let bucket = self@[difficulty as int];
            crate::leaderboard::lemma_sorted_prefix(
                bucket,
                if limit < bucket.len() {
                    limit as int
                } else {
                    bucket.len() as int
                },
            );
        }
        Ok(r)
    }

    /// Validates a submission, builds its record and proof, inserts the
    /// record into the leaderboard, and assembles the response.  A broken
    /// submission rule or a duplicate content hash comes back inside the
    /// response, with the store untouched; only an accepted submission
    /// mutates the store.
    pub fn process_score(&mut self, submission: ScoreSubmission) -> (r: Result<
        ScoreResponse,
        ScoreError,
    >)
        requires
            old(self).wf(),
            total_entries(old(self)@) < u32::MAX,
        ensures
            final(self).wf(),
            r is Ok,
            ascii_graphic(submission.player_id@) ==> trimmed_of(submission.player_id@)
                == submission.player_id@,
            submission.player_id@.len() == 0 ==> trimmed_of(submission.player_id@).len() == 0,
            r matches Ok(resp) ==> {
                let fault = submission_fault(
                    submission.player_id@,
                    submission.score,
                    submission.difficulty,
                );
                let d = submission.difficulty as int;
                let h = spec_submission_hash(
                    submission.player_id@,
                    submission.score,
                    submission.difficulty,
                );
                &&& (fault matches Some(err) ==> {
                    &&& resp.success == false
                    &&& resp.error == Some(err)
                    &&& resp.proof is None
                    &&& resp.leaderboard_position is None
                    &&& final(self)@ == old(self)@
                })
                &&& (fault is None && bucket_has_hash(old(self)@[d], h) ==> {
                    &&& resp.success == false
                    &&& resp.error == Some(ScoreError::CollisionError)
                    &&& resp.proof is None
                    &&& resp.leaderboard_position is None
                    &&& final(self)@ == old(self)@
                })
                &&& (fault is None && !bucket_has_hash(old(self)@[d], h) ==> {
                    &&& resp.success == true
                    &&& resp.error is None
                    &&& (resp.proof matches Some(p) && {
                        &&& p.score_data.player_id@ == submission.player_id@
                        &&& p.score_data.score == submission.score
                        &&& p.score_data.timestamp == FIXED_TIMESTAMP
                        &&& p.score_data.game_session_id@ == spec_session_text(submission.score)
                        &&& p.score_data.difficulty_level == submission.difficulty
                        &&& p.score_data.proof_hash@ == h
                        &&& spec_verify(p)
                    })
                    &&& (resp.leaderboard_position matches Some(rank) && {
                        &&& 1 <= rank <= old(self)@[d].len() + 1
                        &&& rank - 1 == insert_pos(
                            old(self)@[d],
                            submission.score,
                            FIXED_TIMESTAMP as i64,
                        )
                        &&& exists|e: LeaderboardEntry|
                            {
                                &&& e.player_id@ == submission.player_id@
                                &&& e.score == submission.score
                                &&& e.difficulty == submission.difficulty
                                &&& e.timestamp == FIXED_TIMESTAMP as i64
                                &&& e.proof_hash@ == h
                                &&& final(self)@[d] == old(self)@[d].insert(rank - 1, e)
                            }
                        &&& forall|d2: int|
                            0 <= d2 < old(self)@.len() && d2 != d ==> final(self)@[d2] == old(
                                self,
                            )@[d2]
                        &&& total_entries(final(self)@) == total_entries(old(self)@) + 1
                    })
                })
            },
    {
        match submission.validate() {
            Err(err) => Ok(
                ScoreResponse {
                    success: false,
                    proof: None,
                    error: Some(err),
                    leaderboard_position: None,
                },
            ),
            Ok(()) => {
                let game_score = GameScore::new(
                    submission.player_id.clone(),
                    submission.score,
                    submission.difficulty,
                );
                let score_proof = ScoreProof::new(game_score);
                match self.add_to_leaderboard(&score_proof.score_data) {
                    Err(err) => Ok(
                        ScoreResponse {
                            success: false,
                            proof: None,
                            error: Some(err),
                            leaderboard_position: None,
                        },
                    ),
                    Ok(rank) => {
                        proof {
                            let d = submission.difficulty as int;
                            let h = spec_submission_hash(
                                submission.player_id@,
                                submission.score,
                                submission.difficulty,
                            );
                            assert(score_proof.score_data.proof_hash@ == h);
                            let sd = score_proof.score_data;
                            let e = choose|e: LeaderboardEntry|
                                {
                                    &&& e.player_id@ == sd.player_id@
                                    &&& e.score == sd.score
                                    &&& e.difficulty == sd.difficulty_level
                                    &&& e.timestamp == sd.timestamp as i64
                                    &&& e.proof_hash@ == sd.proof_hash@
                                    &&& self@[sd.difficulty_level as int] == old(self)@[sd.difficulty_level as int].insert(rank - 1, e)
                                };
                            assert({
                                &&& e.player_id@ == submission.player_id@
                                &&& e.score == submission.score
                                &&& e.difficulty == submission.difficulty
                                &&& e.timestamp == FIXED_TIMESTAMP as i64
                                &&& e.proof_hash@ == h
                                &&& self@[d] == old(self)@[d].insert(rank - 1, e)
                            });
                        }
                        Ok(
                            ScoreResponse {
                                success: true,
                                proof: Some(score_proof),
                                error: None,
                                leaderboard_position: Some(rank),
                            },
                        )
                    },
                }
            },
        }
    }

    /// Up to `limit` entries across every category, merged under the global
    /// ordering: score descending, timestamp ascending on ties.  The result
    /// is a prefix of one fully sorted arrangement of all stored entries.
    pub fn get_global_leaderboard(&self, limit: usize) -> (r: Result<
        Vec<LeaderboardEntry>,
        ScoreError,
    >)
        requires
            self.wf(),
        ensures
            r matches Ok(v) && {
                &&& bucket_sorted(v@)
                &&& v@.len() == (if (limit as int) < total_entries(self@) {
                    limit as int
                } else {
                    total_entries(self@)
                })
                &&& exists|full: Seq<LeaderboardEntry>|
                    {
                        &&& bucket_sorted(full)
                        &&& full.to_multiset() == all_entries(self@)
                        &&& v@ == full.take(v@.len() as int)
                    }
            },
    {
        let mut all: Vec<LeaderboardEntry> = Vec::new();
        proof {
            broadcast use vstd::seq_lib::group_to_multiset_ensures;
            broadcast use vstd::multiset::group_multiset_axioms;

            assert(all@.to_multiset() =~= Multiset::<LeaderboardEntry>::empty());
        }
        let mut d: usize = 0;
        while d < BUCKET_COUNT
            invariant
                self.wf(),
                d <= BUCKET_COUNT,
                bucket_sorted(all@),
                all@.len() == entries_up_to(self@, d as int),
                all@.to_multiset() == entries_multiset_up_to(self@, d as int),
            decreases BUCKET_COUNT - d,
        {
            proof {
                assert(self.buckets@[d as int]@ == self@[d as int]);
                assert(entries_up_to(self@, d as int + 1) == entries_up_to(self@, d as int)
                    + self@[d as int].len());
                lemma_entries_up_to_mono(self@, d as int + 1, self@.len() as int);
            }
            crate::leaderboard::merge_bucket(&mut all, &self.buckets[d]);
            d = d + 1;
        }
        let n = if limit < all.len() {
            limit
        } else {
            all.len()
        };
        let ghost full = all@;
        let mut v = all;
        v.truncate(n);
        proof {
            assert(v@ == full.take(n as int));
            assert({
                &&& bucket_sorted(full)
                &&& full.to_multiset() == all_entries(self@)
                &&& v@ == full.take(v@.len() as int)
            });
        }
        Ok(v)
    }

    /// A player's aggregates, scanned afresh from every category: per-
    /// category games, highest score and score sum, and the overall totals.
    /// A player with no entries gets an all-zero result, not an error.
    pub fn get_player_stats(&self, player_id: &str) -> (r: Result<PlayerStats, ScoreError>)
        requires
            self.wf(),
        ensures
            r matches Ok(st) && {
                &&& st.player_id@ == player_id@
                &&& st.total_games == count_up_to(self@, player_id@, self@.len() as int)
                &&& st.total_score == sum_up_to(self@, player_id@, self@.len() as int)
                &&& st.highest_score == max_up_to(self@, player_id@, self@.len() as int)
                &&& keys_of(st.difficulty_breakdown@) == breakdown_keys(
                    self@,
                    player_id@,
                    self@.len() as int,
                )
                &&& forall|k: int|
                    0 <= k < st.difficulty_breakdown@.len() ==> {
                        let d = (#[trigger] st.difficulty_breakdown@[k]).0 as int;
                        let ds = st.difficulty_breakdown@[k].1;
                        &&& 0 <= d < self@.len()
                        &&& ds.games_played == count_for(self@[d], player_id@)
                        &&& ds.highest_score == max_for(self@[d], player_id@)
                        &&& ds.score_sum == sum_for(self@[d], player_id@)
                    }
            },
    {
        let pid = String::from_str(player_id);
        let mut total_games: u32 = 0;
        let mut highest_score: u32 = 0;
        let mut total_score: u64 = 0;
        let mut breakdown: Vec<(u8, DifficultyStats)> = Vec::new();
        let mut d: usize = 0;
        proof {
            assert(keys_of(breakdown@) =~= breakdown_keys(self@, player_id@, 0));
        }
        while d < BUCKET_COUNT
            invariant
                self.wf(),
                pid@ == player_id@,
                d <= BUCKET_COUNT,
                total_games == count_up_to(self@, player_id@, d as int),
                total_score == sum_up_to(self@, player_id@, d as int),
                highest_score == max_up_to(self@, player_id@, d as int),
                keys_of(breakdown@) == breakdown_keys(self@, player_id@, d as int),
                forall|k: int|
                    0 <= k < breakdown@.len() ==> {
                        let dd = (#[trigger] breakdown@[k]).0 as int;
                        let ds = breakdown@[k].1;
                        &&& 0 <= dd < self@.len()
                        &&& ds.games_played == count_for(self@[dd], player_id@)
                        &&& ds.highest_score == max_for(self@[dd], player_id@)
                        &&& ds.score_sum == sum_for(self@[dd], player_id@)
                    },
            decreases BUCKET_COUNT - d,
        {
            proof {
                assert(self.buckets@[d as int]@ == self@[d as int]);
                lemma_bucket_within_total(self@, d as int, self@.len() as int);
                lemma_count_up_to_bound(self@, player_id@, d as int);
                lemma_count_for_le_len(self@[d as int], player_id@);
                lemma_entries_up_to_mono(self@, d as int + 1, self@.len() as int);
                lemma_sum_up_to_bound(self@, player_id@, d as int);
                lemma_sum_for_bound(self@[d as int], player_id@);
                lemma_max_for_bound(self@[d as int], player_id@);
                lemma_entries_up_to_nonneg(self@, d as int);
                assert(entries_up_to(self@, d as int) * 0xffff_ffff + self@[d as int].len()
                    * 0xffff_ffff == entries_up_to(self@, d as int + 1) * 0xffff_ffff)
                    by (nonlinear_arith)
                    requires
                        entries_up_to(self@, d as int) + self@[d as int].len() == entries_up_to(
                            self@,
                            d as int + 1,
                        ),
                ;
                assert(entries_up_to(self@, d as int + 1) * 0xffff_ffff <= 0xffff_ffffint
                    * 0xffff_ffff) by (nonlinear_arith)
                    requires
                        0 <= entries_up_to(self@, d as int + 1) <= 0xffff_ffff,
                ;
            }
            let (games, bmax, bsum) = bucket_stats(&self.buckets[d], &pid);
            if games > 0 {
                let ghost prev_keys = keys_of(breakdown@);
                breakdown.push(
                    (
                        d as u8,
                        DifficultyStats {
                            games_played: games,
                            highest_score: bmax,
                            score_sum: bsum,
                        },
                    ),
                );
                proof {
                    assert(keys_of(breakdown@) =~= prev_keys.push(d as u8));
                }
            }
            total_games = total_games + games;
            total_score = total_score + bsum;
            if bmax > highest_score {
                highest_score = bmax;
            }
            d = d + 1;
        }
        Ok(
            PlayerStats {
                player_id: pid,
                total_games,
                highest_score,
                total_score,
                difficulty_breakdown: breakdown,
            },
        )
    }

    /// Recomputes the content hash from the proof's record fields and
    /// compares it with the stored hash: true exactly when they agree.
    pub fn verify_proof(proof: &ScoreProof) -> (r: Result<bool, ScoreError>)
        ensures
            r == Ok::<bool, ScoreError>(spec_verify(*proof)),
    {
        let mut score_copy = proof.score_data.duplicate();
        score_copy.compute_proof_hash();
        Ok(proof.score_data.proof_hash == score_copy.proof_hash)
    }
}

/// Whether a proof's stored content hash re-derives from its own record
/// fields.
pub open spec fn spec_verify(p: ScoreProof) -> bool {
    p.score_data.proof_hash@ == p.score_data.expected_hash()
}

/// A freshly built proof always verifies: [`ScoreProof::new`] stores the
/// hash that [`ScoreManager::verify_proof`] re-derives, so checking a proof
/// straight from the builder answers true, for every record.
pub proof fn lemma_built_proof_verifies(p: ScoreProof)
    requires
        p.score_data.proof_hash@ == p.score_data.expected_hash(),
    ensures
        spec_verify(p),
{
}

/// How many entries of a bucket belong to a player.
pub open spec fn count_for(s: Seq<LeaderboardEntry>, pid: Seq<char>) -> int
    decreases s.len(),
{
    if s.len() == 0 {
        0
    } else {
        count_for(s.drop_last(), pid) + if s.last().player_id@ == pid {
            1int
        } else {
            0int
        }
    }
}

/// The sum of a player's scores in a bucket.
pub open spec fn sum_for(s: Seq<LeaderboardEntry>, pid: Seq<char>) -> int
    decreases s.len(),
{
    if s.len() == 0 {
        0
    } else {
        sum_for(s.drop_last(), pid) + if s.last().player_id@ == pid {
            s.last().score as int
        } else {
            0int
        }
    }
}

/// A player's highest score in a bucket, zero with no entries.
pub open spec fn max_for(s: Seq<LeaderboardEntry>, pid: Seq<char>) -> int
    decreases s.len(),
{
    if s.len() == 0 {
        0
    } else {
        let rest = max_for(s.drop_last(), pid);
        if s.last().player_id@ == pid && s.last().score > rest {
            s.last().score as int
        } else {
            rest
        }
    }
}

/// A player's entry count over the buckets strictly below `upto`.
pub open spec fn count_up_to(v: Seq<Seq<LeaderboardEntry>>, pid: Seq<char>, upto: int) -> int
    decreases upto,
{
    if upto <= 0 {
        0
    } else {
        count_up_to(v, pid, upto - 1) + count_for(v[upto - 1], pid)
    }
}

/// A player's score sum over the buckets strictly below `upto`.
pub open spec fn sum_up_to(v: Seq<Seq<LeaderboardEntry>>, pid: Seq<char>, upto: int) -> int
    decreases upto,
{
    if upto <= 0 {
        0
    } else {
        sum_up_to(v, pid, upto - 1) + sum_for(v[upto - 1], pid)
    }
}

/// A player's highest score over the buckets strictly below `upto`, zero
/// with no entries.
pub open spec fn max_up_to(v: Seq<Seq<LeaderboardEntry>>, pid: Seq<char>, upto: int) -> int
    decreases upto,
{
    if upto <= 0 {
        0
    } else {
        let rest = max_up_to(v, pid, upto - 1);
        let m = max_for(v[upto - 1], pid);
        if m > rest {
            m
        } else {
            rest
        }
    }
}

/// The difficulties strictly below `upto` in which the player has at least
/// one entry, in ascending order.
pub open spec fn breakdown_keys(v: Seq<Seq<LeaderboardEntry>>, pid: Seq<char>, upto: int) -> Seq<
    u8,
>
    decreases upto,
{
    if upto <= 0 {
        Seq::empty()
    } else if count_for(v[upto - 1], pid) > 0 {
        breakdown_keys(v, pid, upto - 1).push((upto - 1) as u8)
    } else {
        breakdown_keys(v, pid, upto - 1)
    }
}

/// The difficulty keys of a breakdown, in order.
pub open spec fn keys_of(s: Seq<(u8, DifficultyStats)>) -> Seq<u8> {
    s.map_values(|p: (u8, DifficultyStats)| p.0)
}

proof fn lemma_count_for_le_len(s: Seq<LeaderboardEntry>, pid: Seq<char>)
    ensures
        0 <= count_for(s, pid) <= s.len(),
    decreases s.len(),
{
    if s.len() > 0 {
        lemma_count_for_le_len(s.drop_last(), pid);
    }
}

proof fn lemma_sum_for_bound(s: Seq<LeaderboardEntry>, pid: Seq<char>)
    ensures
        0 <= sum_for(s, pid) <= s.len() * 0xffff_ffff,
    decreases s.len(),
{
    if s.len() > 0 {
        lemma_sum_for_bound(s.drop_last(), pid);
        assert(s.drop_last().len() * 0xffff_ffff + 0xffff_ffff == s.len() * 0xffff_ffff)
            by (nonlinear_arith)
            requires
                s.drop_last().len() + 1 == s.len(),
        ;
    }
}

proof fn lemma_max_for_bound(s: Seq<LeaderboardEntry>, pid: Seq<char>)
    ensures
        0 <= max_for(s, pid) <= 0xffff_ffff,
    decreases s.len(),
{
    if s.len() > 0 {
        lemma_max_for_bound(s.drop_last(), pid);
    }
}

proof fn lemma_count_up_to_bound(v: Seq<Seq<LeaderboardEntry>>, pid: Seq<char>, upto: int)
    ensures
        0 <= count_up_to(v, pid, upto) <= entries_up_to(v, upto),
    decreases upto,
{
    if upto > 0 {
        lemma_count_up_to_bound(v, pid, upto - 1);
        lemma_count_for_le_len(v[upto - 1], pid);
    }
}

proof fn lemma_sum_up_to_bound(v: Seq<Seq<LeaderboardEntry>>, pid: Seq<char>, upto: int)
    ensures
        0 <= sum_up_to(v, pid, upto) <= entries_up_to(v, upto) * 0xffff_ffff,
    decreases upto,
{
    if upto > 0 {
        lemma_sum_up_to_bound(v, pid, upto - 1);
        lemma_sum_for_bound(v[upto - 1], pid);
        assert(entries_up_to(v, upto - 1) * 0xffff_ffff + v[upto - 1].len() * 0xffff_ffff
            == entries_up_to(v, upto) * 0xffff_ffff) by (nonlinear_arith)
            requires
                entries_up_to(v, upto - 1) + v[upto - 1].len() == entries_up_to(v, upto),
        ;
    }
}

/// The session text a record derives from its score.
pub open spec fn spec_session_text(score: u32) -> Seq<char> {
    "session_"@ + dec_of(score as nat)
}

/// The content hash an accepted submission's record ends up with, given the
/// fixed protocol timestamp and the derived session text.
pub open spec fn spec_submission_hash(player: Seq<char>, score: u32, difficulty: u8) -> Seq<
    char,
> {
    spec_content_hash(player, score, FIXED_TIMESTAMP, spec_session_text(score), difficulty)
}

proof fn lemma_entries_up_to_zero(v: Seq<Seq<LeaderboardEntry>>, upto: int)
    requires
        forall|d: int| 0 <= d < v.len() ==> (#[trigger] v[d]).len() == 0,
        upto <= v.len(),
    ensures
        entries_up_to(v, upto) == 0,
    decreases upto,
{
    if upto > 0 {
        lemma_entries_up_to_zero(v, upto - 1);
    }
}

} // verus!

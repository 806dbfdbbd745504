//! Ranked per-category buckets of accepted entries.
//!
//! A bucket is always kept sorted by the ordering invariant: score
//! descending, then timestamp ascending on ties.  The order is re-derivable
//! from the entry fields alone; insertion order leaves no trace except among
//! entries whose score and timestamp both coincide.

use vstd::prelude::*;
use vstd::seq_lib::group_seq_properties;

verus! {

broadcast use group_seq_properties;

/// One accepted record, as the store keeps it.
pub struct LeaderboardEntry {
    pub player_id: String,
    pub score: u32,
    pub difficulty: u8,
    pub timestamp: i64,
    pub proof_hash: String,
}

impl LeaderboardEntry {
    /// An exact copy of this entry, field by field.
    pub fn duplicate(&self) -> (r: LeaderboardEntry)
        ensures
            r == *self,
    {
        LeaderboardEntry {
            player_id: self.player_id.clone(),
            score: self.score,
            difficulty: self.difficulty,
            timestamp: self.timestamp,
            proof_hash: self.proof_hash.clone(),
        }
    }
}

/// `a` ranks at or above `b`: a higher score, or an equal score and a
/// timestamp no later.
pub open spec fn ranks_no_lower(a: LeaderboardEntry, b: LeaderboardEntry) -> bool {
    a.score > b.score || (a.score == b.score && a.timestamp <= b.timestamp)
}

/// A new entry with this score and timestamp strictly outranks `e`.
pub open spec fn outranks(score: u32, timestamp: i64, e: LeaderboardEntry) -> bool {
    score > e.score || (score == e.score && timestamp < e.timestamp)
}

/// The bucket ordering invariant: score descending, timestamp ascending on
/// ties.
pub open spec fn bucket_sorted(s: Seq<LeaderboardEntry>) -> bool {
    forall|i: int, j: int| 0 <= i < j < s.len() ==> ranks_no_lower(s[i], s[j])
}

/// No two entries of the bucket share a content hash.
pub open spec fn hashes_unique(s: Seq<LeaderboardEntry>) -> bool {
    forall|i: int, j: int| 0 <= i < j < s.len() ==> s[i].proof_hash@ != s[j].proof_hash@
}

/// Some entry of the bucket carries this content hash.
pub open spec fn bucket_has_hash(s: Seq<LeaderboardEntry>, h: Seq<char>) -> bool {
    exists|i: int| 0 <= i < s.len() && s[i].proof_hash@ == h
}

/// The index a new entry lands at: just before the first entry it strictly
/// outranks, hence after every entry that ties with it exactly.
pub open spec fn insert_pos(s: Seq<LeaderboardEntry>, score: u32, timestamp: i64) -> int
    decreases s.len(),
{
    if s.len() == 0 {
        0
    } else if outranks(score, timestamp, s[0]) {
        0
    } else {
        1 + insert_pos(s.drop_first(), score, timestamp)
    }
}

/// The insertion index is in bounds, nothing before it is outranked by the
/// new entry, and the entry at it (if any) is.
pub proof fn lemma_insert_pos_properties(s: Seq<LeaderboardEntry>, score: u32, timestamp: i64)
    ensures
        0 <= insert_pos(s, score, timestamp) <= s.len(),
        forall|j: int|
            0 <= j < insert_pos(s, score, timestamp) ==> !outranks(score, timestamp, s[j]),
        insert_pos(s, score, timestamp) < s.len() ==> outranks(
            score,
            timestamp,
            s[insert_pos(s, score, timestamp)],
        ),
    decreases s.len(),
{
    if s.len() == 0 {
    } else if outranks(score, timestamp, s[0]) {
    } else {
        lemma_insert_pos_properties(s.drop_first(), score, timestamp);
        let k = insert_pos(s, score, timestamp);
        assert forall|j: int| 0 <= j < k implies !outranks(score, timestamp, s[j]) by {
            if j > 0 {
                assert(s.drop_first()[j - 1] == s[j]);
            }
        }
        if k < s.len() {
            assert(s.drop_first()[k - 1] == s[k]);
        }
    }
}

/// Only one index satisfies the insertion-point characterization.
pub proof fn lemma_insert_pos_unique(s: Seq<LeaderboardEntry>, score: u32, timestamp: i64, k: int)
    requires
        0 <= k <= s.len(),
        forall|j: int| 0 <= j < k ==> !outranks(score, timestamp, s[j]),
        k < s.len() ==> outranks(score, timestamp, s[k]),
    ensures
        k == insert_pos(s, score, timestamp),
    decreases s.len(),
{
    if s.len() == 0 {
    } else if outranks(score, timestamp, s[0]) {
        if k > 0 {
            assert(!outranks(score, timestamp, s[0]));
        }
    } else {
        assert(k > 0);
        assert forall|j: int| 0 <= j < k - 1 implies !outranks(
            score,
            timestamp,
            s.drop_first()[j],
        ) by {
            assert(s.drop_first()[j] == s[j + 1]);
        }
        if k - 1 < s.drop_first().len() {
            assert(s.drop_first()[k - 1] == s[k]);
        }
        lemma_insert_pos_unique(s.drop_first(), score, timestamp, k - 1);
    }
}

/// Inserting an entry at its insertion index keeps the bucket sorted.
pub proof fn lemma_insert_preserves_sorted(s: Seq<LeaderboardEntry>, e: LeaderboardEntry)
    requires
        bucket_sorted(s),
    ensures
        bucket_sorted(s.insert(insert_pos(s, e.score, e.timestamp), e)),
{
    let k = insert_pos(s, e.score, e.timestamp);
    lemma_insert_pos_properties(s, e.score, e.timestamp);
    s.insert_ensures(k, e);
    let t = s.insert(k, e);
    assert forall|i: int, j: int| 0 <= i < j < t.len() implies ranks_no_lower(t[i], t[j]) by {
        if i < k && j < k {
            assert(t[i] == s[i] && t[j] == s[j]);
        } else if i < k && j == k {
            assert(t[i] == s[i] && t[j] == e);
        } else if i < k && j > k {
            assert(t[i] == s[i] && t[j] == s[j - 1]);
        } else if i == k {
            assert(t[i] == e && t[j] == s[j - 1]);
            assert(outranks(e.score, e.timestamp, s[k]));
            if j - 1 > k {
                assert(ranks_no_lower(s[k], s[j - 1]));
            }
        } else {
            assert(t[i] == s[i - 1] && t[j] == s[j - 1]);
        }
    }
}

/// Inserting an unseen content hash keeps the bucket's hashes unique.
pub proof fn lemma_insert_preserves_unique_hashes(
    s: Seq<LeaderboardEntry>,
    e: LeaderboardEntry,
    k: int,
)
    requires
        hashes_unique(s),
        !bucket_has_hash(s, e.proof_hash@),
        0 <= k <= s.len(),
    ensures
        hashes_unique(s.insert(k, e)),
{
    s.insert_ensures(k, e);
    let t = s.insert(k, e);
    assert forall|i: int, j: int| 0 <= i < j < t.len() implies t[i].proof_hash@
        != t[j].proof_hash@ by {
        if i < k && j < k {
            assert(t[i] == s[i] && t[j] == s[j]);
        } else if i < k && j == k {
            assert(t[i] == s[i] && t[j] == e);
        } else if i < k && j > k {
            assert(t[i] == s[i] && t[j] == s[j - 1]);
        } else if i == k {
            assert(t[i] == e && t[j] == s[j - 1]);
        } else {
            assert(t[i] == s[i - 1] && t[j] == s[j - 1]);
        }
    }
}

fn outranks_exec(score: u32, timestamp: i64, e: &LeaderboardEntry) -> (r: bool)
    ensures
        r == outranks(score, timestamp, *e),
{
    score > e.score || (score == e.score && timestamp < e.timestamp)
}

/// Whether some entry of the bucket already carries this content hash.
pub fn bucket_contains_hash(bucket: &Vec<LeaderboardEntry>, hash: &String) -> (r: bool)
    ensures
        r == bucket_has_hash(bucket@, hash@),
{
    let mut i: usize = 0;
    while i < bucket.len()
        invariant
            i <= bucket@.len(),
            forall|j: int| 0 <= j < i ==> bucket@[j].proof_hash@ != hash@,
        decreases bucket@.len() - i,
    {
        if bucket[i].proof_hash == *hash {
            return true;
        }
        i = i + 1;
    }
    false
}

/// Inserts an entry at its rank in a sorted bucket and returns that rank,
/// one-indexed.  Entries tying on both score and timestamp keep their place;
/// the new one goes after them.
pub fn bucket_insert(bucket: &mut Vec<LeaderboardEntry>, entry: LeaderboardEntry) -> (rank: usize)
    requires
        bucket_sorted(old(bucket)@),
        old(bucket)@.len() < usize::MAX,
    ensures
        1 <= rank <= final(bucket)@.len(),
        rank - 1 == insert_pos(old(bucket)@, entry.score, entry.timestamp),
        final(bucket)@ == old(bucket)@.insert(rank - 1, entry),
        final(bucket)@.len() == old(bucket)@.len() + 1,
        bucket_sorted(final(bucket)@),
{
    proof {
        lemma_insert_pos_properties(bucket@, entry.score, entry.timestamp);
    }
    let ghost orig = bucket@;
    let mut i: usize = 0;
    while i < bucket.len() && !outranks_exec(entry.score, entry.timestamp, &bucket[i])
        invariant
            i <= bucket@.len(),
            bucket@ == orig,
            forall|j: int| 0 <= j < i ==> !outranks(entry.score, entry.timestamp, orig[j]),
        decreases bucket@.len() - i,
    {
        i = i + 1;
    }
    proof {
        lemma_insert_pos_unique(orig, entry.score, entry.timestamp, i as int);
        lemma_insert_preserves_sorted(orig, entry);
    }
    bucket.insert(i, entry);
    i + 1
}

/// The ranked order of a bucket is a function of its entries alone: two
/// sorted buckets holding the same entries, no two of which tie on both
/// score and timestamp, are identical.  In particular, inserting the same
/// entries in any order yields the same ranking.
pub proof fn lemma_sorted_order_canonical(a: Seq<LeaderboardEntry>, b: Seq<LeaderboardEntry>)
    requires
        bucket_sorted(a),
        bucket_sorted(b),
        a.to_multiset() == b.to_multiset(),
        forall|i: int, j: int|
            0 <= i < j < a.len() ==> !(a[i].score == a[j].score && a[i].timestamp
                == a[j].timestamp),
    ensures
        a == b,
    decreases a.len(),
{
    broadcast use vstd::seq_lib::group_to_multiset_ensures;

    assert(a.len() == a.to_multiset().len());
    assert(b.len() == b.to_multiset().len());
    if a.len() == 0 {
        assert(a =~= b);
    } else {
        assert(a.contains(a[0]));
        assert(b.to_multiset().count(a[0]) > 0);
        assert(b.contains(a[0]));
        let ia = choose|ia: int| 0 <= ia < b.len() && b[ia] == a[0];
        assert(a.to_multiset().count(b[0]) > 0);
        assert(a.contains(b[0]));
        let ja = choose|ja: int| 0 <= ja < a.len() && a[ja] == b[0];
        if ia > 0 {
            assert(ranks_no_lower(b[0], b[ia]));
        }
        if ja > 0 {
            assert(ranks_no_lower(a[0], a[ja]));
        }
        assert(a[0].score == b[0].score && a[0].timestamp == b[0].timestamp);
        if ja > 0 {
            assert(a[0].score == a[ja].score && a[0].timestamp == a[ja].timestamp);
            assert(false);
        }
        assert(a[0] == b[0]);

        let a1 = a.drop_first();
        let b1 = b.drop_first();
        assert(a.remove(0) =~= a1);
        assert(b.remove(0) =~= b1);
        assert(a1.to_multiset() == a.to_multiset().remove(a[0]));
        assert(b1.to_multiset() == b.to_multiset().remove(b[0]));
        assert forall|i: int, j: int| 0 <= i < j < a1.len() implies !(a1[i].score == a1[j].score
            && a1[i].timestamp == a1[j].timestamp) by {
            assert(a1[i] == a[i + 1] && a1[j] == a[j + 1]);
        }
        assert forall|i: int, j: int| 0 <= i < j < a1.len() implies ranks_no_lower(
            a1[i],
            a1[j],
        ) by {
            assert(a1[i] == a[i + 1] && a1[j] == a[j + 1]);
        }
        assert forall|i: int, j: int| 0 <= i < j < b1.len() implies ranks_no_lower(
            b1[i],
            b1[j],
        ) by {
            assert(b1[i] == b[i + 1] && b1[j] == b[j + 1]);
        }
        lemma_sorted_order_canonical(a1, b1);
        assert(a =~= b);
    }
}

/// The sole entry of an empty bucket is ranked first.
pub proof fn lemma_rank_in_empty_bucket(score: u32, timestamp: i64)
    ensures
        insert_pos(Seq::<LeaderboardEntry>::empty(), score, timestamp) == 0,
{
}

/// An entry scoring strictly above every entry of the bucket is ranked
/// first.
pub proof fn lemma_rank_of_top_score(s: Seq<LeaderboardEntry>, score: u32, timestamp: i64)
    requires
        forall|j: int| 0 <= j < s.len() ==> score > s[j].score,
    ensures
        insert_pos(s, score, timestamp) == 0,
{
    if s.len() > 0 {
        assert(outranks(score, timestamp, s[0]));
    }
}

/// An entry scoring strictly below every entry of the bucket is ranked
/// last: its one-indexed rank is the new entry count of the bucket.
pub proof fn lemma_rank_of_bottom_score(s: Seq<LeaderboardEntry>, score: u32, timestamp: i64)
    requires
        forall|j: int| 0 <= j < s.len() ==> score < s[j].score,
    ensures
        insert_pos(s, score, timestamp) == s.len(),
    decreases s.len(),
{
    if s.len() > 0 {
        assert(!outranks(score, timestamp, s[0]));
        assert forall|j: int| 0 <= j < s.drop_first().len() implies score
            < s.drop_first()[j].score by {
            assert(s.drop_first()[j] == s[j + 1]);
        }
        lemma_rank_of_bottom_score(s.drop_first(), score, timestamp);
    }
}

/// Up to `limit` entries from the front of a bucket, in ranked order.
pub fn bucket_top(bucket: &Vec<LeaderboardEntry>, limit: usize) -> (r: Vec<LeaderboardEntry>)
    ensures
        r@ == bucket@.take(if limit < bucket@.len() {
            limit as int
        } else {
            bucket@.len() as int
        }),
{
    let n = if limit < bucket.len() {
        limit
    } else {
        bucket.len()
    };
    let mut out: Vec<LeaderboardEntry> = Vec::new();
    let mut i: usize = 0;
    while i < n
        invariant
            i <= n <= bucket@.len(),
            out@ == bucket@.take(i as int),
        decreases n - i,
    {
        out.push(bucket[i].duplicate());
        proof {
            assert(bucket@.take(i + 1) =~= bucket@.take(i as int).push(bucket@[i as int]));
        }
        i = i + 1;
    }
    out
}

/// Merges every entry of `bucket` into the sorted sequence `all`, keeping
/// it sorted.  The result holds exactly the entries of both.
pub fn merge_bucket(all: &mut Vec<LeaderboardEntry>, bucket: &Vec<LeaderboardEntry>)
    requires
        bucket_sorted(old(all)@),
        old(all)@.len() + bucket@.len() <= usize::MAX,
    ensures
        bucket_sorted(final(all)@),
        final(all)@.to_multiset() == old(all)@.to_multiset().add(bucket@.to_multiset()),
        final(all)@.len() == old(all)@.len() + bucket@.len(),
{
    broadcast use vstd::multiset::group_multiset_axioms;
    broadcast use vstd::seq_lib::group_to_multiset_ensures;

    let ghost base = old(all)@;
    let mut i: usize = 0;
    while i < bucket.len()
        invariant
            i <= bucket@.len(),
            bucket_sorted(all@),
            all@.len() == base.len() + i,
            base.len() + bucket@.len() <= usize::MAX,
            all@.to_multiset() == base.to_multiset().add(bucket@.take(i as int).to_multiset()),
        decreases bucket@.len() - i,
    {
        let ghost prev = all@;
        let entry = bucket[i].duplicate();
        let ghost e = entry;
        let rank = bucket_insert(all, entry);
        proof {
            vstd::seq_lib::to_multiset_insert(prev, rank - 1, e);
            assert(bucket@.take(i + 1) =~= bucket@.take(i as int).push(bucket@[i as int]));
            assert(all@.to_multiset() =~= base.to_multiset().add(
                bucket@.take(i + 1).to_multiset(),
            ));
        }
        i = i + 1;
    }
    proof {
        assert(bucket@.take(bucket@.len() as int) =~= bucket@);
    }
}

/// A prefix of a sorted bucket is sorted.
pub proof fn lemma_sorted_prefix(s: Seq<LeaderboardEntry>, n: int)
    requires
        bucket_sorted(s),
        0 <= n <= s.len(),
    ensures
        bucket_sorted(s.take(n)),
{
    assert forall|i: int, j: int| 0 <= i < j < s.take(n).len() implies ranks_no_lower(
        s.take(n)[i],
        s.take(n)[j],
    ) by {
        assert(s.take(n)[i] == s[i] && s.take(n)[j] == s[j]);
    }
}

} // verus!

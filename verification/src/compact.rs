//! Compaction of conversation history.
use vstd::prelude::*;

verus! {

#[verifier::external_type_specification]
#[verifier::external_body]
pub struct ExAnyhowError(anyhow::Error);

/// A message representation used by the compaction layer.
#[derive(Clone, Debug)]
pub struct CompactMessage {
    pub role: String,
    pub content: String,
    /// Estimated token count for this message.
    pub token_estimate: usize,
}

/// Output of a compaction pass.
#[derive(Clone, Debug)]
pub struct CompactResult {
    pub messages: Vec<CompactMessage>,
    pub removed_count: usize,
    pub tokens_saved: usize,
}

/// The estimated tokens of a sequence of messages.
pub open spec fn total_tokens(ms: Seq<CompactMessage>) -> nat
    decreases ms.len(),
{
    if ms.len() == 0 {
        0
    } else {
        total_tokens(ms.drop_last()) + ms.last().token_estimate as nat
    }
}

/// A pluggable strategy for compressing conversation history.
pub trait CompactStrategy: Send + Sync {
    fn compact(&self, messages: Vec<CompactMessage>, budget: usize) -> Result<CompactResult, anyhow::Error>
        requires
            total_tokens(messages@) <= usize::MAX,
    ;
}

/// The number of oldest messages that must go for the rest of `ms` to fit
/// `budget`: none when it fits, else one more than for the history without
/// its oldest message.
pub open spec fn drop_count(ms: Seq<CompactMessage>, budget: int) -> nat
    decreases ms.len(),
{
    if ms.len() == 0 || total_tokens(ms) <= budget {
        0
    } else {
        1 + drop_count(ms.drop_first(), budget)
    }
}

/// What truncation makes of a history: the oldest messages are dropped until
/// the rest fits the budget. The result is the kept messages, the number
/// dropped and the tokens dropped.
pub open spec fn truncation(ms: Seq<CompactMessage>, budget: int) -> (Seq<CompactMessage>, nat, nat) {
    let k = drop_count(ms, budget);
    (ms.skip(k as int), k, total_tokens(ms.take(k as int)))
}

/// The tokens of two histories joined are the sum of their tokens.
pub proof fn lemma_total_concat(a: Seq<CompactMessage>, b: Seq<CompactMessage>)
    ensures
        total_tokens(a + b) == total_tokens(a) + total_tokens(b),
    decreases b.len(),
{
    if b.len() == 0 {
        assert(a + b =~= a);
    } else {
        lemma_total_concat(a, b.drop_last());
        assert((a + b).drop_last() =~= a + b.drop_last());
    }
}

/// The tokens of a history are those of its first `k` messages plus those of
/// the rest.
pub proof fn lemma_total_split(ms: Seq<CompactMessage>, k: int)
    requires
        0 <= k <= ms.len(),
    ensures
        total_tokens(ms) == total_tokens(ms.take(k)) + total_tokens(ms.skip(k)),
{
    lemma_total_concat(ms.take(k), ms.skip(k));
    assert(ms.take(k) + ms.skip(k) =~= ms);
}

/// The tokens of a non-empty history are its oldest message's plus the rest's.
proof fn lemma_total_first(ms: Seq<CompactMessage>)
    requires
        ms.len() > 0,
    ensures
        total_tokens(ms) == ms[0].token_estimate + total_tokens(ms.drop_first()),
{
    lemma_total_split(ms, 1);
    assert(ms.take(1).drop_last() =~= Seq::<CompactMessage>::empty());
    assert(total_tokens(Seq::<CompactMessage>::empty()) == 0);
    assert(ms.take(1).last() == ms[0]);
    assert(total_tokens(ms.take(1)) == ms[0].token_estimate);
    assert(ms.skip(1) =~= ms.drop_first());
}

/// [`drop_count`] is the least number of oldest messages whose removal makes
/// the rest fit.
pub proof fn lemma_drop_count(ms: Seq<CompactMessage>, budget: int)
    requires
        budget >= 0,
    ensures
        drop_count(ms, budget) <= ms.len(),
        total_tokens(ms.skip(drop_count(ms, budget) as int)) <= budget,
        forall|j: int| 0 <= j < drop_count(ms, budget) ==> total_tokens(#[trigger] ms.skip(j)) > budget,
    decreases ms.len(),
{
    if ms.len() == 0 || total_tokens(ms) <= budget {
        assert(ms.skip(0) =~= ms);
    } else {
        let rest = ms.drop_first();
        lemma_drop_count(rest, budget);
        let d = drop_count(rest, budget);
        assert(ms.skip(d + 1int) =~= rest.skip(d as int));
        assert forall|j: int| 0 <= j < d + 1 implies total_tokens(#[trigger] ms.skip(j)) > budget by {
            if j == 0 {
                assert(ms.skip(0) =~= ms);
            } else {
                assert(ms.skip(j) =~= rest.skip(j - 1));
            }
        }
    }
}

/// Truncation leaves a history within the budget, drops exactly the messages
/// and tokens it reports, and changes nothing when the history already fits.
pub proof fn lemma_truncation_within_budget(ms: Seq<CompactMessage>, budget: int)
    requires
        budget >= 0,
    ensures
        total_tokens(truncation(ms, budget).0) <= budget,
        truncation(ms, budget).0.len() + truncation(ms, budget).1 == ms.len(),
        total_tokens(truncation(ms, budget).0) + truncation(ms, budget).2 == total_tokens(ms),
        total_tokens(ms) <= budget ==> truncation(ms, budget) == (ms, 0nat, 0nat),
{
    lemma_drop_count(ms, budget);
    let k = drop_count(ms, budget) as int;
    lemma_total_split(ms, k);
    if total_tokens(ms) <= budget {
        assert(ms.skip(0) =~= ms);
        assert(ms.take(0) =~= Seq::<CompactMessage>::empty());
    }
}

/// Truncation drops the fewest oldest messages it can: the kept messages are
/// the newest ones, in order, and keeping one more of the dropped ones would
/// not fit the budget.
pub proof fn lemma_truncation_drops_fewest(ms: Seq<CompactMessage>, budget: int)
    requires
        budget >= 0,
    ensures
        truncation(ms, budget).0 == ms.subrange(truncation(ms, budget).1 as int, ms.len() as int),
        truncation(ms, budget).1 > 0 ==> total_tokens(ms.skip(truncation(ms, budget).1 - 1)) > budget,
{
    lemma_drop_count(ms, budget);
    let k = drop_count(ms, budget) as int;
    assert(ms.skip(k) =~= ms.subrange(k, ms.len() as int));
    if k > 0 {
        assert(total_tokens(ms.skip(k - 1)) > budget);
    }
}

/// Truncating an already truncated history with the same budget changes nothing.
pub proof fn lemma_truncation_idempotent(ms: Seq<CompactMessage>, budget: int)
    requires
        budget >= 0,
    ensures
        truncation(truncation(ms, budget).0, budget) == (truncation(ms, budget).0, 0nat, 0nat),
{
    lemma_truncation_within_budget(ms, budget);
    lemma_truncation_within_budget(truncation(ms, budget).0, budget);
}

/// When the history is over budget, the newest message is kept whenever it
/// fits the budget on its own.
pub proof fn lemma_truncation_keeps_newest(ms: Seq<CompactMessage>, budget: int)
    requires
        ms.len() > 0,
        0 <= ms.last().token_estimate <= budget,
    ensures
        truncation(ms, budget).0.len() > 0,
        truncation(ms, budget).0.last() == ms.last(),
{
    lemma_drop_count(ms, budget);
    let k = drop_count(ms, budget) as int;
    if k == ms.len() {
        let j = ms.len() - 1;
        assert(total_tokens(ms.skip(j)) > budget);
        assert(ms.skip(j).drop_last() =~= Seq::<CompactMessage>::empty());
        assert(total_tokens(Seq::<CompactMessage>::empty()) == 0);
        assert(ms.skip(j).last() == ms.last());
        assert(false);
    }
    assert(ms.skip(k).last() == ms.last());
}

proof fn lemma_total_prefix(ms: Seq<CompactMessage>, i: int)
    requires
        0 <= i <= ms.len(),
    ensures
        total_tokens(ms.take(i)) <= total_tokens(ms),
    decreases ms.len() - i,
{
    if i < ms.len() {
        lemma_total_prefix(ms, i + 1);
        assert(ms.take(i + 1).drop_last() =~= ms.take(i));
    } else {
        assert(ms.take(i) =~= ms);
    }
}

/// Simplest strategy: drop oldest messages until under budget.
pub struct TruncateStrategy;

impl TruncateStrategy {
    /// Truncates `messages` to `budget` (see [`truncation`]).
    pub fn truncate(messages: Vec<CompactMessage>, budget: usize) -> (r: CompactResult)
        requires
            total_tokens(messages@) <= usize::MAX,
        ensures
            (r.messages@, r.removed_count as nat, r.tokens_saved as nat) == truncation(messages@, budget as int),
    {
        let ghost ms = messages@;
        let mut total: usize = 0;
        let mut i: usize = 0;
        while i < messages.len()
            invariant
                ms == messages@,
                total_tokens(ms) <= usize::MAX,
                i <= ms.len(),
                total as nat == total_tokens(ms.take(i as int)),
            decreases ms.len() - i,
        {
            proof {
                assert(ms.take(i + 1).drop_last() =~= ms.take(i as int));
                lemma_total_prefix(ms, i + 1);
            }
            total = total + messages[i].token_estimate;
            i = i + 1;
        }
        proof {
            assert(ms.take(ms.len() as int) =~= ms);
        }
        let len = messages.len();
        let mut k: usize = 0;
        let mut remaining: usize = total;
        proof {
            assert(ms.skip(0) =~= ms);
        }
        while remaining > budget
            invariant
                ms == messages@,
                len == ms.len(),
                k <= ms.len(),
                remaining as nat == total_tokens(ms.skip(k as int)),
                drop_count(ms, budget as int) == k + drop_count(ms.skip(k as int), budget as int),
            decreases ms.len() - k,
        {
            let ghost rest = ms.skip(k as int);
            proof {
                assert(k < ms.len()) by {
                    if k == ms.len() {
                        assert(rest =~= Seq::<CompactMessage>::empty());
                    }
                }
                lemma_total_first(rest);
                assert(rest.drop_first() =~= ms.skip(k + 1));
                assert(rest[0] == ms[k as int]);
            }
            remaining = remaining - messages[k].token_estimate;
            k = k + 1;
        }
        proof {
            lemma_total_split(ms, k as int);
        }
        let saved = total - remaining;
        let mut messages = messages;
        let kept = messages.split_off(k);
        proof {
            assert(kept@ =~= ms.skip(k as int));
        }
        CompactResult { messages: kept, removed_count: k, tokens_saved: saved }
    }
}

impl CompactStrategy for TruncateStrategy {
    fn compact(&self, messages: Vec<CompactMessage>, budget: usize) -> (r: Result<CompactResult, anyhow::Error>)
        ensures
            r matches Ok(res) && (res.messages@, res.removed_count as nat, res.tokens_saved as nat)
                == truncation(messages@, budget as int),
    {
        Ok(TruncateStrategy::truncate(messages, budget))
    }
}

} // verus!

//! The report builder: filtering by type and minimum count, sorting by
//! descending message count, and truncating to an optional limit.

use vstd::prelude::*;
use crate::model::{Conversation, ConversationType};

verus! {

/// Whether a conversation survives the filters: at least the minimum count,
/// and of the requested kind where one is requested.
pub open spec fn spec_keep(
    c: Conversation,
    ctype: Option<ConversationType>,
    min_messages: int,
) -> bool {
    &&& c.spec_message_count() >= min_messages
    &&& match ctype {
        Some(ConversationType::Dm) => c is DmOrGc,
        Some(ConversationType::Guild) => c is Guild,
        None => true,
    }
}

/// The conversations that survive the filters, in their incoming order.
pub open spec fn spec_filter(
    convs: Seq<Conversation>,
    ctype: Option<ConversationType>,
    min_messages: int,
) -> Seq<Conversation> {
    convs.filter(|c: Conversation| spec_keep(c, ctype, min_messages))
}

/// Message counts never increase along the sequence.
pub open spec fn sorted_desc(s: Seq<Conversation>) -> bool {
    forall|i: int, j: int|
        0 <= i < j < s.len() ==> s[i].spec_message_count() >= s[j].spec_message_count()
}

/// Insertion into a sorted sequence: the new conversation goes after every
/// entry with at least its count, so entries of equal count keep their
/// incoming order.
pub open spec fn spec_insert_desc(s: Seq<Conversation>, c: Conversation) -> Seq<Conversation>
    decreases s.len(),
{
    if s.len() == 0 {
        seq![c]
    } else if s[0].spec_message_count() < c.spec_message_count() {
        seq![c] + s
    } else {
        seq![s[0]] + spec_insert_desc(s.drop_first(), c)
    }
}

/// Where the insertion lands: the first position whose entry counts less.
pub open spec fn insert_pos(s: Seq<Conversation>, c: Conversation) -> int
    decreases s.len(),
{
    if s.len() == 0 {
        0
    } else if s[0].spec_message_count() < c.spec_message_count() {
        0
    } else {
        1 + insert_pos(s.drop_first(), c)
    }
}

/// The stable sort by descending message count, folding from the left.
pub open spec fn spec_sort_desc(s: Seq<Conversation>) -> Seq<Conversation>
    decreases s.len(),
{
    if s.len() == 0 {
        Seq::empty()
    } else {
        spec_insert_desc(spec_sort_desc(s.drop_last()), s.last())
    }
}

proof fn lemma_insert_desc_shape(s: Seq<Conversation>, c: Conversation)
    ensures
        0 <= insert_pos(s, c) <= s.len(),
        forall|j: int|
            0 <= j < insert_pos(s, c) ==> s[j].spec_message_count() >= c.spec_message_count(),
        insert_pos(s, c) < s.len() ==> s[insert_pos(s, c)].spec_message_count()
            < c.spec_message_count(),
        spec_insert_desc(s, c) == s.insert(insert_pos(s, c), c),
    decreases s.len(),
{
    if s.len() == 0 {
        assert(seq![c] =~= s.insert(0, c));
    } else if s[0].spec_message_count() < c.spec_message_count() {
        assert(seq![c] + s =~= s.insert(0, c));
    } else {
        let d = s.drop_first();
        lemma_insert_desc_shape(d, c);
        let pos = insert_pos(s, c);
        assert(pos == 1 + insert_pos(d, c));
        assert forall|j: int|
            0 <= j < pos implies s[j].spec_message_count() >= c.spec_message_count() by {
            if j > 0 {
                assert(d[j - 1] == s[j]);
            }
        };
        assert(seq![s[0]] + spec_insert_desc(d, c) =~= s.insert(pos, c));
    }
}

/// What one insertion does: the result is sorted, one longer, and holds
/// exactly the old entries plus the new one.
pub proof fn lemma_insert_desc_props(s: Seq<Conversation>, c: Conversation)
    requires
        sorted_desc(s),
    ensures
        sorted_desc(spec_insert_desc(s, c)),
        spec_insert_desc(s, c).len() == s.len() + 1,
        spec_insert_desc(s, c).to_multiset() == s.to_multiset().insert(c),
{
    lemma_insert_desc_shape(s, c);
    let pos = insert_pos(s, c);
    let r = spec_insert_desc(s, c);
    s.insert_ensures(pos, c);
    vstd::seq_lib::to_multiset_insert(s, pos, c);
    assert(r.to_multiset() =~= s.to_multiset().insert(c));
    assert forall|i: int, j: int|
        0 <= i < j < r.len() implies r[i].spec_message_count() >= r[j].spec_message_count() by {
        if i < pos {
            assert(r[i] == s[i]);
        } else if i == pos {
            assert(r[i] == c);
        } else {
            assert(r[i] == s[i - 1]);
        }
        if j < pos {
            assert(r[j] == s[j]);
        } else if j == pos {
            assert(r[j] == c);
        } else {
            assert(r[j] == s[j - 1]);
        }
    };
}

/// What the sort does: the result is sorted by descending count and holds
/// exactly the incoming conversations.
pub proof fn lemma_sort_desc_props(s: Seq<Conversation>)
    ensures
        sorted_desc(spec_sort_desc(s)),
        spec_sort_desc(s).len() == s.len(),
        spec_sort_desc(s).to_multiset() == s.to_multiset(),
    decreases s.len(),
{
    broadcast use vstd::seq_lib::group_to_multiset_ensures;

    if s.len() > 0 {
        lemma_sort_desc_props(s.drop_last());
        lemma_insert_desc_props(spec_sort_desc(s.drop_last()), s.last());
        assert(s.drop_last().push(s.last()) =~= s);
        assert(s.drop_last().push(s.last()).to_multiset() == s.drop_last().to_multiset().insert(
            s.last(),
        ));
    }
}

fn keep(c: &Conversation, conversation_type: &Option<ConversationType>, min_messages: usize) -> (r:
    bool)
    ensures
        r == spec_keep(*c, *conversation_type, min_messages as int),
{
    if c.message_count() < min_messages {
        return false;
    }
    match conversation_type {
        Some(ConversationType::Dm) => c matches Conversation::DmOrGc { .. },
        Some(ConversationType::Guild) => c matches Conversation::Guild { .. },
        None => true,
    }
}

fn sort_conversations(convs: Vec<Conversation>) -> (r: Vec<Conversation>)
    ensures
        r@ == spec_sort_desc(convs@),
{
    let ghost orig = convs@;
    let mut src = convs;
    let mut result: Vec<Conversation> = Vec::new();
    let ghost mut k: int = 0;
    while src.len() > 0
        invariant
            0 <= k <= orig.len(),
            src@ == orig.skip(k),
            result@ == spec_sort_desc(orig.take(k)),
            sorted_desc(result@),
        decreases src@.len(),
    {
        let c = src.remove(0);
        proof {
            assert(c == orig.skip(k)[0]);
            assert(c == orig[k]);
        }
        let ccount = c.message_count();
        let mut idx: usize = 0;
        while idx < result.len() && result[idx].message_count() >= ccount
            invariant
                idx <= result@.len(),
                ccount as int == c.spec_message_count(),
                forall|j: int|
                    0 <= j < idx ==> (#[trigger] result@[j]).spec_message_count()
                        >= c.spec_message_count(),
            decreases result@.len() - idx,
        {
            idx = idx + 1;
        }
        proof {
            lemma_insert_desc_shape(result@, c);
            let pos = insert_pos(result@, c);
            if pos < idx as int {
                assert(result@[pos].spec_message_count() >= c.spec_message_count());
                assert(result@[pos].spec_message_count() < c.spec_message_count());
            }
            if (idx as int) < pos {
                assert(result@[idx as int].spec_message_count() >= c.spec_message_count());
            }
            assert(pos == idx as int);
        }
        result.insert(idx, c);
        proof {
            lemma_insert_desc_props(spec_sort_desc(orig.take(k)), c);
            assert(orig.take(k + 1).drop_last() =~= orig.take(k));
            assert(orig.take(k + 1).last() == orig[k]);
            assert(result@ == spec_sort_desc(orig.take(k + 1)));
            k = k + 1;
            assert(src@ =~= orig.skip(k));
        }
    }
    proof {
        assert(orig.take(k) =~= orig);
    }
    result
}

/// The finished report: the filters applied, the survivors sorted by
/// descending message count, and at most `limit` leading entries kept where a
/// limit is set.
pub open spec fn spec_report(
    convs: Seq<Conversation>,
    ctype: Option<ConversationType>,
    min_messages: int,
    limit: Option<usize>,
) -> Seq<Conversation> {
    let sorted = spec_sort_desc(spec_filter(convs, ctype, min_messages));
    match limit {
        Some(l) => if l < sorted.len() {
            sorted.take(l as int)
        } else {
            sorted
        },
        None => sorted,
    }
}

/// Builds the report: filter, sort descending by message count (stable, so
/// equal counts keep their scan order and reruns reproduce the same output),
/// then truncate to the limit where one is set.
pub fn filter_and_sort_conversations(
    conversations: Vec<Conversation>,
    conversation_type: &Option<ConversationType>,
    min_messages: usize,
    limit: Option<usize>,
) -> (r: Vec<Conversation>)
    ensures
        r@ == spec_report(conversations@, *conversation_type, min_messages as int, limit),
{
    let ghost orig = conversations@;
    let ghost pred = |c: Conversation|
        spec_keep(c, *conversation_type, min_messages as int);
    let mut src = conversations;
    let mut kept: Vec<Conversation> = Vec::new();
    let ghost mut k: int = 0;
    proof {
        reveal(Seq::filter);
        assert(orig.take(0) =~= Seq::<Conversation>::empty());
    }
    while src.len() > 0
        invariant
            0 <= k <= orig.len(),
            src@ == orig.skip(k),
            kept@ == orig.take(k).filter(pred),
            pred == (|c: Conversation| spec_keep(c, *conversation_type, min_messages as int)),
        decreases src@.len(),
    {
        let c = src.remove(0);
        proof {
            assert(c == orig.skip(k)[0]);
            assert(c == orig[k]);
            assert(orig.take(k + 1).drop_last() =~= orig.take(k));
            assert(orig.take(k + 1) =~= orig.take(k).push(c));
            orig.take(k).lemma_filter_push(c, pred);
        }
        if keep(&c, conversation_type, min_messages) {
            kept.push(c);
        }
        proof {
            k = k + 1;
            assert(src@ =~= orig.skip(k));
        }
    }
    proof {
        assert(orig.take(k) =~= orig);
    }
    let mut sorted = sort_conversations(kept);
    if let Some(l) = limit {
        sorted.truncate(l);
        proof {
            let full = spec_sort_desc(spec_filter(orig, *conversation_type, min_messages as int));
            if (l as int) < full.len() {
                assert(sorted@ =~= full.take(l as int));
            }
        }
    }
    sorted
}

/// Filtering commutes with sorting: applying the min-count and type filters
/// before or after the sort yields the same final set of conversations.
pub proof fn lemma_filter_sort_commute(
    convs: Seq<Conversation>,
    ctype: Option<ConversationType>,
    min_messages: int,
)
    ensures
        spec_sort_desc(spec_filter(convs, ctype, min_messages)).to_multiset() == spec_filter(
            spec_sort_desc(convs),
            ctype,
            min_messages,
        ).to_multiset(),
{
    let pred = |c: Conversation| spec_keep(c, ctype, min_messages);
    lemma_sort_desc_props(convs);
    lemma_sort_desc_props(spec_filter(convs, ctype, min_messages));
    lemma_filter_to_multiset(convs, pred);
    lemma_filter_to_multiset(spec_sort_desc(convs), pred);
    assert(convs.to_multiset().filter(pred) == spec_sort_desc(convs).to_multiset().filter(pred));
}

proof fn lemma_filter_to_multiset(s: Seq<Conversation>, pred: spec_fn(Conversation) -> bool)
    ensures
        s.filter(pred).to_multiset() == s.to_multiset().filter(pred),
    decreases s.len(),
{
    broadcast use vstd::seq_lib::group_to_multiset_ensures;
    broadcast use vstd::multiset::group_multiset_axioms;

    reveal(Seq::filter);
    if s.len() == 0 {
        assert(s.filter(pred).to_multiset() =~= s.to_multiset().filter(pred));
    } else {
        let d = s.drop_last();
        let l = s.last();
        lemma_filter_to_multiset(d, pred);
        assert(d.push(l) =~= s);
        d.lemma_filter_push(l, pred);
        assert(d.push(l).to_multiset() == d.to_multiset().insert(l));
        if pred(l) {
            assert(d.filter(pred).push(l).to_multiset() == d.filter(pred).to_multiset().insert(
                l,
            ));
            assert(d.to_multiset().insert(l).filter(pred) =~= d.to_multiset().filter(pred).insert(
                l,
            ));
        } else {
            assert(d.to_multiset().insert(l).filter(pred) =~= d.to_multiset().filter(pred));
        }
    }
}

/// Every entry of a finished report keeps the guild-count invariant it came
/// in with: filtering, sorting and truncation only select and rearrange
/// entries, never alter one.
pub proof fn lemma_report_counts_consistent(
    convs: Seq<Conversation>,
    ctype: Option<ConversationType>,
    min_messages: int,
    limit: Option<usize>,
)
    requires
        forall|i: int| 0 <= i < convs.len() ==> (#[trigger] convs[i]).count_consistent(),
    ensures
        forall|i: int|
            0 <= i < spec_report(convs, ctype, min_messages, limit).len() ==> (#[trigger]
            spec_report(convs, ctype, min_messages, limit)[i]).count_consistent(),
{
    broadcast use vstd::seq_lib::group_to_multiset_ensures;
    broadcast use vstd::multiset::group_multiset_axioms;

    let pred = |c: Conversation| spec_keep(c, ctype, min_messages);
    let filtered = spec_filter(convs, ctype, min_messages);
    let sorted = spec_sort_desc(filtered);
    lemma_sort_desc_props(filtered);
    lemma_filter_to_multiset(convs, pred);
    let r = spec_report(convs, ctype, min_messages, limit);
    assert forall|i: int| 0 <= i < r.len() implies (#[trigger] r[i]).count_consistent() by {
        let x = r[i];
        assert(x == sorted[i]);
        assert(sorted.contains(x));
        assert(sorted.to_multiset().count(x) > 0);
        assert(filtered.to_multiset().count(x) > 0);
        assert(convs.to_multiset().count(x) > 0);
        assert(convs.contains(x));
        let j = choose|j: int| 0 <= j < convs.len() && convs[j] == x;
        assert(convs[j].count_consistent());
    };
}

/// A limited report keeps the highest counts: every entry it keeps counts at
/// least as much as every entry the limit cuts off.
pub proof fn lemma_limit_keeps_highest(s: Seq<Conversation>, n: int)
    requires
        sorted_desc(s),
        0 <= n <= s.len(),
    ensures
        forall|i: int, j: int|
            0 <= i < n <= j < s.len() ==> s.take(n)[i].spec_message_count()
                >= s[j].spec_message_count(),
{
}

/// A limit of `n` yields at most `n` entries, and they are the highest by
/// message count among the filtered set: every entry kept counts at least as
/// much as every sorted survivor at or past the cut.
pub proof fn lemma_limit_bounds(
    convs: Seq<Conversation>,
    ctype: Option<ConversationType>,
    min_messages: int,
    n: usize,
)
    ensures
        spec_report(convs, ctype, min_messages, Some(n)).len() <= n,
        forall|i: int, j: int|
            0 <= i < spec_report(convs, ctype, min_messages, Some(n)).len() && spec_report(
                convs,
                ctype,
                min_messages,
                Some(n),
            ).len() <= j < spec_sort_desc(spec_filter(convs, ctype, min_messages)).len() ==> (
            #[trigger] spec_report(convs, ctype, min_messages, Some(n))[i]).spec_message_count()
                >= (#[trigger] spec_sort_desc(
                spec_filter(convs, ctype, min_messages),
            )[j]).spec_message_count(),
{
    lemma_sort_desc_props(spec_filter(convs, ctype, min_messages));
}

} // verus!

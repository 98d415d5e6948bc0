//! Orderings of results and leaderboard entries, and the sorts that use them.
//!
//! Text is ordered as Rust orders `str`: lexicographically by UTF-8 bytes, which is the
//! same as lexicographically by character code.
use crate::model::{LeaderboardEntry, LeaderboardEntryView, RoundResult, RoundResultView};
use std::cmp::Ordering;
use vstd::prelude::*;

verus! {

/// `a` comes strictly before `b` in text order.
pub open spec fn text_less(a: Seq<char>, b: Seq<char>) -> bool
    decreases a.len(),
{
    if a.len() == 0 {
        b.len() > 0
    } else if b.len() == 0 {
        false
    } else if a[0] != b[0] {
        a[0] < b[0]
    } else {
        text_less(a.drop_first(), b.drop_first())
    }
}

proof fn lemma_text_less_step(a: Seq<char>, b: Seq<char>, i: int)
    requires
        0 <= i <= a.len(),
        i <= b.len(),
        forall|k: int| 0 <= k < i ==> a[k] == b[k],
    ensures
        text_less(a, b) == text_less(a.subrange(i, a.len() as int), b.subrange(i, b.len() as int)),
    decreases i,
{
    if i > 0 {
        assert(a.drop_first().subrange(i - 1, a.drop_first().len() as int) =~= a.subrange(
            i,
            a.len() as int,
        ));
        assert(b.drop_first().subrange(i - 1, b.drop_first().len() as int) =~= b.subrange(
            i,
            b.len() as int,
        ));
        assert forall|k: int| 0 <= k < i - 1 implies a.drop_first()[k] == b.drop_first()[k] by {
            assert(a.drop_first()[k] == a[k + 1]);
            assert(b.drop_first()[k] == b[k + 1]);
        }
        lemma_text_less_step(a.drop_first(), b.drop_first(), i - 1);
    } else {
        assert(a.subrange(0, a.len() as int) =~= a);
        assert(b.subrange(0, b.len() as int) =~= b);
    }
}

/// Text order is total: of two different strings, one comes first.
pub proof fn lemma_text_total(a: Seq<char>, b: Seq<char>)
    ensures
        a != b ==> text_less(a, b) || text_less(b, a),
        !(text_less(a, b) && text_less(b, a)),
    decreases a.len(),
{
    if a.len() == 0 && b.len() == 0 {
        assert(a =~= b);
    }
    if a.len() > 0 && b.len() > 0 && a[0] == b[0] {
        lemma_text_total(a.drop_first(), b.drop_first());
        if a.drop_first() == b.drop_first() {
            assert(a =~= seq![a[0]] + a.drop_first());
            assert(b =~= seq![b[0]] + b.drop_first());
        }
    }
}

/// Two results the order does not tell apart: the same votes and the same label.
pub open spec fn results_tie(a: RoundResultView, b: RoundResultView) -> bool {
    a.votes == b.votes && a.label == b.label
}

/// The results that tie with `x`.
pub open spec fn tying_result(x: RoundResultView) -> spec_fn(RoundResultView) -> bool {
    |y: RoundResultView| results_tie(y, x)
}

/// `out` lists the results of `input` that tie with one another in the order `input`
/// lists them.
pub open spec fn results_stable(input: Seq<RoundResultView>, out: Seq<RoundResultView>) -> bool {
    forall|x: RoundResultView| #[trigger] out.filter(tying_result(x)) == input.filter(tying_result(x))
}

/// Two entries the order does not tell apart: the same score and the same nickname.
pub open spec fn entries_tie(a: LeaderboardEntryView, b: LeaderboardEntryView) -> bool {
    a.score == b.score && a.nickname == b.nickname
}

/// The entries that tie with `x`.
pub open spec fn tying_entry(x: LeaderboardEntryView) -> spec_fn(LeaderboardEntryView) -> bool {
    |y: LeaderboardEntryView| entries_tie(y, x)
}

/// `out` lists the entries of `input` that tie with one another in the order `input`
/// lists them.
pub open spec fn entries_stable(input: Seq<LeaderboardEntryView>, out: Seq<LeaderboardEntryView>) -> bool {
    forall|x: LeaderboardEntryView| #[trigger] out.filter(tying_entry(x)) == input.filter(tying_entry(x))
}

/// Filtering a sequence looks at its first item, then at the rest.
proof fn lemma_filter_first<T>(s: Seq<T>, p: spec_fn(T) -> bool)
    requires
        s.len() > 0,
    ensures
        s.filter(p) == (if p(s[0]) {
            seq![s[0]] + s.drop_first().filter(p)
        } else {
            s.drop_first().filter(p)
        }),
{
    assert(s =~= seq![s[0]] + s.drop_first());
    Seq::filter_distributes_over_add(seq![s[0]], s.drop_first(), p);
    reveal_with_fuel(Seq::filter, 2);
    assert(seq![s[0]].drop_last() =~= Seq::<T>::empty());
    if p(s[0]) {
        assert(seq![s[0]].filter(p) =~= seq![s[0]]);
    } else {
        assert(seq![s[0]].filter(p) =~= Seq::<T>::empty());
    }
    assert(Seq::<T>::empty() + s.drop_first().filter(p) =~= s.drop_first().filter(p));
}

/// The first items of two sequences of the same items, each in order, tie.
proof fn lemma_heads_tie<T>(a: Seq<T>, b: Seq<T>, before: spec_fn(T, T) -> bool, tying: spec_fn(T) -> spec_fn(T) -> bool)
    requires
        a.len() > 0,
        forall|x: T| #[trigger] tying(x)(x),
        forall|x: T, y: T| !before(x, y) && !before(y, x) ==> #[trigger] tying(y)(x),
        a.to_multiset() == b.to_multiset(),
        forall|i: int, j: int| 0 <= i < j < a.len() ==> !before(#[trigger] a[j], #[trigger] a[i]),
        forall|i: int, j: int| 0 <= i < j < b.len() ==> !before(#[trigger] b[j], #[trigger] b[i]),
    ensures
        b.len() == a.len(),
        tying(a[0])(b[0]),
{
    a.to_multiset_ensures();
    b.to_multiset_ensures();
    let x = a[0];
    let z = b[0];
    if z != x {
        assert(b.contains(z));
        assert(a.to_multiset().count(z) > 0);
        assert(a.contains(z));
        let j = choose|j: int| 0 <= j < a.len() && a[j] == z;
        assert(a.contains(x));
        assert(b.to_multiset().count(x) > 0);
        assert(b.contains(x));
        let k = choose|k: int| 0 <= k < b.len() && b[k] == x;
        assert(!before(a[j], a[0]));
        assert(!before(b[k], b[0]));
    }
}

/// With equal first items, tying classes in the same order stay so without them.
proof fn lemma_tail_filters<T>(a: Seq<T>, b: Seq<T>, tying: spec_fn(T) -> spec_fn(T) -> bool)
    requires
        a.len() > 0,
        b.len() > 0,
        a[0] == b[0],
        forall|x: T| #[trigger] a.filter(tying(x)) == b.filter(tying(x)),
    ensures
        forall|y: T| #[trigger] a.drop_first().filter(tying(y)) == b.drop_first().filter(tying(y)),
{
    assert forall|y: T| #[trigger] a.drop_first().filter(tying(y)) == b.drop_first().filter(tying(y)) by {
        lemma_filter_first(a, tying(y));
        lemma_filter_first(b, tying(y));
        assert(a.filter(tying(y)) == b.filter(tying(y)));
        if tying(y)(a[0]) {
            assert(a.drop_first().filter(tying(y)) =~= a.filter(tying(y)).drop_first());
            assert(b.drop_first().filter(tying(y)) =~= b.filter(tying(y)).drop_first());
        }
    }
}

/// Two sequences of the same items, each in order, in which the items of every class of
/// tying items come in one and the same order, are equal.
proof fn lemma_stable_order_unique<T>(
    a: Seq<T>,
    b: Seq<T>,
    before: spec_fn(T, T) -> bool,
    tying: spec_fn(T) -> spec_fn(T) -> bool,
)
    requires
        forall|x: T| #[trigger] tying(x)(x),
        forall|x: T, y: T| !before(x, y) && !before(y, x) ==> #[trigger] tying(y)(x),
        a.to_multiset() == b.to_multiset(),
        forall|i: int, j: int| 0 <= i < j < a.len() ==> !before(#[trigger] a[j], #[trigger] a[i]),
        forall|i: int, j: int| 0 <= i < j < b.len() ==> !before(#[trigger] b[j], #[trigger] b[i]),
        forall|x: T| #[trigger] a.filter(tying(x)) == b.filter(tying(x)),
    ensures
        a == b,
    decreases a.len(),
{
    a.to_multiset_ensures();
    b.to_multiset_ensures();
    if a.len() == 0 {
        assert(a =~= b);
    } else {
        lemma_heads_tie(a, b, before, tying);
        let x = a[0];
        lemma_filter_first(a, tying(x));
        lemma_filter_first(b, tying(x));
        assert(a.filter(tying(x)) == b.filter(tying(x)));
        assert(a.filter(tying(x))[0] == x);
        assert(b.filter(tying(x))[0] == b[0]);
        let a1 = a.drop_first();
        let b1 = b.drop_first();
        assert(a1 =~= a.remove(0));
        assert(b1 =~= b.remove(0));
        assert(a1.to_multiset() =~= b1.to_multiset());
        lemma_tail_filters(a, b, tying);
        assert forall|i: int, j: int| 0 <= i < j < a1.len() implies !before(#[trigger] a1[j], #[trigger] a1[i]) by {
            assert(a1[j] == a[j + 1] && a1[i] == a[i + 1]);
        }
        assert forall|i: int, j: int| 0 <= i < j < b1.len() implies !before(#[trigger] b1[j], #[trigger] b1[i]) by {
            assert(b1[j] == b[j + 1] && b1[i] == b[i + 1]);
        }
        lemma_stable_order_unique(a1, b1, before, tying);
        assert(a =~= seq![x] + a1);
        assert(b =~= seq![x] + b1);
    }
}

/// Results listed in order, stably from the same lines, are the same list.
pub proof fn lemma_results_unique(input: Seq<RoundResultView>, a: Seq<RoundResultView>, b: Seq<RoundResultView>)
    requires
        a.to_multiset() == input.to_multiset(),
        b.to_multiset() == input.to_multiset(),
        results_ordered(a),
        results_ordered(b),
        results_stable(input, a),
        results_stable(input, b),
    ensures
        a == b,
{
    let before = |p: RoundResultView, q: RoundResultView| result_before(p, q);
    let tying = |x: RoundResultView| tying_result(x);
    assert forall|x: RoundResultView, y: RoundResultView| !before(x, y) && !before(y, x) implies #[trigger] tying(y)(x) by {
        lemma_text_total(x.label, y.label);
    }
    assert forall|x: RoundResultView| #[trigger] a.filter(tying(x)) == b.filter(tying(x)) by {
        assert(a.filter(tying_result(x)) == input.filter(tying_result(x)));
        assert(b.filter(tying_result(x)) == input.filter(tying_result(x)));
    }
    lemma_stable_order_unique(a, b, before, tying);
}

/// Entries listed in order, stably from the same lines, are the same list.
pub proof fn lemma_entries_unique(input: Seq<LeaderboardEntryView>, a: Seq<LeaderboardEntryView>, b: Seq<LeaderboardEntryView>)
    requires
        a.to_multiset() == input.to_multiset(),
        b.to_multiset() == input.to_multiset(),
        entries_ordered(a),
        entries_ordered(b),
        entries_stable(input, a),
        entries_stable(input, b),
    ensures
        a == b,
{
    let before = |p: LeaderboardEntryView, q: LeaderboardEntryView| entry_before(p, q);
    let tying = |x: LeaderboardEntryView| tying_entry(x);
    assert forall|x: LeaderboardEntryView, y: LeaderboardEntryView| !before(x, y) && !before(y, x) implies #[trigger] tying(y)(x) by {
        lemma_text_total(x.nickname, y.nickname);
    }
    assert forall|x: LeaderboardEntryView| #[trigger] a.filter(tying(x)) == b.filter(tying(x)) by {
        assert(a.filter(tying_entry(x)) == input.filter(tying_entry(x)));
        assert(b.filter(tying_entry(x)) == input.filter(tying_entry(x)));
    }
    lemma_stable_order_unique(a, b, before, tying);
}

/// Where two strings stand in text order: -1 before, 0 equal, 1 after.
fn text_rank(a: &str, b: &str) -> (r: i8)
    ensures
        (r == -1) == text_less(a@, b@),
        (r == 1) == text_less(b@, a@),
        (r == 0) == (a@ == b@),
        -1 <= r <= 1,
{
    let n = a.unicode_len();
    let m = b.unicode_len();
    let mut i: usize = 0;
    while i < n && i < m && a.get_char(i) == b.get_char(i)
        invariant
            n == a@.len(),
            m == b@.len(),
            i <= n,
            i <= m,
            forall|k: int| 0 <= k < i ==> a@[k] == b@[k],
        decreases n - i,
    {
        i = i + 1;
    }
    proof {
        lemma_text_less_step(a@, b@, i as int);
        lemma_text_less_step(b@, a@, i as int);
    }
    if i == n && i == m {
        assert(a@ =~= b@);
        0
    } else if i == n {
        assert(a@ != b@) by {
            assert(a@.len() != b@.len());
        }
        -1
    } else if i == m {
        assert(a@ != b@) by {
            assert(a@.len() != b@.len());
        }
        1
    } else {
        let x = a.get_char(i);
        let y = b.get_char(i);
        assert(a@ != b@) by {
            assert(a@[i as int] != b@[i as int]);
        }
        if x < y {
            -1
        } else {
            1
        }
    }
}

/// Compares two strings in text order.
pub fn text_order(a: &str, b: &str) -> (o: Ordering)
    ensures
        (o == Ordering::Less) == text_less(a@, b@),
        (o == Ordering::Greater) == text_less(b@, a@),
        (o == Ordering::Equal) == (a@ == b@),
{
    let r = text_rank(a, b);
    if r == -1 {
        Ordering::Less
    } else if r == 0 {
        Ordering::Equal
    } else {
        Ordering::Greater
    }
}

/// Result `a` is listed before `b`: more votes first, then by label.
pub open spec fn result_before(a: RoundResultView, b: RoundResultView) -> bool {
    a.votes > b.votes || (a.votes == b.votes && text_less(a.label, b.label))
}

/// Results listed in order: no result is listed before one it should follow.
pub open spec fn results_ordered(s: Seq<RoundResultView>) -> bool {
    forall|i: int, j: int| 0 <= i < j < s.len() ==> !result_before(#[trigger] s[j], #[trigger] s[i])
}

fn result_order(a: &RoundResult, b: &RoundResult) -> (o: Ordering)
    ensures
        (o == Ordering::Less) == result_before(a@, b@),
        (o == Ordering::Greater) == result_before(b@, a@),
        (o == Ordering::Equal) == results_tie(a@, b@),
{
    if a.votes > b.votes {
        Ordering::Less
    } else if a.votes < b.votes {
        Ordering::Greater
    } else {
        text_order(a.label.as_str(), b.label.as_str())
    }
}

/// Calls `slice::sort_by` with [`result_order`]: the same results, more votes first and
/// then by label. The sort is stable: results that tie keep their order.
#[verifier::external_body]
pub(crate) fn sort_results(v: &mut Vec<RoundResult>)
    ensures
        final(v).deep_view().to_multiset() == old(v).deep_view().to_multiset(),
        results_ordered(final(v).deep_view()),
        results_stable(old(v).deep_view(), final(v).deep_view()),
{
    v.sort_by(|a, b| result_order(a, b))
}

/// Entry `a` is listed before `b`: higher score first, then by nickname.
pub open spec fn entry_before(a: LeaderboardEntryView, b: LeaderboardEntryView) -> bool {
    a.score > b.score || (a.score == b.score && text_less(a.nickname, b.nickname))
}

/// Entries listed in order.
pub open spec fn entries_ordered(s: Seq<LeaderboardEntryView>) -> bool {
    forall|i: int, j: int| 0 <= i < j < s.len() ==> !entry_before(#[trigger] s[j], #[trigger] s[i])
}

fn entry_order(a: &LeaderboardEntry, b: &LeaderboardEntry) -> (o: Ordering)
    ensures
        (o == Ordering::Less) == entry_before(a@, b@),
        (o == Ordering::Greater) == entry_before(b@, a@),
        (o == Ordering::Equal) == entries_tie(a@, b@),
{
    if a.score > b.score {
        Ordering::Less
    } else if a.score < b.score {
        Ordering::Greater
    } else {
        text_order(a.nickname.as_str(), b.nickname.as_str())
    }
}

/// Calls `slice::sort_by` with [`entry_order`]: the same entries, higher score first and
/// then by nickname. The sort is stable: entries that tie keep their order.
#[verifier::external_body]
pub(crate) fn sort_entries(v: &mut Vec<LeaderboardEntry>)
    ensures
        final(v).deep_view().to_multiset() == old(v).deep_view().to_multiset(),
        entries_ordered(final(v).deep_view()),
        entries_stable(old(v).deep_view(), final(v).deep_view()),
{
    v.sort_by(|a, b| entry_order(a, b))
}

/// Calls `slice::sort` on ids: the same ids in ascending order.
#[verifier::external_body]
pub(crate) fn sort_ids(v: &mut Vec<u128>)
    ensures
        final(v)@.to_multiset() == old(v)@.to_multiset(),
        forall|i: int, j: int| 0 <= i < j < final(v).len() ==> final(v)@[i] <= final(v)@[j],
{
    v.sort()
}

} // verus!

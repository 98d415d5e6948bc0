//! Drawing a match's questions: categories are taken in turn, in a random order, and the
//! questions of each category in a random order.
use crate::catalog::{Question, QuestionView};
use crate::ids::shuffle;
use crate::text::str_equal;
use vstd::prelude::*;

verus! {

/// Whether position `i` holds a question of category `c`.
pub open spec fn in_category(qs: Seq<QuestionView>, c: Seq<char>) -> spec_fn(usize) -> bool {
    |i: usize| qs[i as int].category == c
}

/// How many of the positions `picks` hold a question of category `c`.
pub open spec fn category_count(qs: Seq<QuestionView>, picks: Seq<usize>, c: Seq<char>) -> nat {
    picks.filter(in_category(qs, c)).len()
}

/// The smaller of two counts.
pub open spec fn at_most(a: nat, b: nat) -> nat {
    if a < b {
        a
    } else {
        b
    }
}

/// The turn in which the `k`-th pick was taken: how many questions of its category were
/// picked before it.
#[verifier::opaque]
pub open spec fn turn_of(qs: Seq<QuestionView>, picked: Seq<usize>, k: int) -> nat {
    category_count(qs, picked.take(k), qs[picked[k] as int].category)
}

/// The place of category `c` in the order `cats`.
pub open spec fn place(cats: Seq<Seq<char>>, c: Seq<char>) -> int {
    choose|a: int| 0 <= a < cats.len() && cats[a] == c
}

/// `picked` takes the categories `cats` in turn: each pick's category is one of `cats`, and
/// the picks come turn by turn, within a turn in the order of `cats`.
pub open spec fn taken_in_turns(qs: Seq<QuestionView>, picked: Seq<usize>, cats: Seq<Seq<char>>) -> bool {
    &&& cats.no_duplicates()
    &&& forall|k: int| 0 <= k < picked.len() ==> cats.contains(qs[(#[trigger] picked[k]) as int].category)
    &&& forall|i: int, k: int|
        #![trigger turn_of(qs, picked, i), turn_of(qs, picked, k)]
        0 <= i < k < picked.len() ==> turn_of(qs, picked, i) < turn_of(qs, picked, k) || (turn_of(qs, picked, i)
            == turn_of(qs, picked, k) && place(cats, qs[picked[i] as int].category) < place(
            cats,
            qs[picked[k] as int].category,
        ))
}

/// `picked` is a balanced draw of up to `count` of the questions at positions `pool`: no
/// position twice, only positions of the pool, as many as the pool and `count` allow, and
/// categories taken in turn, in some order of the categories, so that a category with
/// questions left in the pool has at most one question fewer than any other category.
pub open spec fn balanced(qs: Seq<QuestionView>, pool: Seq<usize>, count: nat, picked: Seq<usize>) -> bool {
    &&& exists|cats: Seq<Seq<char>>| #[trigger] taken_in_turns(qs, picked, cats)
    &&& picked.no_duplicates()
    &&& forall|k: int| 0 <= k < picked.len() ==> pool.contains(#[trigger] picked[k])
    &&& picked.len() == at_most(count, pool.len())
    &&& forall|c: Seq<char>, d: Seq<char>|
        #![trigger category_count(qs, picked, c), category_count(qs, picked, d)]
        category_count(qs, picked, c) < category_count(qs, pool, c) ==> category_count(qs, picked, c)
            + 1 >= category_count(qs, picked, d)
}

/// What the groups give in turn `p`: each group, in order, that still has a question gives
/// its `p`-th from the end.
pub open spec fn turn_row(groups: Seq<Vec<usize>>, p: nat) -> Seq<usize>
    decreases groups.len(),
{
    if groups.len() == 0 {
        Seq::empty()
    } else {
        let g = groups.last()@;
        let row = turn_row(groups.drop_last(), p);
        if p < g.len() {
            row.push(g[g.len() - 1 - p])
        } else {
            row
        }
    }
}

/// What the groups give in the first `n` turns, turn after turn.
pub open spec fn turns_upto(groups: Seq<Vec<usize>>, n: nat) -> Seq<usize>
    decreases n,
{
    if n == 0 {
        Seq::empty()
    } else {
        turns_upto(groups, (n - 1) as nat) + turn_row(groups, (n - 1) as nat)
    }
}

/// The size of the largest group.
pub open spec fn largest(groups: Seq<Vec<usize>>) -> nat
    decreases groups.len(),
{
    if groups.len() == 0 {
        0
    } else {
        let rest = largest(groups.drop_last());
        if groups.last()@.len() > rest {
            groups.last()@.len()
        } else {
            rest
        }
    }
}

/// Every question of the groups, in the order in which the groups give them when they take
/// turns: in each turn each group that has questions left gives one, from its end.
pub open spec fn round_robin_order(groups: Seq<Vec<usize>>) -> Seq<usize> {
    turns_upto(groups, largest(groups))
}

/// The first `n` items of `s` (all of them when there are fewer).
pub open spec fn first_n(s: Seq<usize>, n: nat) -> Seq<usize> {
    if n < s.len() {
        s.take(n as int)
    } else {
        s
    }
}

/// What the first groups give in a turn comes first in what all of them give.
proof fn lemma_row_prefix(groups: Seq<Vec<usize>>, j: int, p: nat)
    requires
        0 <= j <= groups.len(),
    ensures
        turn_row(groups.take(j), p).is_prefix_of(turn_row(groups, p)),
    decreases groups.len(),
{
    if j == groups.len() {
        assert(groups.take(j) =~= groups);
    } else {
        let rest = groups.drop_last();
        assert(rest.take(j) =~= groups.take(j));
        lemma_row_prefix(rest, j, p);
    }
}

/// A turn is empty exactly when no group has that many questions.
proof fn lemma_row_empty(groups: Seq<Vec<usize>>, p: nat)
    ensures
        turn_row(groups, p).len() == 0 <==> largest(groups) <= p,
    decreases groups.len(),
{
    if groups.len() > 0 {
        lemma_row_empty(groups.drop_last(), p);
    }
}

/// Earlier turns come first; after the largest group is used up no turn adds anything.
proof fn lemma_turns_grow(groups: Seq<Vec<usize>>, n1: nat, n2: nat)
    requires
        n1 <= n2,
    ensures
        turns_upto(groups, n1).is_prefix_of(turns_upto(groups, n2)),
        largest(groups) <= n1 ==> turns_upto(groups, n2) == turns_upto(groups, n1),
    decreases n2,
{
    if n1 < n2 {
        let k = (n2 - 1) as nat;
        lemma_turns_grow(groups, n1, k);
        if largest(groups) <= n1 {
            lemma_row_empty(groups, k);
            assert(turns_upto(groups, n2) =~= turns_upto(groups, k));
        }
    }
}

/// Some position of `order` names category `c`.
pub open spec fn has_slot(names: Seq<Seq<char>>, order: Seq<usize>, c: Seq<char>) -> bool {
    exists|a: int| 0 <= a < order.len() && names[(#[trigger] order[a]) as int] == c
}

/// Two lists with the same elements, counted with multiplicity: the one without repeats
/// has a partner without repeats, of the same length and with the same members.
proof fn lemma_same_elements(a: Seq<usize>, b: Seq<usize>)
    requires
        a.to_multiset() == b.to_multiset(),
        a.no_duplicates(),
    ensures
        b.no_duplicates(),
        a.len() == b.len(),
        forall|x: usize| a.contains(x) <==> b.contains(x),
{
    broadcast use vstd::seq_lib::group_to_multiset_ensures;

    a.lemma_multiset_has_no_duplicates();
    b.lemma_multiset_has_no_duplicates_conv();
    vstd::seq_lib::to_multiset_len(a);
    vstd::seq_lib::to_multiset_len(b);
    assert forall|x: usize| a.contains(x) <==> b.contains(x) by {
        vstd::seq_lib::to_multiset_contains(a, x);
        vstd::seq_lib::to_multiset_contains(b, x);
    }
}

/// Keeping some elements of a list without repeats leaves a list without repeats, whose
/// members are members of the list.
proof fn lemma_filter_distinct(s: Seq<usize>, pred: spec_fn(usize) -> bool)
    requires
        s.no_duplicates(),
    ensures
        s.filter(pred).no_duplicates(),
        forall|x: usize| s.filter(pred).contains(x) <==> s.contains(x) && pred(x),
    decreases s.len(),
{
    broadcast use vstd::seq_lib::group_seq_properties;

    if s.len() > 0 {
        let t = s.drop_last();
        let x = s.last();
        assert(s =~= t.push(x));
        lemma_filter_distinct(t, pred);
        t.lemma_filter_push(x, pred);
        assert(!t.contains(x)) by {
            if t.contains(x) {
                let k = choose|k: int| 0 <= k < t.len() && t[k] == x;
                assert(s[k] == s[s.len() - 1]);
            }
        }
        assert forall|y: usize| s.filter(pred).contains(y) <==> s.contains(y) && pred(y) by {
            if s.contains(y) && y != x {
                let k = choose|k: int| 0 <= k < s.len() && s[k] == y;
                assert(t[k] == y);
            }
            if t.contains(y) {
                let k = choose|k: int| 0 <= k < t.len() && t[k] == y;
                assert(s[k] == y);
            }
        }
    } else {
        assert(s.filter(pred) =~= Seq::<usize>::empty());
    }
}

/// A list without repeats whose members all belong to another list without repeats is no
/// longer than it; with the same members, it has the same length.
proof fn lemma_distinct_subset_len(a: Seq<usize>, b: Seq<usize>)
    requires
        a.no_duplicates(),
        b.no_duplicates(),
        forall|x: usize| a.contains(x) ==> b.contains(x),
    ensures
        a.len() <= b.len(),
        (forall|x: usize| b.contains(x) ==> a.contains(x)) ==> a.len() == b.len(),
{
    a.unique_seq_to_set();
    b.unique_seq_to_set();
    vstd::set_lib::lemma_len_subset(a.to_set(), b.to_set());
    if forall|x: usize| b.contains(x) ==> a.contains(x) {
        assert(a.to_set() =~= b.to_set());
    }
}

/// `0, 1, …, n - 1`.
fn positions_below(n: usize) -> (v: Vec<usize>)
    ensures
        v.len() == n,
        forall|k: int| 0 <= k < n ==> v@[k] == k,
        v@.no_duplicates(),
{
    let mut v: Vec<usize> = Vec::new();
    let mut i: usize = 0;
    while i < n
        invariant
            i <= n,
            v.len() == i,
            forall|k: int| 0 <= k < i ==> v@[k] == k,
        decreases n - i,
    {
        v.push(i);
        i = i + 1;
    }
    v
}

/// Whether a list of names holds `name`.
fn holds_name(names: &Vec<String>, name: &str) -> (r: bool)
    ensures
        r == names.deep_view().contains(name@),
{
    let mut i: usize = 0;
    while i < names.len()
        invariant
            i <= names.len(),
            forall|k: int| 0 <= k < i ==> names.deep_view()[k] != name@,
        decreases names.len() - i,
    {
        if str_equal(names[i].as_str(), name) {
            assert(names.deep_view()[i as int] == name@);
            return true;
        }
        i = i + 1;
    }
    false
}

/// Some question at the positions `pool` has category `c`.
pub open spec fn pool_has_category(qs: Seq<QuestionView>, pool: Seq<usize>, c: Seq<char>) -> bool {
    exists|k: int| 0 <= k < pool.len() && qs[pool[k] as int].category == c
}

/// The categories of the questions at positions `pool`, each once.
fn category_names(qs: &Vec<Question>, pool: &Vec<usize>) -> (names: Vec<String>)
    requires
        forall|k: int| 0 <= k < pool.len() ==> pool@[k] < qs.len(),
    ensures
        names.deep_view().no_duplicates(),
        forall|k: int| 0 <= k < pool.len() ==> names.deep_view().contains(
            qs.deep_view()[pool@[k] as int].category,
        ),
        forall|n: int| 0 <= n < names.len() ==> pool_has_category(qs.deep_view(), pool@, #[trigger] names.deep_view()[n]),
{
    let ghost q = qs.deep_view();
    let mut names: Vec<String> = Vec::new();
    let ghost mut from: Seq<int> = Seq::empty();
    let mut i: usize = 0;
    while i < pool.len()
        invariant
            i <= pool.len(),
            q == qs.deep_view(),
            forall|k: int| 0 <= k < pool.len() ==> pool@[k] < qs.len(),
            names.deep_view().no_duplicates(),
            forall|k: int| 0 <= k < i ==> names.deep_view().contains(q[pool@[k] as int].category),
            from.len() == names.len(),
            forall|n: int| 0 <= n < names.len() ==> 0 <= #[trigger] from[n] < i && names.deep_view()[n] == q[pool@[from[n]] as int].category,
        decreases pool.len() - i,
    {
        let c = &qs[pool[i]].category;
        assert(q[pool@[i as int] as int].category == c@);
        if !holds_name(&names, c.as_str()) {
            let ghost before = names.deep_view();
            names.push(c.clone());
            proof {
                from = from.push(i as int);
            }
            assert(names.deep_view() =~= before.push(c@));
            assert forall|k: int| 0 <= k < i implies names.deep_view().contains(q[pool@[k] as int].category) by {
                let m = choose|m: int| 0 <= m < before.len() && before[m] == q[pool@[k] as int].category;
                assert(names.deep_view()[m] == before[m]);
            }
            assert(names.deep_view()[before.len() as int] == c@);
            assert forall|n: int| 0 <= n < names.len() implies 0 <= #[trigger] from[n] < i + 1 && names.deep_view()[n] == q[pool@[from[n]] as int].category by {
                if n < before.len() {
                    assert(names.deep_view()[n] == before[n]);
                }
            }
        }
        i = i + 1;
    }
    assert forall|n: int| 0 <= n < names.len() implies pool_has_category(q, pool@, #[trigger] names.deep_view()[n]) by {
        let k = from[n];
        assert(0 <= k < pool.len() && names.deep_view()[n] == q[pool@[k] as int].category);
    }
    names
}

/// The positions of `pool` that hold a question of category `c`, in pool order.
fn members_of(qs: &Vec<Question>, pool: &Vec<usize>, c: &str) -> (g: Vec<usize>)
    requires
        forall|k: int| 0 <= k < pool.len() ==> pool@[k] < qs.len(),
    ensures
        g@ == pool@.filter(in_category(qs.deep_view(), c@)),
{
    let ghost pred = in_category(qs.deep_view(), c@);
    let mut g: Vec<usize> = Vec::new();
    let mut i: usize = 0;
    while i < pool.len()
        invariant
            i <= pool.len(),
            pred == in_category(qs.deep_view(), c@),
            forall|k: int| 0 <= k < pool.len() ==> pool@[k] < qs.len(),
            g@ == pool@.subrange(0, i as int).filter(pred),
        decreases pool.len() - i,
    {
        proof {
            pool@.subrange(0, i as int).lemma_filter_push(pool@[i as int], pred);
            assert(pool@.subrange(0, i as int).push(pool@[i as int]) =~= pool@.subrange(0, i + 1));
        }
        let x = pool[i];
        if str_equal(qs[x].category.as_str(), c) {
            g.push(x);
        }
        i = i + 1;
    }
    assert(pool@.subrange(0, pool.len() as int) =~= pool@);
    g
}

/// The category of a group: that of its first question.
pub open spec fn group_category(qs: Seq<QuestionView>, g: Vec<usize>) -> Seq<char> {
    qs[g@[0] as int].category
}

/// `groups` sorts the positions `pool` by category: each group holds, without repeats,
/// exactly the positions of the pool whose question has the group's category; no two
/// groups share a category, and every question of the pool has its group.
pub open spec fn grouped_by_category(qs: Seq<QuestionView>, pool: Seq<usize>, groups: Seq<Vec<usize>>) -> bool {
    &&& forall|a: int| 0 <= a < groups.len() ==> {
        &&& (#[trigger] groups[a])@.len() > 0
        &&& groups[a]@.no_duplicates()
        &&& forall|x: usize| #[trigger] groups[a]@.contains(x) <==> pool.contains(x) && qs[x as int].category
            == group_category(qs, groups[a])
    }
    &&& forall|a: int, b: int|
        0 <= a < groups.len() && 0 <= b < groups.len() && a != b ==> group_category(qs, #[trigger] groups[a])
            != group_category(qs, #[trigger] groups[b])
    &&& forall|k: int| 0 <= k < pool.len() ==> has_group(qs, groups, #[trigger] qs[pool[k] as int].category)
}

/// Some group has category `c`.
pub open spec fn has_group(qs: Seq<QuestionView>, groups: Seq<Vec<usize>>, c: Seq<char>) -> bool {
    exists|a: int| 0 <= a < groups.len() && group_category(qs, #[trigger] groups[a]) == c
}

/// The groups `groups` of the positions `pool`, one per category, take turns: in each turn
/// each group that has questions left gives its last one, until `count` questions are drawn
/// or every group is used up. The draw is balanced whatever the order of the groups and
/// of their questions.
pub fn round_robin(qs: &Vec<Question>, pool: &Vec<usize>, groups: &Vec<Vec<usize>>, count: usize) -> (picked: Vec<usize>)
    requires
        forall|k: int| 0 <= k < pool.len() ==> pool@[k] < qs.len(),
        pool@.no_duplicates(),
        grouped_by_category(qs.deep_view(), pool@, groups@),
    ensures
        picked@ == first_n(round_robin_order(groups@), count as nat),
        balanced(qs.deep_view(), pool@, count as nat, picked@),
{
    let ghost q = qs.deep_view();
    let m = groups.len();
    let ghost cats = Seq::new(m as nat, |a: int| group_category(q, groups@[a]));
    proof {
        assert forall|a: int| 0 <= a < m implies (#[trigger] groups@[a])@.len() == category_count(q, pool@, cats[a]) by {
            let f = pool@.filter(in_category(q, cats[a]));
            lemma_filter_distinct(pool@, in_category(q, cats[a]));
            assert forall|x: usize| f.contains(x) <==> groups@[a]@.contains(x) by {
                assert(cats[a] == group_category(q, groups@[a]));
            }
            lemma_distinct_subset_len(f, groups@[a]@);
            lemma_distinct_subset_len(groups@[a]@, f);
        }
        assert forall|k: int| 0 <= k < pool.len() implies cats.contains(#[trigger] q[pool@[k] as int].category) by {
            assert(has_group(q, groups@, q[pool@[k] as int].category));
            let a = choose|a: int| 0 <= a < m && group_category(q, #[trigger] groups@[a]) == q[pool@[k] as int].category;
            assert(cats[a] == q[pool@[k] as int].category);
        }
    }
    let mut taken: Vec<usize> = Vec::new();
    let mut z: usize = 0;
    while z < m
        invariant
            z <= m,
            taken.len() == z,
            forall|a: int| 0 <= a < z ==> taken@[a] == 0,
        decreases m - z,
    {
        taken.push(0);
        z = z + 1;
    }
    let mut picked: Vec<usize> = Vec::new();
    let ghost mut p: nat = 0;
    let ghost mut src: Seq<(int, int)> = Seq::empty();
    let mut added = false;
    let mut j: usize = 0;
    proof {
        assert forall|c: Seq<char>| category_count(q, picked@, c) == 0 by {
            assert(picked@.filter(in_category(q, c)) =~= Seq::<usize>::empty());
        }
    }
    loop
        invariant
            q == qs.deep_view(),
            groups.len() == m,
            taken.len() == m,
            j <= m,
            picked@ == turns_upto(groups@, p) + turn_row(groups@.take(j as int), p),
            !added ==> turn_row(groups@.take(j as int), p).len() == 0,
            forall|a: int, b: int| 0 <= a < m && 0 <= b < m && a != b ==> #[trigger] cats[a] != #[trigger] cats[b],
            forall|a: int| 0 <= a < m ==> {
                &&& (#[trigger] groups@[a])@.no_duplicates()
                &&& groups@[a]@.len() == category_count(q, pool@, cats[a])
                &&& forall|x: usize| #[trigger] groups@[a]@.contains(x) <==> pool@.contains(x) && q[x as int].category == cats[a]
            },
            forall|k: int| 0 <= k < pool.len() ==> cats.contains(#[trigger] q[pool@[k] as int].category),
            forall|a: int| 0 <= a < j ==> (#[trigger] taken@[a]) as nat == at_most(groups@[a]@.len(), p + 1),
            forall|a: int| j <= a < m ==> (#[trigger] taken@[a]) as nat == at_most(groups@[a]@.len(), p),
            !added ==> forall|a: int| 0 <= a < j ==> (#[trigger] taken@[a]) == groups@[a]@.len(),
            cats.len() == m,
            forall|a: int| 0 <= a < m ==> #[trigger] cats[a] == group_category(q, groups@[a]),
            forall|k: int| 0 <= k < src.len() ==> #[trigger] turn_of(q, picked@, k) < p || (turn_of(q, picked@, k) == p
                && src[k].0 < j),
            forall|i: int, k: int| #![trigger turn_of(q, picked@, i), turn_of(q, picked@, k)] 0 <= i < k < src.len() ==> turn_of(q, picked@, i) < turn_of(q, picked@, k)
                || (turn_of(q, picked@, i) == turn_of(q, picked@, k) && src[i].0 < src[k].0),
            picked.len() <= count,
            picked@.no_duplicates(),
            src.len() == picked.len(),
            forall|k: int| 0 <= k < src.len() ==> {
                let (a, t) = #[trigger] src[k];
                &&& 0 <= a < m
                &&& groups@[a]@.len() - taken@[a] <= t < groups@[a]@.len()
                &&& groups@[a]@[t] == picked@[k]
            },
            forall|a: int, t: int| 0 <= a < m && groups@[a]@.len() - taken@[a] <= t < groups@[a]@.len()
                ==> picked@.contains(#[trigger] groups@[a]@[t]),
            forall|a: int| 0 <= a < m ==> category_count(q, picked@, #[trigger] cats[a])
                == taken@[a],
            forall|c: Seq<char>| (forall|a: int| 0 <= a < m ==> #[trigger] cats[a] != c)
                ==> #[trigger] category_count(q, picked@, c) == 0,
        ensures
            j <= m,
            picked@ == turns_upto(groups@, p) + turn_row(groups@.take(j as int), p),
            picked.len() == count || (j == m && turn_row(groups@.take(j as int), p).len() == 0),
            cats.len() == m,
            forall|a: int| 0 <= a < m ==> #[trigger] cats[a] == group_category(q, groups@[a]),
            forall|i: int, k: int| #![trigger turn_of(q, picked@, i), turn_of(q, picked@, k)] 0 <= i < k < src.len() ==> turn_of(q, picked@, i) < turn_of(q, picked@, k)
                || (turn_of(q, picked@, i) == turn_of(q, picked@, k) && src[i].0 < src[k].0),
            picked.len() <= count,
            picked@.no_duplicates(),
            src.len() == picked.len(),
            forall|k: int| 0 <= k < src.len() ==> {
                let (a, t) = #[trigger] src[k];
                &&& 0 <= a < m
                &&& groups@[a]@.len() - taken@[a] <= t < groups@[a]@.len()
                &&& groups@[a]@[t] == picked@[k]
            },
            forall|a: int, t: int| 0 <= a < m && groups@[a]@.len() - taken@[a] <= t < groups@[a]@.len()
                ==> picked@.contains(#[trigger] groups@[a]@[t]),
            forall|a: int| 0 <= a < m ==> category_count(q, picked@, #[trigger] cats[a])
                == taken@[a],
            forall|c: Seq<char>| (forall|a: int| 0 <= a < m ==> #[trigger] cats[a] != c)
                ==> #[trigger] category_count(q, picked@, c) == 0,
            picked.len() == count || forall|a: int| 0 <= a < m ==> (#[trigger] taken@[a]) == groups@[a]@.len(),
            forall|a: int| 0 <= a < m ==> (#[trigger] taken@[a]) as nat >= at_most(groups@[a]@.len(), p)
                && taken@[a] as nat <= at_most(groups@[a]@.len(), p + 1),
        decreases count - picked.len(), (if added { 1int } else { 0int }), m - j,
    {
        if picked.len() >= count {
            break;
        }
        if j == m {
            if !added {
                break;
            }
            j = 0;
            added = false;
            proof {
                assert(groups@.take(m as int) =~= groups@);
                p = p + 1;
                assert(groups@.take(0) =~= Seq::<Vec<usize>>::empty());
                assert(picked@ =~= turns_upto(groups@, p) + turn_row(groups@.take(0), p));
            }
        } else {
            if taken[j] < groups[j].len() {
                let t = groups[j].len() - 1 - taken[j];
                let x = groups[j][t];
                let ghost c = cats[j as int];
                let ghost before = picked@;
                let ghost taken0 = taken@;
                proof {
                    assert(groups@[j as int]@[t as int] == x);
                    assert(groups@[j as int]@.contains(x));
                    assert(q[x as int].category == c);
                    assert forall|k: int| 0 <= k < before.len() implies before[k] != x by {
                        let (a, t2) = src[k];
                        assert(groups@[a]@[t2] == before[k]);
                        assert(groups@[a]@.contains(before[k]));
                        assert(q[before[k] as int].category == cats[a]);
                        if a != j {
                            assert(cats[a] != cats[j as int]);
                        } else {
                            assert(t2 != t);
                            assert(groups@[a]@.no_duplicates());
                        }
                    }
                }
                picked.push(x);
                taken.set(j, taken[j] + 1);
                added = true;
                proof {
                    assert(picked@ == before.push(x));
                    assert(taken0[j as int] == p);
                    let g1 = groups@.take(j + 1);
                    assert(g1.drop_last() =~= groups@.take(j as int));
                    assert(turn_row(g1, p) == turn_row(groups@.take(j as int), p).push(x));
                    assert(picked@ =~= turns_upto(groups@, p) + turn_row(g1, p));
                    let old_src = src;
                    src = src.push((j as int, t as int));
                    assert forall|a: int, b: int| 0 <= a < b < picked@.len() implies picked@[a] != picked@[b] by {
                        if b == before.len() {
                            assert(picked@[a] == before[a]);
                        } else {
                            assert(picked@[a] == before[a] && picked@[b] == before[b]);
                        }
                    }
                    assert forall|k: int| 0 <= k < src.len() implies {
                        let (a, t3) = #[trigger] src[k];
                        &&& 0 <= a < m
                        &&& groups@[a]@.len() - taken@[a] <= t3 < groups@[a]@.len()
                        &&& groups@[a]@[t3] == picked@[k]
                    } by {
                        if k < before.len() {
                            let (a, t3) = src[k];
                            assert(picked@[k] == before[k]);
                        }
                    }
                    assert forall|a: int, t3: int| 0 <= a < m && groups@[a]@.len() - taken@[a] <= t3 < groups@[a]@.len()
                        implies picked@.contains(#[trigger] groups@[a]@[t3]) by {
                        if a == j && t3 == t {
                            assert(picked@[before.len() as int] == x);
                        } else {
                            assert(before.contains(groups@[a]@[t3]));
                            let k = choose|k: int| 0 <= k < before.len() && before[k] == groups@[a]@[t3];
                            assert(picked@[k] == before[k]);
                        }
                    }
                    assert forall|d: Seq<char>| #[trigger] category_count(q, picked@, d) == category_count(q, before, d)
                        + (if d == c { 1int } else { 0int }) by {
                        before.lemma_filter_push(x, in_category(q, d));
                    }
                    assert forall|a: int| 0 <= a < m implies category_count(q, picked@, #[trigger] cats[a])
                        == taken@[a] by {
                        assert(category_count(q, picked@, cats[a]) == category_count(q, before, cats[a])
                            + (if cats[a] == c { 1int } else { 0int }));
                        if a != j {
                            assert(cats[a] != cats[j as int]);
                        }
                    }
                    assert forall|d: Seq<char>| (forall|a: int| 0 <= a < m ==> #[trigger] cats[a] != d)
                        implies #[trigger] category_count(q, picked@, d) == 0 by {
                        assert(category_count(q, picked@, d) == category_count(q, before, d)
                            + (if d == c { 1int } else { 0int }));
                        assert(cats[j as int] != d);
                    }
                    let n = before.len() as int;
                    assert forall|k: int| 0 <= k < n implies turn_of(q, picked@, k) == turn_of(q, before, k) by {
                        reveal(turn_of);
                        assert(picked@.take(k) =~= before.take(k));
                        assert(picked@[k] == before[k]);
                    }
                    assert(turn_of(q, picked@, n) == p) by {
                        reveal(turn_of);
                        assert(picked@.take(n) =~= before);
                        assert(category_count(q, before, cats[j as int]) == taken0[j as int]);
                    }
                    assert forall|k: int| 0 <= k < src.len() implies #[trigger] turn_of(q, picked@, k) < p || (turn_of(q, picked@, k) == p
                        && src[k].0 < j + 1) by {
                        if k < n {
                            assert(turn_of(q, picked@, k) == turn_of(q, before, k));
                            assert(src[k] == old_src[k]);
                        }
                    }
                    assert forall|i: int, k: int| 0 <= i < k < src.len() implies #[trigger] turn_of(q, picked@, i) < #[trigger] turn_of(q, picked@, k)
                        || (turn_of(q, picked@, i) == turn_of(q, picked@, k) && src[i].0 < src[k].0) by {
                        assert(turn_of(q, picked@, i) == turn_of(q, before, i));
                        assert(src[i] == old_src[i]);
                        if k < n {
                            assert(turn_of(q, picked@, k) == turn_of(q, before, k));
                            assert(src[k] == old_src[k]);
                        }
                    }
                }
            } else {
                proof {
                    let g1 = groups@.take(j + 1);
                    assert(g1.drop_last() =~= groups@.take(j as int));
                    assert(turn_row(g1, p) == turn_row(groups@.take(j as int), p));
                }
            }
            j = j + 1;
        }
    }
    proof {
        let gv = groups@;
        let full = round_robin_order(gv);
        let big = largest(gv);
        lemma_row_prefix(gv, j as int, p);
        let row = turn_row(gv, p);
        let part = turn_row(gv.take(j as int), p);
        assert(turns_upto(gv, p + 1) == turns_upto(gv, p) + row);
        assert(picked@ =~= turns_upto(gv, p + 1).subrange(0, picked@.len() as int)) by {
            assert(part =~= row.subrange(0, part.len() as int));
        }
        if big <= p + 1 {
            lemma_turns_grow(gv, big, p + 1);
        } else {
            lemma_turns_grow(gv, p + 1, big);
            assert(turns_upto(gv, p + 1) =~= full.subrange(0, turns_upto(gv, p + 1).len() as int));
        }
        assert(picked@ =~= full.subrange(0, picked@.len() as int));
        if picked.len() < count {
            assert(gv.take(m as int) =~= gv);
            lemma_row_empty(gv, p);
            lemma_turns_grow(gv, big, p);
            assert(picked@ =~= full);
        } else if (count as nat) < full.len() {
            assert(first_n(full, count as nat) =~= picked@);
        } else {
            assert(picked@ =~= full);
        }
    }
    proof {
        let pv = pool@;
        let pk = picked@;
        assert(taken_in_turns(q, pk, cats)) by {
            assert(forall|a: int, b: int| 0 <= a < b < cats.len() ==> cats[a] != cats[b]);
            assert forall|k: int| 0 <= k < pk.len() implies q[(#[trigger] pk[k]) as int].category == cats[src[k].0]
                && cats.contains(q[pk[k] as int].category) by {
                let (a, t) = src[k];
                assert(groups@[a]@.contains(pk[k]));
            }
            assert forall|k: int| 0 <= k < pk.len() implies place(cats, q[(#[trigger] pk[k]) as int].category) == src[k].0 by {
                let c = q[pk[k] as int].category;
                assert(cats[src[k].0] == c);
                let b = place(cats, c);
                assert(0 <= b < cats.len() && cats[b] == c);
                if b != src[k].0 {
                    assert(cats[b] != cats[src[k].0]);
                }
            }
            assert forall|i: int, k: int| 0 <= i < k < pk.len() implies turn_of(q, pk, i) < turn_of(q, pk, k) || (turn_of(q, pk, i)
                == turn_of(q, pk, k) && place(cats, q[pk[i] as int].category) < place(cats, q[pk[k] as int].category)) by {
                assert(place(cats, q[pk[i] as int].category) == src[i].0);
                assert(place(cats, q[pk[k] as int].category) == src[k].0);
            }
        }
        assert forall|k: int| 0 <= k < pk.len() implies pv.contains(#[trigger] pk[k]) by {
            let (a, t) = src[k];
            assert(groups@[a]@.contains(pk[k]));
        }
        lemma_distinct_subset_len(pk, pv);
        if pk.len() != count {
            assert forall|x: usize| pv.contains(x) implies pk.contains(x) by {
                let k = choose|k: int| 0 <= k < pv.len() && pv[k] == x;
                assert(cats.contains(q[pv[k] as int].category));
                let a = choose|a: int| 0 <= a < m && #[trigger] cats[a] == q[pv[k] as int].category;
                assert(groups@[a]@.contains(x));
                let t = choose|t: int| 0 <= t < groups@[a]@.len() && groups@[a]@[t] == x;
                assert(taken@[a] == groups@[a]@.len());
            }
        }
        assert forall|c: Seq<char>, d: Seq<char>|
            #![trigger category_count(q, pk, c), category_count(q, pk, d)]
            category_count(q, pk, c) < category_count(q, pv, c) implies category_count(q, pk, c) + 1
                >= category_count(q, pk, d) by {
            if exists|a: int| 0 <= a < m && #[trigger] cats[a] == c {
                let a = choose|a: int| 0 <= a < m && #[trigger] cats[a] == c;
                assert(category_count(q, pk, c) == taken@[a]);
                assert(taken@[a] < groups@[a]@.len());
                if exists|b: int| 0 <= b < m && #[trigger] cats[b] == d {
                    let b = choose|b: int| 0 <= b < m && #[trigger] cats[b] == d;
                    assert(category_count(q, pk, d) == taken@[b]);
                }
            } else {
                let f = pv.filter(in_category(q, c));
                if f.len() > 0 {
                    pv.lemma_filter_pred(in_category(q, c), 0);
                    pv.lemma_filter_contains_rev(in_category(q, c), f[0]);
                    let k = choose|k: int| 0 <= k < pv.len() && pv[k] == f[0];
                    assert(cats.contains(q[pv[k] as int].category));
                    let a = choose|a: int| 0 <= a < m && #[trigger] cats[a] == q[pv[k] as int].category;
                }
            }
        }
    }
    picked
}

/// Draws up to `count` of the questions at positions `pool`: the categories in a random
/// order take turns ([`round_robin`]), each giving its next question in a random order,
/// until `count` questions are drawn or the pool is used up.
pub fn balanced_pick(qs: &Vec<Question>, pool: &Vec<usize>, count: usize) -> (picked: Vec<usize>)
    requires
        forall|k: int| 0 <= k < pool.len() ==> pool@[k] < qs.len(),
        pool@.no_duplicates(),
    ensures
        balanced(qs.deep_view(), pool@, count as nat, picked@),
{
    let ghost q = qs.deep_view();
    let names = category_names(qs, pool);
    let ghost nv = names.deep_view();
    let m = names.len();
    let mut order = positions_below(m);
    let ghost ident = order@;
    shuffle(&mut order);
    proof {
        lemma_same_elements(ident, order@);
        assert forall|a: int| 0 <= a < m implies (#[trigger] order@[a]) < m by {
            assert(order@.contains(order@[a]));
            let k = choose|k: int| 0 <= k < ident.len() && ident[k] == order@[a];
        }
    }
    let mut groups: Vec<Vec<usize>> = Vec::new();
    let mut j: usize = 0;
    while j < m
        invariant
            j <= m,
            m == names.len(),
            nv == names.deep_view(),
            q == qs.deep_view(),
            order.len() == m,
            forall|a: int| 0 <= a < m ==> (#[trigger] order@[a]) < m,
            forall|k: int| 0 <= k < pool.len() ==> pool@[k] < qs.len(),
            groups.len() == j,
            forall|k: int| 0 <= k < ident.len() ==> ident[k] == k,
            ident.len() == m,
            forall|x: usize| ident.contains(x) <==> order@.contains(x),
            order@.no_duplicates(),
            forall|k: int| 0 <= k < pool.len() ==> nv.contains(q[pool@[k] as int].category),
            nv.no_duplicates(),
            forall|a: int| 0 <= a < j ==> (#[trigger] groups@[a])@.to_multiset() == pool@.filter(
                in_category(q, nv[order@[a] as int]),
            ).to_multiset(),
        decreases m - j,
    {
        let mut g = members_of(qs, pool, names[order[j]].as_str());
        let ghost g0 = g@;
        shuffle(&mut g);
        assert(g0 == pool@.filter(in_category(q, nv[order@[j as int] as int])));
        groups.push(g);
        j = j + 1;
    }
    // What each group holds, with `cat(a) == nv[order[a]]` its category.
    proof {
        assert forall|a: int, b: int| 0 <= a < m && 0 <= b < m && a != b implies nv[(#[trigger] order@[a]) as int]
            != nv[(#[trigger] order@[b]) as int] by {
            assert(order@[a] != order@[b]);
        }
        assert forall|a: int| 0 <= a < m implies {
            &&& (#[trigger] groups@[a])@.no_duplicates()
            &&& groups@[a]@.len() == category_count(q, pool@, nv[order@[a] as int])
            &&& forall|x: usize| #[trigger] groups@[a]@.contains(x) <==> pool@.contains(x) && q[x as int].category == nv[order@[a] as int]
        } by {
            let f = pool@.filter(in_category(q, nv[order@[a] as int]));
            lemma_filter_distinct(pool@, in_category(q, nv[order@[a] as int]));
            lemma_same_elements(f, groups@[a]@);
        }
        assert forall|k: int| 0 <= k < pool.len() implies has_slot(nv, order@, #[trigger] q[pool@[k] as int].category) by {
            assert(nv.contains(q[pool@[k] as int].category));
            let n = choose|n: int| 0 <= n < nv.len() && nv[n] == q[pool@[k] as int].category;
            assert(ident[n] == n);
            assert(ident.contains(n as usize));
            assert(order@.contains(n as usize));
            let a = choose|a: int| 0 <= a < order@.len() && order@[a] == n as usize;
        }
    }
    proof {
        assert forall|a: int| 0 <= a < m implies (#[trigger] groups@[a])@.len() > 0 && group_category(q, groups@[a])
            == nv[order@[a] as int] by {
            let n = order@[a] as int;
            assert(pool_has_category(q, pool@, nv[n]));
            let k = choose|k: int| 0 <= k < pool.len() && q[pool@[k] as int].category == nv[n];
            assert(groups@[a]@.contains(pool@[k]));
            assert(groups@[a]@.contains(groups@[a]@[0]));
        }
        assert forall|k: int| 0 <= k < pool@.len() implies has_group(q, groups@, #[trigger] q[pool@[k] as int].category) by {
            assert(has_slot(nv, order@, q[pool@[k] as int].category));
            let a = choose|a: int| 0 <= a < order@.len() && nv[(#[trigger] order@[a]) as int] == q[pool@[k] as int].category;
            assert(group_category(q, groups@[a]) == nv[order@[a] as int]);
            assert(0 <= a < groups@.len() && group_category(q, groups@[a]) == q[pool@[k] as int].category);
        }
        assert forall|a: int, b: int| 0 <= a < m && 0 <= b < m && a != b implies group_category(q, #[trigger] groups@[a])
            != group_category(q, #[trigger] groups@[b]) by {
            assert(nv[order@[a] as int] != nv[order@[b] as int]);
        }
        assert forall|a: int| 0 <= a < m implies {
            &&& (#[trigger] groups@[a])@.len() > 0
            &&& groups@[a]@.no_duplicates()
            &&& forall|x: usize| #[trigger] groups@[a]@.contains(x) <==> pool@.contains(x) && q[x as int].category
                == group_category(q, groups@[a])
        } by {
            assert(group_category(q, groups@[a]) == nv[order@[a] as int]);
        }
    }
    round_robin(qs, pool, &groups, count)
}


/// Whether a prompt counts as drawn recently: it is in the history `kept` and has not been
/// forgotten (`dropped`), so that forgetting a prompt frees it even where the history holds
/// it twice.
pub open spec fn stale(kept: Seq<Seq<char>>, dropped: Seq<Seq<char>>, prompt: Seq<char>) -> bool {
    kept.contains(prompt) && !dropped.contains(prompt)
}

/// The positions below `n` of the questions whose prompt is not stale.
pub open spec fn fresh_positions(qs: Seq<QuestionView>, kept: Seq<Seq<char>>, dropped: Seq<Seq<char>>, n: nat) -> Seq<usize>
    decreases n,
{
    if n == 0 {
        Seq::empty()
    } else {
        let p = fresh_positions(qs, kept, dropped, (n - 1) as nat);
        if stale(kept, dropped, qs[n - 1].prompt) {
            p
        } else {
            p.push((n - 1) as usize)
        }
    }
}

/// The positions of the questions not drawn recently.
pub open spec fn fresh_pool(qs: Seq<QuestionView>, kept: Seq<Seq<char>>, dropped: Seq<Seq<char>>) -> Seq<usize> {
    fresh_positions(qs, kept, dropped, qs.len())
}

/// The history and the forgotten prompts before a draw of `count` questions: the oldest
/// prompts are forgotten until `count` questions are fresh, or nothing is left to forget.
pub open spec fn forget_until(qs: Seq<QuestionView>, kept: Seq<Seq<char>>, dropped: Seq<Seq<char>>, count: nat) -> (
    Seq<Seq<char>>,
    Seq<Seq<char>>,
)
    decreases kept.len(),
{
    if kept.len() == 0 || fresh_pool(qs, kept, dropped).len() >= count {
        (kept, dropped)
    } else {
        forget_until(qs, kept.drop_first(), dropped.push(kept[0]), count)
    }
}

/// The history a draw of `count` questions starts from.
pub open spec fn history_before_draw(qs: Seq<QuestionView>, recent: Seq<Seq<char>>, count: nat) -> Seq<Seq<char>> {
    forget_until(qs, recent, Seq::empty(), count).0
}

/// The prompts forgotten before a draw of `count` questions.
pub open spec fn forgotten_before_draw(qs: Seq<QuestionView>, recent: Seq<Seq<char>>, count: nat) -> Seq<Seq<char>> {
    forget_until(qs, recent, Seq::empty(), count).1
}

/// How many prompts a game's history keeps: three quarters of its questions (rounded
/// down), or the size of the draw if that is larger.
pub open spec fn history_limit(questions: nat, count: nat) -> nat {
    if questions * 3 / 4 > count {
        questions * 3 / 4
    } else {
        count
    }
}

/// The last `n` items of `s` (all of them when there are fewer).
pub open spec fn last_items<A>(s: Seq<A>, n: nat) -> Seq<A> {
    if s.len() > n {
        s.subrange(s.len() - n, s.len() as int)
    } else {
        s
    }
}

/// The prompts of some questions.
pub open spec fn prompts_of(qs: Seq<QuestionView>) -> Seq<Seq<char>> {
    qs.map_values(|q: QuestionView| q.prompt)
}

/// `drawn` is a balanced draw of `count` questions of `qs` given the recent history.
pub open spec fn drawn_from(qs: Seq<QuestionView>, recent: Seq<Seq<char>>, count: nat, drawn: Seq<QuestionView>) -> bool {
    exists|picked: Seq<usize>|
        #[trigger] balanced(
            qs,
            fresh_pool(qs, history_before_draw(qs, recent, count), forgotten_before_draw(qs, recent, count)),
            count,
            picked,
        )
            && drawn == picked.map_values(|i: usize| qs[i as int])
}

/// The history after `drawn` is drawn from `qs`.
pub open spec fn history_after(qs: Seq<QuestionView>, recent: Seq<Seq<char>>, count: nat, drawn: Seq<QuestionView>) -> Seq<Seq<char>> {
    last_items(history_before_draw(qs, recent, count) + prompts_of(drawn), history_limit(qs.len(), count))
}

/// Whether a list of strings holds `s`.
pub fn strings_hold(v: &Vec<String>, s: &str) -> (r: bool)
    ensures
        r == v.deep_view().contains(s@),
{
    holds_name(v, s)
}

/// The positions of the questions whose prompt is not in `recent`.
fn fresh_list(qs: &Vec<Question>, kept: &Vec<String>, dropped: &Vec<String>) -> (f: Vec<usize>)
    ensures
        f@ == fresh_pool(qs.deep_view(), kept.deep_view(), dropped.deep_view()),
        f@.no_duplicates(),
        forall|k: int| 0 <= k < f.len() ==> f@[k] < qs.len(),
{
    let ghost q = qs.deep_view();
    let ghost kv = kept.deep_view();
    let ghost dv = dropped.deep_view();
    let mut f: Vec<usize> = Vec::new();
    let mut i: usize = 0;
    while i < qs.len()
        invariant
            i <= qs.len(),
            q == qs.deep_view(),
            kv == kept.deep_view(),
            dv == dropped.deep_view(),
            f@ == fresh_positions(q, kv, dv, i as nat),
            forall|a: int, b: int| 0 <= a < b < f.len() ==> f@[a] < f@[b],
            forall|k: int| 0 <= k < f.len() ==> f@[k] < i,
        decreases qs.len() - i,
    {
        assert(q[i as int] == qs@[i as int]@);
        let prompt = qs[i].prompt.as_str();
        if !(strings_hold(kept, prompt) && !strings_hold(dropped, prompt)) {
            f.push(i);
        }
        i = i + 1;
    }
    f
}

/// Draws `count` questions of `qs` in a balanced way, given the recent history of this
/// game, and updates that history: prompts are forgotten, oldest first, until `count`
/// questions are fresh (a forgotten prompt is fresh again, even where the history still
/// holds another copy); the drawn prompts are added; the history keeps its last
/// `max(3/4 of the questions, count)` prompts.
pub fn draw_questions(qs: &Vec<Question>, recent: &mut Vec<String>, count: usize) -> (drawn: Vec<Question>)
    requires
        qs.len() <= usize::MAX / 4,
    ensures
        drawn_from(qs.deep_view(), old(recent).deep_view(), count as nat, drawn.deep_view()),
        final(recent).deep_view() == history_after(qs.deep_view(), old(recent).deep_view(), count as nat, drawn.deep_view()),
{
    let ghost q = qs.deep_view();
    let ghost orig = recent.deep_view();
    let mut dropped: Vec<String> = Vec::new();
    assert(dropped.deep_view() =~= Seq::<Seq<char>>::empty());
    loop
        invariant
            q == qs.deep_view(),
            forget_until(q, recent.deep_view(), dropped.deep_view(), count as nat) == forget_until(
                q,
                orig,
                Seq::empty(),
                count as nat,
            ),
        ensures
            forget_until(q, recent.deep_view(), dropped.deep_view(), count as nat) == forget_until(
                q,
                orig,
                Seq::empty(),
                count as nat,
            ),
            recent.len() == 0 || fresh_pool(q, recent.deep_view(), dropped.deep_view()).len() >= count,
        decreases recent.len(),
    {
        if recent.len() == 0 {
            break;
        }
        let fresh = fresh_list(qs, recent, &dropped);
        if fresh.len() >= count {
            break;
        }
        let ghost before = recent.deep_view();
        let ghost dropped_before = dropped.deep_view();
        let oldest = recent.remove(0);
        dropped.push(oldest);
        assert(recent.deep_view() =~= before.drop_first());
        assert(dropped.deep_view() =~= dropped_before.push(before[0]));
    }
    let ghost kept = recent.deep_view();
    assert(kept == history_before_draw(q, orig, count as nat));
    assert(dropped.deep_view() == forgotten_before_draw(q, orig, count as nat));
    let pool = fresh_list(qs, recent, &dropped);
    let picked = balanced_pick(qs, &pool, count);
    let mut drawn: Vec<Question> = Vec::new();
    let mut i: usize = 0;
    while i < picked.len()
        invariant
            i <= picked.len(),
            q == qs.deep_view(),
            forall|k: int| 0 <= k < picked.len() ==> pool@.contains(#[trigger] picked@[k]),
            forall|k: int| 0 <= k < pool.len() ==> pool@[k] < qs.len(),
            drawn.deep_view() =~= picked@.subrange(0, i as int).map_values(|j: usize| q[j as int]),
        decreases picked.len() - i,
    {
        assert(pool@.contains(picked@[i as int]));
        let x = picked[i];
        let d = qs[x].duplicate();
        let ghost before = drawn.deep_view();
        drawn.push(d);
        assert(drawn.deep_view() =~= before.push(q[x as int]));
        assert(picked@.subrange(0, i + 1) =~= picked@.subrange(0, i as int).push(x));
        i = i + 1;
    }
    assert(picked@.subrange(0, picked.len() as int) =~= picked@);
    assert(balanced(
        q,
        fresh_pool(q, history_before_draw(q, orig, count as nat), forgotten_before_draw(q, orig, count as nat)),
        count as nat,
        picked@,
    ));
    let mut k: usize = 0;
    while k < drawn.len()
        invariant
            k <= drawn.len(),
            recent.deep_view() =~= kept + prompts_of(drawn.deep_view()).subrange(0, k as int),
        decreases drawn.len() - k,
    {
        let ghost before = recent.deep_view();
        recent.push(drawn[k].prompt.clone());
        assert(recent.deep_view() =~= before.push(drawn.deep_view()[k as int].prompt));
        k = k + 1;
    }
    assert(prompts_of(drawn.deep_view()).subrange(0, drawn.len() as int) =~= prompts_of(drawn.deep_view()));
    let limit = if qs.len() * 3 / 4 > count {
        qs.len() * 3 / 4
    } else {
        count
    };
    let ghost full = recent.deep_view();
    while recent.len() > limit
        invariant
            recent.deep_view() =~= full.subrange(full.len() - recent.len(), full.len() as int),
            full.len() >= recent.len(),
            full.len() > limit ==> recent.len() >= limit,
            full.len() <= limit ==> recent.len() == full.len(),
        decreases recent.len(),
    {
        let ghost before = recent.deep_view();
        recent.remove(0);
        assert(recent.deep_view() =~= before.drop_first());
    }
    proof {
        if full.len() <= limit {
            assert(recent.deep_view() =~= full);
        }
        assert(limit as nat == history_limit(q.len(), count as nat));
    }
    drawn
}

} // verus!

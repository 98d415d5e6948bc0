//! Lists of per-player entries used as small maps and sets keyed by player id.
use crate::model::{
    PlayerAnswer, PlayerChallenge, PlayerTally, UsedPrompt, Player, ChallengeView, PlayerView,
};
use vstd::prelude::*;

verus! {

/// An entry that belongs to one player.
pub trait Keyed: DeepView + Sized {
    spec fn key_of(v: Self::V) -> u128;

    fn key(&self) -> (k: u128)
        ensures
            k == Self::key_of(self.deep_view()),
    ;
}

impl Keyed for u128 {
    open spec fn key_of(v: u128) -> u128 {
        v
    }

    fn key(&self) -> (k: u128) {
        *self
    }
}

impl Keyed for PlayerAnswer {
    open spec fn key_of(v: (u128, Seq<char>)) -> u128 {
        v.0
    }

    fn key(&self) -> (k: u128) {
        self.player_id
    }
}

impl Keyed for PlayerTally {
    open spec fn key_of(v: (u128, u32)) -> u128 {
        v.0
    }

    fn key(&self) -> (k: u128) {
        self.player_id
    }
}

impl Keyed for PlayerChallenge {
    open spec fn key_of(v: (u128, ChallengeView)) -> u128 {
        v.0
    }

    fn key(&self) -> (k: u128) {
        self.player_id
    }
}

impl Keyed for UsedPrompt {
    open spec fn key_of(v: (u128, Seq<char>)) -> u128 {
        v.0
    }

    fn key(&self) -> (k: u128) {
        self.player_id
    }
}

impl Keyed for Player {
    open spec fn key_of(v: PlayerView) -> u128 {
        v.id
    }

    fn key(&self) -> (k: u128) {
        self.id
    }
}

/// The keys of a list of entries, in order.
pub open spec fn keys<T: Keyed>(s: Seq<T::V>) -> Seq<u128> {
    s.map_values(|v: T::V| T::key_of(v))
}

/// Whether an entry's key differs from `id`.
pub open spec fn key_differs<T: Keyed>(id: u128) -> spec_fn(T::V) -> bool {
    |v: T::V| T::key_of(v) != id
}

/// The entries whose key is not `id`.
pub open spec fn without_key<T: Keyed>(s: Seq<T::V>, id: u128) -> Seq<T::V> {
    s.filter(key_differs::<T>(id))
}

/// The first position of key `id`, or -1 when no entry has it.
pub open spec fn first_index<T: Keyed>(s: Seq<T::V>, id: u128) -> int
    decreases s.len(),
{
    if s.len() == 0 {
        -1
    } else if T::key_of(s[0]) == id {
        0
    } else {
        let k = first_index::<T>(s.drop_first(), id);
        if k < 0 {
            -1
        } else {
            k + 1
        }
    }
}

/// Whether some entry has key `id`.
pub open spec fn has_key<T: Keyed>(s: Seq<T::V>, id: u128) -> bool {
    exists|i: int| 0 <= i < s.len() && T::key_of(#[trigger] s[i]) == id
}

/// Once the entries with key `id` are taken out, none with that key is left, and what is
/// left is among the entries there were.
pub proof fn lemma_without_key<T: Keyed>(s: Seq<T::V>, id: u128)
    ensures
        !has_key::<T>(without_key::<T>(s, id), id),
        forall|i: int| 0 <= i < without_key::<T>(s, id).len() ==> T::key_of(#[trigger] without_key::<T>(s, id)[i]) != id,
{
    let w = without_key::<T>(s, id);
    assert forall|i: int| 0 <= i < w.len() implies T::key_of(#[trigger] w[i]) != id by {
        s.lemma_filter_pred(key_differs::<T>(id), i);
    }
}

pub proof fn lemma_first_index<T: Keyed>(s: Seq<T::V>, id: u128, i: int)
    requires
        0 <= i <= s.len(),
        forall|k: int| 0 <= k < i ==> T::key_of(#[trigger] s[k]) != id,
        i < s.len() ==> T::key_of(s[i]) == id,
    ensures
        first_index::<T>(s, id) == (if i < s.len() {
            i
        } else {
            -1
        }),
    decreases i,
{
    if s.len() > 0 && i > 0 {
        assert forall|k: int| 0 <= k < i - 1 implies T::key_of(#[trigger] s.drop_first()[k])
            != id by {
            assert(s.drop_first()[k] == s[k + 1]);
        }
        lemma_first_index::<T>(s.drop_first(), id, i - 1);
    }
}

pub proof fn lemma_first_index_range<T: Keyed>(s: Seq<T::V>, id: u128)
    ensures
        -1 <= first_index::<T>(s, id) < s.len(),
        first_index::<T>(s, id) >= 0 ==> T::key_of(s[first_index::<T>(s, id)]) == id,
        first_index::<T>(s, id) >= 0 ==> forall|k: int|
            0 <= k < first_index::<T>(s, id) ==> T::key_of(#[trigger] s[k]) != id,
        first_index::<T>(s, id) < 0 <==> !has_key::<T>(s, id),
    decreases s.len(),
{
    if s.len() > 0 {
        lemma_first_index_range::<T>(s.drop_first(), id);
        if T::key_of(s[0]) != id {
            let k = first_index::<T>(s.drop_first(), id);
            if k >= 0 {
                assert forall|j: int| 0 <= j < k + 1 implies T::key_of(#[trigger] s[j]) != id by {
                    if j > 0 {
                        assert(s[j] == s.drop_first()[j - 1]);
                    }
                }
            } else {
                assert forall|j: int| 0 <= j < s.len() implies T::key_of(#[trigger] s[j])
                    != id by {
                    if j > 0 {
                        assert(s[j] == s.drop_first()[j - 1]);
                    }
                }
            }
            if has_key::<T>(s.drop_first(), id) {
                let j = choose|j: int|
                    0 <= j < s.drop_first().len() && T::key_of(#[trigger] s.drop_first()[j]) == id;
                assert(s[j + 1] == s.drop_first()[j]);
            }
        }
    }
}

/// The position of the first entry with key `id`, if any.
pub fn find_key<T: Keyed>(v: &Vec<T>, id: u128) -> (r: Option<usize>)
    ensures
        r.is_some() <==> has_key::<T>(v.deep_view(), id),
        r.is_some() ==> r.unwrap() as int == first_index::<T>(v.deep_view(), id),
        r.is_some() ==> r.unwrap() < v.len(),
        r.is_none() ==> first_index::<T>(v.deep_view(), id) == -1,
{
    let mut i: usize = 0;
    while i < v.len()
        invariant
            i <= v.len(),
            forall|k: int| 0 <= k < i ==> T::key_of(#[trigger] v.deep_view()[k]) != id,
        decreases v.len() - i,
    {
        if v[i].key() == id {
            proof {
                lemma_first_index::<T>(v.deep_view(), id, i as int);
                lemma_first_index_range::<T>(v.deep_view(), id);
            }
            return Some(i);
        }
        i = i + 1;
    }
    proof {
        lemma_first_index::<T>(v.deep_view(), id, i as int);
        lemma_first_index_range::<T>(v.deep_view(), id);
    }
    None
}

/// Whether some entry has key `id`.
pub fn contains_key<T: Keyed>(v: &Vec<T>, id: u128) -> (r: bool)
    ensures
        r == has_key::<T>(v.deep_view(), id),
{
    find_key(v, id).is_some()
}

/// Removes every entry whose key is `id`, keeping the order of the rest.
pub fn drop_key<T: Keyed>(v: &mut Vec<T>, id: u128)
    ensures
        final(v).deep_view() == without_key::<T>(old(v).deep_view(), id),
{
    let ghost orig = old(v).deep_view();
    let mut i: usize = 0;
    let ghost mut j: int = 0;
    while i < v.len()
        invariant
            0 <= j <= orig.len(),
            i <= v.len(),
            v.deep_view() =~= without_key::<T>(orig.subrange(0, j), id) + orig.subrange(
                j,
                orig.len() as int,
            ),
            i == without_key::<T>(orig.subrange(0, j), id).len(),
        decreases v.len() - i,
    {
        let ghost pred = key_differs::<T>(id);
        let ghost done = without_key::<T>(orig.subrange(0, j), id);
        proof {
            orig.subrange(0, j).lemma_filter_push(orig[j], pred);
            assert(orig.subrange(0, j).push(orig[j]) =~= orig.subrange(0, j + 1));
            assert(v.deep_view()[i as int] == orig[j]);
        }
        if v[i].key() == id {
            let ghost before = v.deep_view();
            let _ = v.remove(i);
            assert(v.deep_view() =~= before.remove(i as int));
            assert(without_key::<T>(orig.subrange(0, j + 1), id) == done);
            assert(v.deep_view() =~= done + orig.subrange(j + 1, orig.len() as int));
        } else {
            assert(without_key::<T>(orig.subrange(0, j + 1), id) == done.push(orig[j]));
            assert(v.deep_view() =~= done.push(orig[j]) + orig.subrange(j + 1, orig.len() as int));
            i = i + 1;
        }
        proof {
            j = j + 1;
        }
    }
    assert(orig.subrange(0, j) =~= orig);
}

} // verus!

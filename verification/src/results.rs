//! Round results (vote and option tallies) and the leaderboard.
use crate::catalog::{QuestionView, ResponseMode};
use crate::entries::{find_key, first_index, lemma_first_index_range, Keyed};
use crate::ids::{parse_uuid, uuid_parse, uuid_text, uuid_to_text};
use crate::model::{
    LeaderboardEntry, LeaderboardEntryView, PlayerTally, PlayerView, Room, RoomView,
    RoundResult, RoundResultView,
};
use crate::order::{
    entries_ordered, entries_stable, entry_before, results_ordered, results_stable, sort_entries,
    sort_results, text_less,
};
use crate::room::lemma_vec_push_deep;
use crate::text::{decimal_text, parse_usize, parse_usize_spec, usize_to_text};
use vstd::prelude::*;

verus! {

/// An answer that is a vote for `id`.
pub open spec fn names_player(id: u128) -> spec_fn((u128, Seq<char>)) -> bool {
    |a: (u128, Seq<char>)| uuid_parse(a.1) == Some(id)
}

/// Answers that are a vote for `id`.
pub open spec fn votes_for(answers: Seq<(u128, Seq<char>)>, id: u128) -> nat {
    answers.filter(names_player(id)).len()
}

/// Answers that pick option `index`.
pub open spec fn picks_of(answers: Seq<(u128, Seq<char>)>, index: usize) -> nat {
    answers.filter(|a: (u128, Seq<char>)| parse_usize_spec(a.1) == Some(index)).len()
}

/// The result line of a player in a vote round.
pub open spec fn player_result(answers: Seq<(u128, Seq<char>)>, p: PlayerView) -> RoundResultView {
    RoundResultView {
        id: uuid_text(p.id),
        label: p.nickname,
        votes: votes_for(answers, p.id) as u32,
        player_id: Some(p.id),
        is_correct: None,
    }
}

/// The result line of option `i` of question `q`.
pub open spec fn option_result(
    answers: Seq<(u128, Seq<char>)>,
    q: QuestionView,
    quiz: bool,
    i: int,
) -> RoundResultView {
    RoundResultView {
        id: decimal_text(i as nat),
        label: q.options[i],
        votes: picks_of(answers, i as usize) as u32,
        player_id: None,
        is_correct: if quiz {
            Some(q.correct_option == Some(i as usize))
        } else {
            None
        },
    }
}

/// The result lines of the current round before ordering: one per player in a vote round,
/// one per option of the current question otherwise (none without a question).
pub open spec fn result_lines(r: RoomView) -> Seq<RoundResultView> {
    match r.response_mode {
        ResponseMode::PlayerVote => r.players.map_values(
            |p: PlayerView| player_result(r.answers, p),
        ),
        _ => match r.current_question {
            None => Seq::empty(),
            Some(q) => Seq::new(
                q.options.len(),
                |i: int| option_result(r.answers, q, r.response_mode == ResponseMode::Quiz, i),
            ),
        },
    }
}

/// The score of `id`, 0 when none is recorded.
pub open spec fn score_of(scores: Seq<(u128, u32)>, id: u128) -> u32 {
    let i = first_index::<PlayerTally>(scores, id);
    if i >= 0 {
        scores[i].1
    } else {
        0
    }
}

/// A leaderboard line without its rank.
pub open spec fn unranked(e: LeaderboardEntryView) -> LeaderboardEntryView {
    LeaderboardEntryView { rank: 0, ..e }
}

/// One leaderboard line per player, with the player's score, before ordering and ranking.
pub open spec fn leaderboard_lines(r: RoomView) -> Seq<LeaderboardEntryView> {
    r.players.map_values(
        |p: PlayerView|
            LeaderboardEntryView {
                player_id: p.id,
                nickname: p.nickname,
                score: score_of(r.scores, p.id),
                rank: 0,
            },
    )
}

/// How many of the first `n` entries score more than `x`.
pub open spec fn higher_count(es: Seq<LeaderboardEntryView>, n: int, x: u32) -> nat
    decreases n,
{
    if n <= 0 {
        0
    } else {
        higher_count(es, n - 1, x) + if es[n - 1].score > x {
            1nat
        } else {
            0nat
        }
    }
}

/// Standard competition ranking: one more than the number of entries with a higher score.
pub open spec fn ranked(es: Seq<LeaderboardEntryView>) -> bool {
    forall|i: int|
        0 <= i < es.len() ==> (#[trigger] es[i]).rank == 1 + higher_count(es, es.len() as int, es[i].score)
}

proof fn lemma_higher_count_bound(es: Seq<LeaderboardEntryView>, n: int, x: u32)
    requires
        0 <= n <= es.len(),
    ensures
        higher_count(es, n, x) <= n,
    decreases n,
{
    if n > 0 {
        lemma_higher_count_bound(es, n - 1, x);
    }
}

proof fn lemma_higher_count_suffix(es: Seq<LeaderboardEntryView>, n: int, m: int, x: u32)
    requires
        0 <= n <= m <= es.len(),
        forall|k: int| n <= k < m ==> (#[trigger] es[k]).score <= x,
    ensures
        higher_count(es, m, x) == higher_count(es, n, x),
    decreases m - n,
{
    if m > n {
        lemma_higher_count_suffix(es, n, m - 1, x);
    }
}

proof fn lemma_higher_count_all(es: Seq<LeaderboardEntryView>, n: int, x: u32)
    requires
        0 <= n <= es.len(),
        forall|k: int| 0 <= k < n ==> (#[trigger] es[k]).score > x,
    ensures
        higher_count(es, n, x) == n,
    decreases n,
{
    if n > 0 {
        lemma_higher_count_all(es, n - 1, x);
    }
}

proof fn lemma_higher_count_same(es: Seq<LeaderboardEntryView>, n: int, x: u32, y: u32)
    requires
        0 <= n <= es.len(),
        forall|k: int| 0 <= k < n ==> ((#[trigger] es[k]).score > x <==> es[k].score > y),
    ensures
        higher_count(es, n, x) == higher_count(es, n, y),
    decreases n,
{
    if n > 0 {
        lemma_higher_count_same(es, n - 1, x, y);
    }
}

fn count_votes(answers: &Vec<crate::model::PlayerAnswer>, id: u128) -> (c: u32)
    requires
        answers.len() <= u32::MAX,
    ensures
        c == votes_for(answers.deep_view(), id),
{
    let ghost a = answers.deep_view();
    let ghost pred = |x: (u128, Seq<char>)| uuid_parse(x.1) == Some(id);
    let mut c: u32 = 0;
    let mut i: usize = 0;
    while i < answers.len()
        invariant
            i <= answers.len(),
            answers.len() <= u32::MAX,
            a == answers.deep_view(),
            pred == (|x: (u128, Seq<char>)| uuid_parse(x.1) == Some(id)),
            c == a.subrange(0, i as int).filter(pred).len(),
            c <= i,
        decreases answers.len() - i,
    {
        proof {
            a.subrange(0, i as int).lemma_filter_push(a[i as int], pred);
            assert(a.subrange(0, i as int).push(a[i as int]) =~= a.subrange(0, i + 1));
            assert(a[i as int] == answers[i as int].deep_view());
        }
        if parse_uuid(answers[i].answer.as_str()) == Some(id) {
            c = c + 1;
        }
        i = i + 1;
    }
    assert(a.subrange(0, answers.len() as int) =~= a);
    c
}

fn count_picks(answers: &Vec<crate::model::PlayerAnswer>, index: usize) -> (c: u32)
    requires
        answers.len() <= u32::MAX,
    ensures
        c == picks_of(answers.deep_view(), index),
{
    let ghost a = answers.deep_view();
    let ghost pred = |x: (u128, Seq<char>)| parse_usize_spec(x.1) == Some(index);
    let mut c: u32 = 0;
    let mut i: usize = 0;
    while i < answers.len()
        invariant
            i <= answers.len(),
            answers.len() <= u32::MAX,
            a == answers.deep_view(),
            pred == (|x: (u128, Seq<char>)| parse_usize_spec(x.1) == Some(index)),
            c == a.subrange(0, i as int).filter(pred).len(),
            c <= i,
        decreases answers.len() - i,
    {
        proof {
            a.subrange(0, i as int).lemma_filter_push(a[i as int], pred);
            assert(a.subrange(0, i as int).push(a[i as int]) =~= a.subrange(0, i + 1));
            assert(a[i as int] == answers[i as int].deep_view());
        }
        if parse_usize(answers[i].answer.as_str()) == Some(index) {
            c = c + 1;
        }
        i = i + 1;
    }
    assert(a.subrange(0, answers.len() as int) =~= a);
    c
}

impl Room {
    /// The score recorded for `id`, 0 when none is.
    pub fn score_for(&self, id: u128) -> (s: u32)
        ensures
            s == score_of(self@.scores, id),
    {
        match find_key(&self.scores, id) {
            Some(i) => {
                assert(self@.scores[i as int] == self.scores[i as int].deep_view());
                self.scores[i].value
            },
            None => 0,
        }
    }

    /// The current round's results, most votes first and then by label.
    pub fn calculate_results(&self) -> (r: Vec<RoundResult>)
        requires
            self.answers.len() <= u32::MAX,
        ensures
            r.deep_view().to_multiset() == result_lines(self@).to_multiset(),
            results_ordered(r.deep_view()),
            results_stable(result_lines(self@), r.deep_view()),
    {
        let mut results: Vec<RoundResult> = Vec::new();
        match self.response_mode {
            ResponseMode::PlayerVote => {
                let ghost lines = result_lines(self@);
                let mut i: usize = 0;
                while i < self.players.len()
                    invariant
                        i <= self.players.len(),
                        self.answers.len() <= u32::MAX,
                        self.response_mode == ResponseMode::PlayerVote,
                        lines == result_lines(self@),
                        results.deep_view() =~= lines.subrange(0, i as int),
                    decreases self.players.len() - i,
                {
                    let p = &self.players[i];
                    let line = RoundResult {
                        id: uuid_to_text(p.id),
                        label: p.nickname.clone(),
                        votes: count_votes(&self.answers, p.id),
                        player_id: Some(p.id),
                        is_correct: None,
                    };
                    let ghost before = results;
                    results.push(line);
                    proof {
                        lemma_vec_push_deep(before, results, line);
                        assert(self@.players[i as int] == self.players[i as int].deep_view());
                        assert(lines.subrange(0, i + 1) =~= lines.subrange(0, i as int).push(lines[i as int]));
                    }
                    i = i + 1;
                }
                assert(lines.subrange(0, self.players.len() as int) =~= lines);
            },
            _ => {
                match &self.current_question {
                    None => {
                        assert(results.deep_view() =~= result_lines(self@));
                    },
                    Some(q) => {
                        let quiz = self.response_mode == ResponseMode::Quiz;
                        let ghost lines = result_lines(self@);
                        let mut i: usize = 0;
                        while i < q.options.len()
                            invariant
                                i <= q.options.len(),
                                self.answers.len() <= u32::MAX,
                                self.current_question == Some(*q),
                                self.response_mode != ResponseMode::PlayerVote,
                                quiz == (self.response_mode == ResponseMode::Quiz),
                                lines == result_lines(self@),
                                lines.len() == q.options.len(),
                                results.deep_view() =~= lines.subrange(0, i as int),
                            decreases q.options.len() - i,
                        {
                            let line = RoundResult {
                                id: usize_to_text(i),
                                label: q.options[i].clone(),
                                votes: count_picks(&self.answers, i),
                                player_id: None,
                                is_correct: if quiz {
                                    Some(q.correct_option == Some(i))
                                } else {
                                    None
                                },
                            };
                            let ghost before = results;
                            results.push(line);
                            proof {
                                lemma_vec_push_deep(before, results, line);
                                assert(q@.options[i as int] == q.options[i as int]@);
                                assert(lines.subrange(0, i + 1) =~= lines.subrange(0, i as int).push(lines[i as int]));
                            }
                            i = i + 1;
                        }
                        assert(lines.subrange(0, q.options.len() as int) =~= lines);
                    },
                }
            },
        }
        sort_results(&mut results);
        results
    }

    /// Every player with their score, highest first and then by nickname, with standard
    /// competition ranks (equal scores share a rank; the next rank skips accordingly).
    pub fn leaderboard(&self) -> (r: Vec<LeaderboardEntry>)
        ensures
            r.deep_view().map_values(|e: LeaderboardEntryView| unranked(e)).to_multiset()
                == leaderboard_lines(self@).to_multiset(),
            entries_ordered(r.deep_view()),
            ranked(r.deep_view()),
            entries_stable(leaderboard_lines(self@), r.deep_view().map_values(|e: LeaderboardEntryView| unranked(e))),
    {
        let ghost lines = leaderboard_lines(self@);
        let mut entries: Vec<LeaderboardEntry> = Vec::new();
        let mut i: usize = 0;
        while i < self.players.len()
            invariant
                i <= self.players.len(),
                lines == leaderboard_lines(self@),
                entries.deep_view() =~= lines.subrange(0, i as int),
            decreases self.players.len() - i,
        {
            let p = &self.players[i];
            let e = LeaderboardEntry {
                player_id: p.id,
                nickname: p.nickname.clone(),
                score: self.score_for(p.id),
                rank: 0,
            };
            let ghost before = entries;
            entries.push(e);
            proof {
                lemma_vec_push_deep(before, entries, e);
                assert(self@.players[i as int] == self.players[i as int].deep_view());
                assert(lines.subrange(0, i + 1) =~= lines.subrange(0, i as int).push(lines[i as int]));
            }
            i = i + 1;
        }
        assert(lines.subrange(0, self.players.len() as int) =~= lines);
        let ghost pre = entries.deep_view();
        sort_entries(&mut entries);
        let ghost sorted = entries.deep_view();
        proof {
            pre.to_multiset_ensures();
            sorted.to_multiset_ensures();
            assert forall|j: int| 0 <= j < sorted.len() implies (#[trigger] sorted[j]).rank == 0 by {
                assert(sorted.contains(sorted[j]));
                assert(pre.to_multiset().count(sorted[j]) > 0);
                assert(pre.contains(sorted[j]));
            }
        }
        assert(sorted.map_values(|e: LeaderboardEntryView| unranked(e)) =~= sorted);
        let n = entries.len();
        let mut previous_score: Option<u32> = None;
        let mut previous_rank: usize = 0;
        let mut k: usize = 0;
        while k < n
            invariant
                n == entries.len(),
                n == sorted.len(),
                k <= n,
                entries_ordered(sorted),
                forall|j: int| 0 <= j < n ==> #[trigger] unranked(entries.deep_view()[j]) == sorted[j],
                forall|j: int| 0 <= j < k ==> (#[trigger] entries.deep_view()[j]).rank == 1 + higher_count(sorted, j, sorted[j].score),
                k == 0 ==> previous_score.is_none(),
                k > 0 ==> previous_score == Some(sorted[k - 1].score) && previous_rank == 1 + higher_count(sorted, k - 1, sorted[k - 1].score),
                previous_rank <= k,
                forall|j: int| 0 <= j < n ==> (#[trigger] sorted[j]).rank == 0,
            decreases n - k,
        {
            let score = entries[k].score;
            proof {
                assert(unranked(entries.deep_view()[k as int]) == sorted[k as int]);
                if k > 0 {
                    assert(!entry_before(sorted[k as int], sorted[k - 1]));
                    assert forall|j: int| 0 <= j < k - 1 implies (#[trigger] sorted[j]).score >= sorted[k - 1].score by {
                        lemma_ordered_scores(sorted, j, k - 1);
                    }
                }
            }
            let rank = if previous_score == Some(score) {
                proof {
                    assert forall|j: int| 0 <= j < k - 1 implies ((#[trigger] sorted[j]).score > score <==> sorted[j].score > sorted[k - 1].score) by {
                        lemma_ordered_scores(sorted, j, k - 1);
                    }
                    lemma_higher_count_same(sorted, k - 1, score, sorted[k - 1].score);
                    assert(higher_count(sorted, k as int, score) == higher_count(sorted, k - 1, score));
                }
                previous_rank
            } else {
                proof {
                    assert forall|j: int| 0 <= j < k implies (#[trigger] sorted[j]).score > score by {
                        lemma_ordered_scores(sorted, j, k as int);
                        if j < k - 1 {
                            lemma_ordered_scores(sorted, j, k - 1);
                        }
                        lemma_ordered_scores(sorted, k - 1, k as int);
                    }
                    lemma_higher_count_all(sorted, k as int, score);
                }
                k + 1
            };
            let ghost before = entries;
            entries[k].rank = rank;
            proof {
                lemma_vec_update_deep_rank(before, entries, k as int);
            }
            previous_score = Some(score);
            previous_rank = rank;
            k = k + 1;
        }
        proof {
            assert forall|j: int| 0 <= j < n implies (#[trigger] entries.deep_view()[j]).rank == 1 + higher_count(entries.deep_view(), n as int, entries.deep_view()[j].score) by {
                assert forall|m: int| j <= m < n implies (#[trigger] sorted[m]).score <= sorted[j].score by {
                    if m > j {
                        lemma_ordered_scores(sorted, j, m);
                    }
                }
                lemma_higher_count_suffix(sorted, j, n as int, sorted[j].score);
                assert forall|m: int| 0 <= m < sorted.len() implies (#[trigger] sorted[m]).score == entries.deep_view()[m].score by {
                    assert(unranked(entries.deep_view()[m]) == sorted[m]);
                }
                lemma_higher_count_same_seq(sorted, entries.deep_view(), n as int, sorted[j].score);
                assert(unranked(entries.deep_view()[j]) == sorted[j]);
            }
            assert(entries.deep_view().map_values(|e: LeaderboardEntryView| unranked(e)) =~= sorted);
            assert forall|a: int, b: int| 0 <= a < b < n implies !entry_before(#[trigger] entries.deep_view()[b], #[trigger] entries.deep_view()[a]) by {
                assert(unranked(entries.deep_view()[a]) == sorted[a]);
                assert(unranked(entries.deep_view()[b]) == sorted[b]);
            }
        }
        entries
    }
}

proof fn lemma_ordered_scores(s: Seq<LeaderboardEntryView>, i: int, j: int)
    requires
        entries_ordered(s),
        0 <= i < j < s.len(),
    ensures
        s[i].score >= s[j].score,
{
    assert(!entry_before(s[j], s[i]));
}

proof fn lemma_higher_count_same_seq(a: Seq<LeaderboardEntryView>, b: Seq<LeaderboardEntryView>, n: int, x: u32)
    requires
        0 <= n <= a.len(),
        a.len() == b.len(),
        forall|k: int| 0 <= k < a.len() ==> (#[trigger] a[k]).score == b[k].score,
    ensures
        higher_count(a, n, x) == higher_count(b, n, x),
    decreases n,
{
    if n > 0 {
        lemma_higher_count_same_seq(a, b, n - 1, x);
    }
}

/// Two ranked leaderboards, each in order and stably from the same lines, are the same.
pub proof fn lemma_leaderboard_unique(lines: Seq<LeaderboardEntryView>, a: Seq<LeaderboardEntryView>, b: Seq<LeaderboardEntryView>)
    requires
        a.map_values(|e: LeaderboardEntryView| unranked(e)).to_multiset() == lines.to_multiset(),
        b.map_values(|e: LeaderboardEntryView| unranked(e)).to_multiset() == lines.to_multiset(),
        entries_ordered(a),
        entries_ordered(b),
        ranked(a),
        ranked(b),
        entries_stable(lines, a.map_values(|e: LeaderboardEntryView| unranked(e))),
        entries_stable(lines, b.map_values(|e: LeaderboardEntryView| unranked(e))),
    ensures
        a == b,
{
    let ua = a.map_values(|e: LeaderboardEntryView| unranked(e));
    let ub = b.map_values(|e: LeaderboardEntryView| unranked(e));
    assert(entries_ordered(ua)) by {
        assert forall|i: int, j: int| 0 <= i < j < ua.len() implies !entry_before(#[trigger] ua[j], #[trigger] ua[i]) by {
            assert(!entry_before(a[j], a[i]));
        }
    }
    assert(entries_ordered(ub)) by {
        assert forall|i: int, j: int| 0 <= i < j < ub.len() implies !entry_before(#[trigger] ub[j], #[trigger] ub[i]) by {
            assert(!entry_before(b[j], b[i]));
        }
    }
    crate::order::lemma_entries_unique(lines, ua, ub);
    assert(a.len() == b.len()) by {
        assert(ua.len() == ub.len());
    }
    assert forall|k: int| 0 <= k < a.len() implies (#[trigger] a[k]).score == b[k].score by {
        assert(ua[k] == ub[k]);
    }
    assert forall|k: int| 0 <= k < a.len() implies #[trigger] a[k] == b[k] by {
        assert(ua[k] == ub[k]);
        lemma_higher_count_same_seq(a, b, a.len() as int, a[k].score);
    }
    assert(a =~= b);
}

proof fn lemma_vec_update_deep_rank(before: Vec<LeaderboardEntry>, after: Vec<LeaderboardEntry>, k: int)
    requires
        0 <= k < before.len(),
        after@ =~= before@.update(k, after@[k]),
        after@[k].player_id == before@[k].player_id,
        after@[k].nickname == before@[k].nickname,
        after@[k].score == before@[k].score,
    ensures
        after.deep_view().len() == before.deep_view().len(),
        forall|j: int| 0 <= j < before.len() && j != k ==> #[trigger] after.deep_view()[j] == before.deep_view()[j],
        unranked(after.deep_view()[k]) == unranked(before.deep_view()[k]),
        after.deep_view()[k].rank == after@[k].rank,
{
}

} // verus!

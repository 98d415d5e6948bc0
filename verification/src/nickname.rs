//! Nickname rules: trimming, length and character checks, and case-insensitive de-duplication.
use crate::model::{ErrorCode, GameError, Player, PlayerView, MAX_PLAYERS};
use crate::text::{ascii_lower, ascii_lower_char, digit_char, 
    any_control, decimal_text, eq_ignore_ascii_case, eq_ignore_case, has_control, push_char, trim,
    trim_spec, usize_to_text,
};
use vstd::prelude::*;

verus! {

/// The longest nickname, in characters.
pub const MAX_NICKNAME_CHARS: usize = 20;

/// A trimmed nickname is acceptable: 1 to 20 characters, none of them a control character.
pub open spec fn nickname_ok(s: Seq<char>) -> bool {
    1 <= s.len() <= 20 && !has_control(s)
}

/// Trims `nickname` and checks it.
pub fn validate_nickname(nickname: &str) -> (r: Result<String, GameError>)
    ensures
        r.is_ok() <==> nickname_ok(trim_spec(nickname@)),
        r.is_ok() ==> r.unwrap()@ == trim_spec(nickname@),
        r.is_err() ==> r.unwrap_err()@ == (
            ErrorCode::InvalidNickname,
            "Nickname must be 1 to 20 characters and contain no control characters."@,
        ),
{
    let trimmed = trim(nickname);
    let length = trimmed.as_str().unicode_len();
    if !(1 <= length && length <= MAX_NICKNAME_CHARS) || any_control(trimmed.as_str()) {
        return Err(
            GameError::new(
                ErrorCode::InvalidNickname,
                "Nickname must be 1 to 20 characters and contain no control characters.",
            ),
        );
    }
    Ok(trimmed)
}

/// The text added to a nickname to tell it apart: a space and the number in brackets.
pub open spec fn nickname_suffix(n: nat) -> Seq<char> {
    seq![' ', '('] + decimal_text(n) + seq![')']
}

/// The first `k` characters of `s` (all of `s` when it is shorter).
pub open spec fn char_prefix(s: Seq<char>, k: int) -> Seq<char> {
    if 0 <= k < s.len() {
        s.subrange(0, k)
    } else if k < 0 {
        Seq::empty()
    } else {
        s
    }
}

/// `requested`, cut so that with its number it still fits in 20 characters, then numbered.
pub open spec fn suffixed_nickname(requested: Seq<char>, n: nat) -> Seq<char> {
    char_prefix(requested, 20 - nickname_suffix(n).len()) + nickname_suffix(n)
}

/// Some player already has `name`, ignoring ASCII case.
pub open spec fn nickname_taken(players: Seq<PlayerView>, name: Seq<char>) -> bool {
    exists|i: int| 0 <= i < players.len() && eq_ignore_case(#[trigger] players[i].nickname, name)
}

/// The first numbered form of `requested`, from `n` up to 13, that nobody has; `requested`
/// itself when all are taken.
pub open spec fn first_free_suffixed(players: Seq<PlayerView>, requested: Seq<char>, n: nat) -> Seq<
    char,
>
    decreases 14 - n,
{
    if n > 13 {
        requested
    } else if !nickname_taken(players, suffixed_nickname(requested, n)) {
        suffixed_nickname(requested, n)
    } else {
        first_free_suffixed(players, requested, n + 1)
    }
}

/// The nickname a newcomer gets: the requested one when free, else its first free numbered form.
pub open spec fn unique_nickname_spec(players: Seq<PlayerView>, requested: Seq<char>) -> Seq<char> {
    if !nickname_taken(players, requested) {
        requested
    } else {
        first_free_suffixed(players, requested, 2)
    }
}

fn nickname_in_use(players: &Vec<Player>, name: &str) -> (r: bool)
    ensures
        r == nickname_taken(players.deep_view(), name@),
{
    let mut i: usize = 0;
    while i < players.len()
        invariant
            i <= players.len(),
            forall|k: int|
                0 <= k < i ==> !eq_ignore_case(#[trigger] players.deep_view()[k].nickname, name@),
        decreases players.len() - i,
    {
        if eq_ignore_ascii_case(players[i].nickname.as_str(), name) {
            assert(players.deep_view()[i as int].nickname == players[i as int].nickname@);
            return true;
        }
        i = i + 1;
    }
    false
}

fn suffix_text(n: usize) -> (r: String)
    ensures
        r@ == nickname_suffix(n as nat),
{
    let mut r = String::new();
    push_char(&mut r, ' ');
    push_char(&mut r, '(');
    let digits = usize_to_text(n);
    r.append(digits.as_str());
    push_char(&mut r, ')');
    assert(r@ =~= nickname_suffix(n as nat));
    r
}

fn numbered_nickname(requested: &str, n: usize) -> (r: String)
    ensures
        r@ == suffixed_nickname(requested@, n as nat),
{
    let suffix = suffix_text(n);
    let suffix_len = suffix.as_str().unicode_len();
    let keep: usize = MAX_NICKNAME_CHARS.saturating_sub(suffix_len);
    let len = requested.unicode_len();
    let cut = if keep < len {
        keep
    } else {
        len
    };
    let base = requested.substring_char(0, cut);
    let mut r = base.to_owned();
    r.append(suffix.as_str());
    proof {
        if 20 - nickname_suffix(n as nat).len() < 0 {
            assert(keep == 0);
            assert(base@ =~= Seq::<char>::empty());
        } else if keep >= len {
            assert(base@ =~= requested@);
        }
    }
    r
}

/// A nickname nobody in `players` has (ignoring ASCII case), derived from `requested`.
pub fn unique_nickname(players: &Vec<Player>, requested: &str) -> (r: String)
    ensures
        r@ == unique_nickname_spec(players.deep_view(), requested@),
{
    if !nickname_in_use(players, requested) {
        return requested.to_owned();
    }
    let mut n: usize = 2;
    while n <= MAX_PLAYERS + 1
        invariant
            2 <= n <= 14,
            nickname_taken(players.deep_view(), requested@),
            first_free_suffixed(players.deep_view(), requested@, 2) == first_free_suffixed(
                players.deep_view(),
                requested@,
                n as nat,
            ),
        decreases 14 - n,
    {
        let candidate = numbered_nickname(requested, n);
        if !nickname_in_use(players, candidate.as_str()) {
            return candidate;
        }
        n = n + 1;
    }
    requested.to_owned()
}

} // verus!

verus! {

proof fn lemma_lower_equal_at(a: Seq<char>, b: Seq<char>, k: int)
    requires
        eq_ignore_case(a, b),
        0 <= k < a.len(),
    ensures
        a.len() == b.len(),
        ascii_lower_char(a[k]) == ascii_lower_char(b[k]),
{
    assert(ascii_lower(a).len() == a.len());
    assert(ascii_lower(b).len() == b.len());
    assert(ascii_lower(a)[k] == ascii_lower_char(a[k]));
    assert(ascii_lower(b)[k] == ascii_lower_char(b[k]));
}

proof fn lemma_suffix_shape(n: nat)
    requires
        2 <= n <= 13,
    ensures
        n < 10 ==> nickname_suffix(n) == seq![' ', '(', digit_char(n), ')'],
        n >= 10 ==> nickname_suffix(n) == seq![' ', '(', '1', digit_char((n - 10) as nat), ')'],
{
    reveal_with_fuel(decimal_text, 3);
    if n >= 10 {
        assert(decimal_text(n / 10) == seq!['1']);
        assert(n % 10 == n - 10);
        assert(decimal_text(n) =~= seq!['1', digit_char((n - 10) as nat)]);
        assert(nickname_suffix(n) =~= seq![' ', '(', '1', digit_char((n - 10) as nat), ')']);
    } else {
        assert(nickname_suffix(n) =~= seq![' ', '(', digit_char(n), ')']);
    }
}

/// The numbered forms of a nickname differ from one another, ignoring ASCII case.
proof fn lemma_numbered_forms_differ(requested: Seq<char>, a: nat, b: nat)
    requires
        2 <= a <= 13,
        2 <= b <= 13,
        a != b,
    ensures
        !eq_ignore_case(suffixed_nickname(requested, a), suffixed_nickname(requested, b)),
{
    lemma_suffix_shape(a);
    lemma_suffix_shape(b);
    let sa = nickname_suffix(a);
    let sb = nickname_suffix(b);
    let pa = char_prefix(requested, 20 - sa.len());
    let pb = char_prefix(requested, 20 - sb.len());
    let ca = suffixed_nickname(requested, a);
    let cb = suffixed_nickname(requested, b);
    assert(ca == pa + sa);
    assert(cb == pb + sb);
    if eq_ignore_case(ca, cb) {
        if a < 10 && b < 10 {
            assert(pa == pb);
            let k: int = pa.len() as int + 2;
            lemma_lower_equal_at(ca, cb, k);
            assert(ca[k] == digit_char(a));
            assert(cb[k] == digit_char(b));
        } else if a >= 10 && b >= 10 {
            assert(pa == pb);
            let k: int = pa.len() as int + 3;
            lemma_lower_equal_at(ca, cb, k);
            assert(ca[k] == digit_char((a - 10) as nat));
            assert(cb[k] == digit_char((b - 10) as nat));
        } else if requested.len() <= 15 {
            assert(pa == requested);
            assert(pb == requested);
            lemma_lower_equal_at(ca, cb, 0);
        } else if a < 10 {
            assert(pa.len() == 16 && pb.len() == 15);
            lemma_lower_equal_at(ca, cb, 16);
            assert(ca[16] == ' ');
            assert(cb[16] == '(');
        } else {
            assert(pa.len() == 15 && pb.len() == 16);
            lemma_lower_equal_at(ca, cb, 16);
            assert(ca[16] == '(');
            assert(cb[16] == ' ');
        }
    }
}

proof fn lemma_first_free(players: Seq<PlayerView>, requested: Seq<char>, n: nat, m: nat)
    requires
        n <= m <= 13,
        !nickname_taken(players, suffixed_nickname(requested, m)),
    ensures
        !nickname_taken(players, first_free_suffixed(players, requested, n)),
    decreases 14 - n,
{
    if n < m && nickname_taken(players, suffixed_nickname(requested, n)) {
        lemma_first_free(players, requested, n + 1, m);
    }
}

/// With room for a newcomer (fewer than twelve players), the nickname they are given is used
/// by nobody in the room, ignoring ASCII case: the requested one when it is free, otherwise
/// one of its twelve numbered forms, of which the players can take at most eleven.
pub proof fn law_nickname_is_free(players: Seq<PlayerView>, requested: Seq<char>)
    requires
        players.len() < MAX_PLAYERS,
    ensures
        !nickname_taken(players, unique_nickname_spec(players, requested)),
{
    if nickname_taken(players, requested) {
        if forall|n: nat| 2 <= n <= 13 ==> nickname_taken(players, #[trigger] suffixed_nickname(requested, n)) {
            let holder = |n: int|
                choose|i: int| 0 <= i < players.len() && eq_ignore_case(
                    players[i].nickname,
                    suffixed_nickname(requested, n as nat),
                );
            let numbers = vstd::set_lib::set_int_range(2, 14);
            assert forall|a: int| numbers.contains(a) implies 0 <= #[trigger] holder(a) < players.len()
                && eq_ignore_case(players[holder(a)].nickname, suffixed_nickname(requested, a as nat)) by {
                assert(nickname_taken(players, suffixed_nickname(requested, a as nat)));
            }
            assert(vstd::relations::injective_on(holder, numbers)) by {
                assert forall|a: int, b: int| numbers.contains(a) && numbers.contains(b) && #[trigger] holder(a)
                    == #[trigger] holder(b) implies a == b by {
                    if a != b {
                        lemma_numbered_forms_differ(requested, a as nat, b as nat);
                    }
                }
            }
            vstd::set_lib::lemma_int_range(2, 14);
            vstd::set_lib::lemma_int_range(0, players.len() as int);
            let image = numbers.map(holder);
            vstd::set_lib::lemma_map_size(numbers, image, holder);
            assert(image.subset_of(vstd::set_lib::set_int_range(0, players.len() as int)));
            vstd::set_lib::lemma_len_subset(image, vstd::set_lib::set_int_range(0, players.len() as int));
            assert(false);
        }
        let m = choose|n: nat| 2 <= n <= 13 && !nickname_taken(players, #[trigger] suffixed_nickname(requested, n));
        lemma_first_free(players, requested, 2, m);
    }
}

} // verus!

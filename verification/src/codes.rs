//! Room codes and secret tokens, made from random bytes.
use crate::ids::random_bytes;
use crate::text::{hex_digit, hex_digit_char, hex_text, push_char};
use vstd::prelude::*;

verus! {

/// The length of a room code.
pub const ROOM_CODE_LEN: usize = 6;

/// The number of random bytes in a token.
pub const TOKEN_BYTES: usize = 32;

/// The character for `i < 32` in the room-code alphabet `ABCDEFGHJKLMNPQRSTUVWXYZ23456789`,
/// which leaves out the look-alikes `I`, `O`, `0` and `1`.
pub open spec fn code_char(i: nat) -> char {
    if i < 8 {
        (65 + i) as char
    } else if i < 13 {
        (74 + (i - 8)) as char
    } else if i < 24 {
        (80 + (i - 13)) as char
    } else {
        (50 + (i - 24)) as char
    }
}

/// The room code made from random bytes: each byte picks a character of the alphabet.
pub open spec fn code_from_bytes(bytes: Seq<u8>) -> Seq<char> {
    bytes.map_values(|b: u8| code_char((b % 32) as nat))
}

/// A room code: six characters of the alphabet.
pub open spec fn is_room_code(c: Seq<char>) -> bool {
    c.len() == ROOM_CODE_LEN && forall|i: int| 0 <= i < c.len() ==> unambiguous_code_char(#[trigger] c[i])
}

/// The place of character `c` in the room-code alphabet.
pub open spec fn code_index(c: char) -> u8 {
    let n = c as u32;
    if n < 65 {
        (n - 26) as u8
    } else if n < 73 {
        (n - 65) as u8
    } else if n < 79 {
        (n - 66) as u8
    } else {
        (n - 67) as u8
    }
}

/// Each character a room code may hold has its place in the alphabet.
pub proof fn lemma_code_index(c: char)
    requires
        unambiguous_code_char(c),
    ensures
        code_index(c) < 32,
        code_char(code_index(c) as nat) == c,
{
}

/// The places in the alphabet of the characters of `c`.
pub open spec fn code_bytes(c: Seq<char>) -> Seq<u8> {
    c.map_values(|x: char| code_index(x))
}

/// Every room code is made from some bytes below 32.
pub proof fn lemma_room_code_bytes(c: Seq<char>)
    requires
        is_room_code(c),
    ensures
        code_bytes(c).len() == ROOM_CODE_LEN,
        forall|i: int| 0 <= i < ROOM_CODE_LEN ==> #[trigger] code_bytes(c)[i] < 32,
        code_from_bytes(code_bytes(c)) == c,
{
    let b = code_bytes(c);
    assert forall|i: int| 0 <= i < ROOM_CODE_LEN implies #[trigger] b[i] < 32 && code_char((b[i] % 32) as nat) == c[i] by {
        lemma_code_index(c[i]);
    }
    assert(code_from_bytes(b) =~= c);
}

/// The token made from random bytes: each byte as two lower-case hexadecimal digits.
pub open spec fn token_from_bytes(bytes: Seq<u8>) -> Seq<char>
    decreases bytes.len(),
{
    if bytes.len() == 0 {
        Seq::empty()
    } else {
        token_from_bytes(bytes.drop_last()) + hex_text(bytes.last() as nat, 2)
    }
}

/// A character a room code may hold: an upper-case letter or a digit, none of `O0I1`.
pub open spec fn unambiguous_code_char(c: char) -> bool {
    (('A' <= c && c <= 'Z') || ('0' <= c && c <= '9')) && c != 'O' && c != '0' && c != 'I' && c != '1'
}

fn alphabet_char(i: u8) -> (c: char)
    requires
        i < 32,
    ensures
        c == code_char(i as nat),
{
    if i < 8 {
        (65 + i) as char
    } else if i < 13 {
        (74 + (i - 8)) as char
    } else if i < 24 {
        (80 + (i - 13)) as char
    } else {
        (50 + (i - 24)) as char
    }
}

/// The room code for the given random bytes.
pub fn room_code_from_bytes(bytes: &Vec<u8>) -> (code: String)
    ensures
        code@ == code_from_bytes(bytes@),
{
    let mut code = String::new();
    let mut i: usize = 0;
    while i < bytes.len()
        invariant
            i <= bytes.len(),
            code@ =~= code_from_bytes(bytes@.subrange(0, i as int)),
        decreases bytes.len() - i,
    {
        let c = alphabet_char(bytes[i] % 32);
        push_char(&mut code, c);
        assert(code_from_bytes(bytes@.subrange(0, i + 1)) =~= code_from_bytes(bytes@.subrange(0, i as int)).push(c));
        i = i + 1;
    }
    assert(bytes@.subrange(0, bytes.len() as int) =~= bytes@);
    code
}

/// The token for the given random bytes.
pub fn token_from_byte_list(bytes: &Vec<u8>) -> (token: String)
    ensures
        token@ == token_from_bytes(bytes@),
{
    let mut token = String::new();
    let mut i: usize = 0;
    while i < bytes.len()
        invariant
            i <= bytes.len(),
            token@ == token_from_bytes(bytes@.subrange(0, i as int)),
        decreases bytes.len() - i,
    {
        let b = bytes[i];
        push_char(&mut token, hex_digit(b / 16));
        push_char(&mut token, hex_digit(b % 16));
        proof {
            assert(bytes@.subrange(0, i + 1).drop_last() =~= bytes@.subrange(0, i as int));
            assert(hex_text(b as nat, 2) =~= seq![hex_digit_char((b / 16) as nat), hex_digit_char((b % 16) as nat)]) by {
                reveal_with_fuel(hex_text, 3);
                assert((b as nat / 16) % 16 == (b / 16) as nat);
                assert(hex_text((b as nat / 16) as nat, 1) =~= seq![hex_digit_char((b / 16) as nat)]);
            }
        }
        i = i + 1;
    }
    assert(bytes@.subrange(0, bytes.len() as int) =~= bytes@);
    token
}

/// A fresh random room code.
pub fn generate_room_code() -> (code: String)
    ensures
        code@.len() == ROOM_CODE_LEN,
        forall|i: int| 0 <= i < code@.len() ==> unambiguous_code_char(#[trigger] code@[i]),
{
    let bytes = random_bytes(ROOM_CODE_LEN);
    let code = room_code_from_bytes(&bytes);
    proof {
        assert forall|i: int| 0 <= i < code@.len() implies unambiguous_code_char(#[trigger] code@[i]) by {
            let k = (bytes@[i] % 32) as nat;
            assert(code@[i] == code_char(k));
        }
    }
    code
}

/// `count` fresh random room codes, drawn one after another.
pub fn draw_room_codes(count: usize) -> (codes: Vec<String>)
    ensures
        codes.len() == count,
        forall|i: int| 0 <= i < count ==> is_room_code(#[trigger] codes@[i]@),
{
    let mut codes: Vec<String> = Vec::new();
    while codes.len() < count
        invariant
            codes.len() <= count,
            forall|i: int| 0 <= i < codes.len() ==> is_room_code(#[trigger] codes@[i]@),
        decreases count - codes.len(),
    {
        let code = generate_room_code();
        codes.push(code);
    }
    codes
}

/// A fresh random secret token: 64 lower-case hexadecimal digits.
pub fn generate_token() -> (token: String)
    ensures
        exists|bytes: Seq<u8>| bytes.len() == TOKEN_BYTES && token@ == token_from_bytes(bytes),
{
    let bytes = random_bytes(TOKEN_BYTES);
    token_from_byte_list(&bytes)
}

} // verus!

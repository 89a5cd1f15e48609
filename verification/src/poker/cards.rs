use vstd::prelude::*;
use vstd::string::*;

verus! {

/// A playing card. Ranks run 2..=14 (ace high) for the standard deck; the
/// text notation also admits the digits 0 and 1.
#[derive(Clone, Copy, Debug, PartialEq, Eq, Structural)]
pub struct Card {
    pub rank: u8,
    pub suit: char,
}

/// The rank denoted by the first byte of a two-byte card code:
/// `A K Q J T` for 14..10, and a decimal digit for its own value.
pub open spec fn rank_of_symbol(b: u8) -> Option<u8> {
    if b == 0x41 {
        Some(14u8)
    } else if b == 0x4b {
        Some(13u8)
    } else if b == 0x51 {
        Some(12u8)
    } else if b == 0x4a {
        Some(11u8)
    } else if b == 0x54 {
        Some(10u8)
    } else if 0x30 <= b <= 0x39 {
        Some((b - 0x30) as u8)
    } else {
        None
    }
}

/// The card that a byte string of a card code denotes: exactly two bytes,
/// a rank symbol followed by the suit character.
pub open spec fn card_of_bytes(b: Seq<u8>) -> Option<Card> {
    if b.len() != 2 {
        None
    } else {
        match rank_of_symbol(b[0]) {
            Some(r) => Some(Card { rank: r, suit: b[1] as char }),
            None => None,
        }
    }
}

/// A two-byte text whose first byte does not start a character of its own
/// (a single two-byte character) cannot be cut after its first byte.
pub open spec fn card_code_splittable(b: Seq<u8>) -> bool {
    b.len() == 2 ==> b[0] < 0x80
}

/// Both bytes form one two-byte UTF-8 character.
pub open spec fn is_two_byte_char(b0: u8, b1: u8) -> bool {
    0xc2 <= b0 <= 0xdf && 0x80 <= b1 <= 0xbf
}

/// The cards read from consecutive two-byte chunks of `b`: a chunk of two
/// ASCII bytes contributes its card if it denotes one; any other chunk, and
/// a trailing single byte, contributes nothing.
pub open spec fn hand_of_bytes(b: Seq<u8>) -> Seq<Card>
    decreases b.len(),
{
    if b.len() < 2 {
        seq![]
    } else {
        let rest = hand_of_bytes(b.skip(2));
        if b[0] < 0x80 && b[1] < 0x80 {
            match card_of_bytes(b.take(2)) {
                Some(c) => seq![c] + rest,
                None => rest,
            }
        } else {
            rest
        }
    }
}

/// No two-byte chunk of `b` (at an even offset) is a single two-byte
/// character; such a chunk cannot be read as a card code.
pub open spec fn hand_text_readable(b: Seq<u8>) -> bool {
    forall|i: int|
        0 <= i && i + 1 < b.len() && i % 2 == 0 ==> !is_two_byte_char(#[trigger] b[i], b[i + 1])
}

/// Reading a hand text piece by piece: when the first piece has an even
/// number of bytes, the cards of the whole are the cards of the first
/// piece followed by those of the second.
pub proof fn law_hand_of_bytes_concat(a: Seq<u8>, b: Seq<u8>)
    requires
        a.len() % 2 == 0,
    ensures
        hand_of_bytes(a + b) == hand_of_bytes(a) + hand_of_bytes(b),
    decreases a.len(),
{
    if a.len() == 0 {
        assert(a + b =~= b);
    } else {
        assert((a + b).skip(2) =~= a.skip(2) + b);
        assert((a + b).take(2) =~= a.take(2));
        law_hand_of_bytes_concat(a.skip(2), b);
        let rest = hand_of_bytes(a.skip(2) + b);
        match card_of_bytes(a.take(2)) {
            Some(c) => {
                assert(seq![c] + hand_of_bytes(a.skip(2)) + hand_of_bytes(b) =~= seq![c] + (
                hand_of_bytes(a.skip(2)) + hand_of_bytes(b)));
            },
            None => {},
        }
    }
}

pub fn rank_of_symbol_byte(b: u8) -> (r: Option<u8>)
    ensures
        r == rank_of_symbol(b),
{
    if b == 0x41 {
        Some(14)
    } else if b == 0x4b {
        Some(13)
    } else if b == 0x51 {
        Some(12)
    } else if b == 0x4a {
        Some(11)
    } else if b == 0x54 {
        Some(10)
    } else if 0x30 <= b && b <= 0x39 {
        Some(b - 0x30)
    } else {
        None
    }
}

/// Reads the card code made of the two bytes `b0 b1`.
pub fn card_of_byte_pair(b0: u8, b1: u8) -> (r: Option<Card>)
    ensures
        r == card_of_bytes(seq![b0, b1]),
{
    match rank_of_symbol_byte(b0) {
        Some(rank) => Some(Card { rank, suit: b1 as char }),
        None => None,
    }
}

/// Parses a two-character card code such as `"Ah"` or `"9c"`.
pub fn parse_card(s: &str) -> (r: Option<Card>)
    requires
        card_code_splittable(s.spec_bytes()),
    ensures
        r == card_of_bytes(s.spec_bytes()),
{
    let b = s.as_bytes();
    if b.len() != 2 {
        return None;
    }
    let r = card_of_byte_pair(b[0], b[1]);
    assert(b@ =~= seq![b[0], b[1]]);
    r
}

/// Reads cards from consecutive two-byte chunks of `s`, skipping the chunks
/// that are no card code.
pub fn parse_hand(s: &str) -> (r: Vec<Card>)
    requires
        hand_text_readable(s.spec_bytes()),
    ensures
        r@ == hand_of_bytes(s.spec_bytes()),
{
    let b = s.as_bytes();
    let n = b.len();
    let mut out: Vec<Card> = Vec::new();
    let mut i: usize = 0;
    assert(b@.skip(0) =~= b@);
    while i + 1 < n
        invariant
            n == b@.len(),
            i <= n,
            i % 2 == 0,
            hand_of_bytes(b@) == out@ + hand_of_bytes(b@.skip(i as int)),
        decreases n - i,
    {
        let ghost rest = b@.skip(i as int);
        assert(rest.skip(2) =~= b@.skip(i + 2));
        assert(rest.take(2) =~= seq![b@[i as int], b@[i + 1]]);
        let ghost prev = out@;
        if b[i] < 0x80 && b[i + 1] < 0x80 {
            match card_of_byte_pair(b[i], b[i + 1]) {
                Some(c) => {
                    out.push(c);
                    assert(prev + (seq![c] + hand_of_bytes(b@.skip(i + 2))) =~= out@ + hand_of_bytes(
                        b@.skip(i + 2),
                    ));
                },
                None => {},
            }
        }
        i = i + 2;
    }
    assert(out@ + hand_of_bytes(b@.skip(i as int)) =~= out@);
    out
}

/// Whether `parse_hand` can read `s`: no two-byte chunk of it is a single
/// two-byte character.
pub fn hand_text_is_readable(s: &str) -> (r: bool)
    ensures
        r == hand_text_readable(s.spec_bytes()),
{
    let b = s.as_bytes();
    let n = b.len();
    let mut i: usize = 0;
    while i + 1 < n
        invariant
            n == b@.len(),
            i <= n,
            i % 2 == 0,
            b@ == s.spec_bytes(),
            forall|j: int| 0 <= j < i && j + 1 < n && j % 2 == 0 ==> !is_two_byte_char(#[trigger] b@[j], b@[j + 1]),
        decreases n - i,
    {
        if 0xc2 <= b[i] && b[i] <= 0xdf && 0x80 <= b[i + 1] && b[i + 1] <= 0xbf {
            assert(!hand_text_readable(s.spec_bytes())) by {
                let k = i as int;
                assert(0 <= k && k + 1 < b@.len() && k % 2 == 0);
                assert(is_two_byte_char(s.spec_bytes()[k], s.spec_bytes()[k + 1]));
            }
            return false;
        }
        i = i + 2;
    }
    true
}

/// Whether `parse_card` can read `s`.
pub fn card_code_is_splittable(s: &str) -> (r: bool)
    ensures
        r == card_code_splittable(s.spec_bytes()),
{
    let b = s.as_bytes();
    b.len() != 2 || b[0] < 0x80
}

} // verus!

use vstd::prelude::*;
use vstd::string::*;
use vstd::utf8::encode_utf8;
use crate::poker::cards::{self, Card, card_of_bytes, card_code_splittable, hand_of_bytes, hand_text_readable, card_of_byte_pair, rank_of_symbol};

verus! {

/// Parses a two-character card code such as `"Ah"` or `"9c"`.
pub fn parse_card(s: &str) -> (r: Option<Card>)
    requires
        card_code_splittable(s.spec_bytes()),
    ensures
        r == card_of_bytes(s.spec_bytes()),
{
    cards::parse_card(s)
}

/// Reads cards from consecutive two-byte chunks of `s`, skipping the chunks
/// that are no card code.
pub fn parse_hand(s: &str) -> (r: Vec<Card>)
    requires
        hand_text_readable(s.spec_bytes()),
    ensures
        r@ == hand_of_bytes(s.spec_bytes()),
{
    cards::parse_hand(s)
}

/// Reads board cards; a board is written like a hand.
pub fn parse_board(s: &str) -> (r: Vec<Card>)
    requires
        hand_text_readable(s.spec_bytes()),
    ensures
        r@ == hand_of_bytes(s.spec_bytes()),
{
    parse_hand(s)
}

/// The characters that `str::trim` strips: those with the Unicode
/// property White_Space.
pub open spec fn is_white_space(c: char) -> bool {
    let u = c as u32;
    ||| 0x09 <= u <= 0x0d
    ||| u == 0x20
    ||| u == 0x85
    ||| u == 0xa0
    ||| u == 0x1680
    ||| 0x2000 <= u <= 0x200a
    ||| u == 0x2028
    ||| u == 0x2029
    ||| u == 0x202f
    ||| u == 0x205f
    ||| u == 0x3000
}

pub open spec fn leading_white(cs: Seq<char>) -> nat
    decreases cs.len(),
{
    if cs.len() > 0 && is_white_space(cs[0]) {
        1 + leading_white(cs.drop_first())
    } else {
        0
    }
}

pub open spec fn trailing_white(cs: Seq<char>) -> nat
    decreases cs.len(),
{
    if cs.len() > 0 && is_white_space(cs.last()) {
        1 + trailing_white(cs.drop_last())
    } else {
        0
    }
}

/// `cs` without its leading and trailing white space.
pub open spec fn trim_white(cs: Seq<char>) -> Seq<char> {
    let t = cs.skip(leading_white(cs) as int);
    t.take(t.len() - trailing_white(t))
}

/// The rank that a `"X+"` token starts from: `A K Q J T` only.
pub open spec fn plus_start(b: u8) -> Option<u8> {
    if b == 0x41 {
        Some(14u8)
    } else if b == 0x4b {
        Some(13u8)
    } else if b == 0x51 {
        Some(12u8)
    } else if b == 0x4a {
        Some(11u8)
    } else if b == 0x54 {
        Some(10u8)
    } else {
        None
    }
}

/// The hand that stands for rank `r` in a `"X+"` token: hearts and diamonds.
pub open spec fn heart_diamond_pair(r: int) -> [Card; 2] {
    [Card { rank: r as u8, suit: 'h' }, Card { rank: r as u8, suit: 'd' }]
}

/// The hands one trimmed range token (as bytes) contributes: a three-byte
/// token `"X+"` gives the pairs from rank X up to aces, one hand each; a
/// two-byte token `"XY"` gives the hand of X in spades and Y in hearts when
/// both are ranks; anything else gives nothing.
pub open spec fn token_hands(b: Seq<u8>) -> Seq<[Card; 2]> {
    if b.len() == 3 && b[2] == 0x2b {
        match plus_start(b[0]) {
            Some(r) => Seq::new((15 - r) as nat, |k: int| heart_diamond_pair(r + k)),
            None => seq![],
        }
    } else if b.len() == 2 {
        match (card_of_bytes(seq![b[0], 0x73u8]), card_of_bytes(seq![b[1], 0x68u8])) {
            (Some(c1), Some(c2)) => seq![[c1, c2]],
            _ => seq![],
        }
    } else {
        seq![]
    }
}

/// A three-byte token ending in `+` whose first byte is a rank letter
/// (`A K Q J T`, rank `v` from 14 down to 10) gives the pairs of every rank
/// from `v` up to aces, one hand each, in hearts and diamonds, lowest first.
pub proof fn law_plus_token_pairs(b: Seq<u8>, v: u8)
    requires
        b.len() == 3,
        b[2] == 0x2b,
        rank_of_symbol(b[0]) == Some(v),
        v >= 10,
    ensures
        token_hands(b).len() == 15 - v,
        forall|k: int|
            0 <= k < 15 - v ==> #[trigger] token_hands(b)[k] == [
                Card { rank: (v + k) as u8, suit: 'h' },
                Card { rank: (v + k) as u8, suit: 'd' },
            ],
{
}

/// A three-byte token ending in `+` whose first byte is no rank letter (a
/// digit or anything else) gives no hand.
pub proof fn law_plus_token_needs_letter(b: Seq<u8>)
    requires
        b.len() == 3,
        b[2] == 0x2b,
        !(rank_of_symbol(b[0]) matches Some(v) && v >= 10),
    ensures
        token_hands(b).len() == 0,
{
}

/// A token whose first character can be cut off as a one-byte text; this
/// is needed of the tokens of two bytes and of the three-byte `"X+"` ones.
pub open spec fn token_splittable(b: Seq<u8>) -> bool {
    (b.len() == 2 || (b.len() == 3 && b[2] == 0x2b)) ==> b[0] < 0x80
}

/// The index of the first comma at or after `i`, or the length of `cs`.
pub open spec fn next_comma(cs: Seq<char>, i: int) -> int
    decreases cs.len() - i,
{
    if i >= cs.len() {
        cs.len() as int
    } else if cs[i] == ',' {
        i
    } else {
        next_comma(cs, i + 1)
    }
}

pub proof fn lemma_next_comma(cs: Seq<char>, i: int)
    requires
        0 <= i <= cs.len(),
    ensures
        i <= next_comma(cs, i) <= cs.len(),
        next_comma(cs, i) < cs.len() ==> cs[next_comma(cs, i)] == ',',
        forall|j: int| i <= j < next_comma(cs, i) ==> cs[j] != ',',
    decreases cs.len() - i,
{
    if i < cs.len() && cs[i] != ',' {
        lemma_next_comma(cs, i + 1);
    }
}

/// The trimmed comma-separated piece of `cs` that starts at `start`.
pub open spec fn piece_at(cs: Seq<char>, start: int) -> Seq<char> {
    trim_white(cs.subrange(start, next_comma(cs, start)))
}

/// The hands of the comma-separated pieces of `cs` from the one that
/// starts at `start` on.
pub open spec fn range_hands_from(cs: Seq<char>, start: int) -> Seq<[Card; 2]>
    decreases cs.len() - start,
{
    if start < 0 || start > cs.len() {
        seq![]
    } else {
        let e = next_comma(cs, start);
        let here = token_hands(encode_utf8(piece_at(cs, start)));
        if e >= cs.len() {
            here
        } else {
            proof {
                lemma_next_comma(cs, start);
            }
            here + range_hands_from(cs, e + 1)
        }
    }
}

/// Every piece from the one at `start` on is splittable.
pub open spec fn range_readable_from(cs: Seq<char>, start: int) -> bool
    decreases cs.len() - start,
{
    if start < 0 || start > cs.len() {
        true
    } else {
        let e = next_comma(cs, start);
        &&& token_splittable(encode_utf8(piece_at(cs, start)))
        &&& e < cs.len() ==> {
            proof {
                lemma_next_comma(cs, start);
            }
            range_readable_from(cs, e + 1)
        }
    }
}

/// The hands of a simple range text such as `"QQ+, AK"`: the text split at
/// commas, each piece trimmed and read as a token.
pub open spec fn simple_range_hands(cs: Seq<char>) -> Seq<[Card; 2]> {
    range_hands_from(cs, 0)
}

pub open spec fn simple_range_readable(cs: Seq<char>) -> bool {
    range_readable_from(cs, 0)
}

fn is_white_space_char(c: char) -> (r: bool)
    ensures
        r == is_white_space(c),
{
    let u = c as u32;
    (0x09 <= u && u <= 0x0d) || u == 0x20 || u == 0x85 || u == 0xa0 || u == 0x1680 || (0x2000 <= u
        && u <= 0x200a) || u == 0x2028 || u == 0x2029 || u == 0x202f || u == 0x205f || u == 0x3000
}

fn plus_start_byte(b: u8) -> (r: Option<u8>)
    ensures
        r == plus_start(b),
{
    if b == 0x41 {
        Some(14)
    } else if b == 0x4b {
        Some(13)
    } else if b == 0x51 {
        Some(12)
    } else if b == 0x4a {
        Some(11)
    } else if b == 0x54 {
        Some(10)
    } else {
        None
    }
}

/// Reads one trimmed token of a simple range.
pub fn parse_range_token(token: &str) -> (v: Vec<[Card; 2]>)
    requires
        token_splittable(token.spec_bytes()),
    ensures
        v@ == token_hands(token.spec_bytes()),
{
    let b = token.as_bytes();
    let mut hands: Vec<[Card; 2]> = Vec::new();
    if b.len() == 3 && b[2] == 0x2b {
        match plus_start_byte(b[0]) {
            Some(start) => {
                let ghost target = Seq::new((15 - start) as nat, |k: int| heart_diamond_pair(start + k));
                let mut r: u8 = start;
                while r <= 14
                    invariant
                        10 <= start <= r <= 15,
                        hands@ =~= target.take(r - start),
                        target == Seq::new((15 - start) as nat, |k: int| heart_diamond_pair(start + k)),
                    decreases 15 - r,
                {
                    hands.push([Card { rank: r, suit: 'h' }, Card { rank: r, suit: 'd' }]);
                    assert(hands@ =~= target.take(r + 1 - start));
                    r = r + 1;
                }
                assert(target.take(15 - start) =~= target);
            },
            None => {},
        }
        return hands;
    }
    if b.len() == 2 {
        let c1 = card_of_byte_pair(b[0], 0x73);
        let c2 = card_of_byte_pair(b[1], 0x68);
        match (c1, c2) {
            (Some(x), Some(y)) => {
                hands.push([x, y]);
            },
            _ => {},
        }
    }
    hands
}

fn chars_of(s: &str) -> (v: Vec<char>)
    ensures
        v@ == s@,
{
    let n = s.unicode_len();
    let mut v: Vec<char> = Vec::new();
    let mut i: usize = 0;
    while i < n
        invariant
            n == s@.len(),
            i <= n,
            v@ == s@.take(i as int),
        decreases n - i,
    {
        v.push(s.get_char(i));
        assert(v@ =~= s@.take(i + 1));
        i = i + 1;
    }
    assert(s@.take(n as int) =~= s@);
    v
}

proof fn lemma_leading_white_step(cs: Seq<char>, lo: int, e: int)
    requires
        0 <= lo < e <= cs.len(),
        is_white_space(cs[lo]),
    ensures
        leading_white(cs.subrange(lo, e)) == 1 + leading_white(cs.subrange(lo + 1, e)),
{
    assert(cs.subrange(lo, e).drop_first() =~= cs.subrange(lo + 1, e));
}

proof fn lemma_trailing_white_step(cs: Seq<char>, lo: int, hi: int)
    requires
        0 <= lo < hi <= cs.len(),
        is_white_space(cs[hi - 1]),
    ensures
        trailing_white(cs.subrange(lo, hi)) == 1 + trailing_white(cs.subrange(lo, hi - 1)),
{
    assert(cs.subrange(lo, hi).drop_last() =~= cs.subrange(lo, hi - 1));
}

/// The bounds of `cs[start..e]` with its white space trimmed off.
fn trim_bounds(cs: &Vec<char>, start: usize, e: usize) -> (r: (usize, usize))
    requires
        start <= e <= cs@.len(),
    ensures
        start <= r.0 <= r.1 <= e,
        cs@.subrange(r.0 as int, r.1 as int) == trim_white(cs@.subrange(start as int, e as int)),
{
    let mut lo = start;
    while lo < e && is_white_space_char(cs[lo])
        invariant
            start <= lo <= e <= cs@.len(),
            leading_white(cs@.subrange(start as int, e as int)) == (lo - start) + leading_white(
                cs@.subrange(lo as int, e as int),
            ),
        decreases e - lo,
    {
        proof {
            lemma_leading_white_step(cs@, lo as int, e as int);
        }
        lo = lo + 1;
    }
    assert(leading_white(cs@.subrange(lo as int, e as int)) == 0);
    let ghost t = cs@.subrange(start as int, e as int).skip(leading_white(
        cs@.subrange(start as int, e as int),
    ) as int);
    assert(t =~= cs@.subrange(lo as int, e as int));
    let mut hi = e;
    while hi > lo && is_white_space_char(cs[hi - 1])
        invariant
            start <= lo <= hi <= e <= cs@.len(),
            trailing_white(cs@.subrange(lo as int, e as int)) == (e - hi) + trailing_white(
                cs@.subrange(lo as int, hi as int),
            ),
        decreases hi - lo,
    {
        proof {
            lemma_trailing_white_step(cs@, lo as int, hi as int);
        }
        hi = hi - 1;
    }
    assert(trailing_white(cs@.subrange(lo as int, hi as int)) == 0);
    assert(t.take(t.len() - trailing_white(t)) =~= cs@.subrange(lo as int, hi as int));
    (lo, hi)
}

/// Finds the first comma at or after `i`.
fn find_comma(cs: &Vec<char>, i: usize) -> (e: usize)
    requires
        i <= cs@.len(),
    ensures
        e == next_comma(cs@, i as int),
{
    let mut j = i;
    while j < cs.len() && cs[j] != ','
        invariant
            i <= j <= cs@.len(),
            next_comma(cs@, i as int) == next_comma(cs@, j as int),
        decreases cs@.len() - j,
    {
        j = j + 1;
    }
    j
}

/// Reads the hands of a simple range text such as `"QQ+, AK"`: comma
/// separated tokens, each trimmed of white space, where `"X+"` stands for
/// the pairs from X up and `"XY"` for one hand of X and Y.
pub fn parse_simple_range_hands(s: &str) -> (v: Vec<[Card; 2]>)
    requires
        simple_range_readable(s@),
    ensures
        v@ == simple_range_hands(s@),
{
    let cs = chars_of(s);
    let n = cs.len();
    let mut out: Vec<[Card; 2]> = Vec::new();
    let mut start: usize = 0;
    let mut done = false;
    while !done
        invariant
            n == cs@.len(),
            cs@ == s@,
            start <= n,
            !done ==> range_readable_from(cs@, start as int),
            !done ==> simple_range_hands(cs@) == out@ + range_hands_from(cs@, start as int),
            done ==> simple_range_hands(cs@) == out@,
        decreases n - start + if done { 0int } else { 1int },
    {
        let e = find_comma(&cs, start);
        proof {
            lemma_next_comma(cs@, start as int);
        }
        let (lo, hi) = trim_bounds(&cs, start, e);
        let token = s.substring_char(lo, hi);
        assert(token@ == piece_at(cs@, start as int));
        let hands = parse_range_token(token);
        let ghost prev = out@;
        let mut k: usize = 0;
        while k < hands.len()
            invariant
                k <= hands@.len(),
                out@ == prev + hands@.take(k as int),
            decreases hands@.len() - k,
        {
            out.push(hands[k]);
            assert(out@ =~= prev + hands@.take(k + 1));
            k = k + 1;
        }
        assert(hands@.take(k as int) =~= hands@);
        if e >= n {
            done = true;
        } else {
            assert(prev + (hands@ + range_hands_from(cs@, e + 1)) =~= out@ + range_hands_from(
                cs@,
                e + 1,
            ));
            start = e + 1;
        }
    }
    out
}

/// Whether `parse_simple_range_hands` can read `s`.
pub fn simple_range_is_readable(s: &str) -> (r: bool)
    ensures
        r == simple_range_readable(s@),
{
    let cs = chars_of(s);
    let n = cs.len();
    let mut start: usize = 0;
    loop
        invariant
            n == cs@.len(),
            cs@ == s@,
            start <= n,
            simple_range_readable(cs@) == range_readable_from(cs@, start as int),
        decreases n - start,
    {
        let e = find_comma(&cs, start);
        proof {
            lemma_next_comma(cs@, start as int);
        }
        let (lo, hi) = trim_bounds(&cs, start, e);
        let token = s.substring_char(lo, hi);
        assert(token@ == piece_at(cs@, start as int));
        let b = token.as_bytes();
        let ok = !(b.len() == 2 || (b.len() == 3 && b[2] == 0x2b)) || b[0] < 0x80;
        if !ok {
            return false;
        }
        if e >= n {
            return true;
        }
        start = e + 1;
    }
}

} // verus!

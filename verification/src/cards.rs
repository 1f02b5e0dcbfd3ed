//! A standard poker deck: 13 ranks by 4 suits, each card the rank text
//! followed by the suit glyph.

use vstd::prelude::*;
use vstd::string::StringExecFns;

verus! {

/// The rank text at position `i` of the rank order 2..10, J, Q, K, A.
pub open spec fn spec_rank(i: int) -> Seq<char> {
    if i == 0 {
        seq!['2']
    } else if i == 1 {
        seq!['3']
    } else if i == 2 {
        seq!['4']
    } else if i == 3 {
        seq!['5']
    } else if i == 4 {
        seq!['6']
    } else if i == 5 {
        seq!['7']
    } else if i == 6 {
        seq!['8']
    } else if i == 7 {
        seq!['9']
    } else if i == 8 {
        seq!['1', '0']
    } else if i == 9 {
        seq!['J']
    } else if i == 10 {
        seq!['Q']
    } else if i == 11 {
        seq!['K']
    } else {
        seq!['A']
    }
}

/// The suit glyph at position `i`: hearts, diamonds, clubs, spades, each
/// with its presentation selector.
pub open spec fn spec_suit(i: int) -> Seq<char> {
    if i == 0 {
        seq!['\u{2665}', '\u{fe0f}']
    } else if i == 1 {
        seq!['\u{2666}', '\u{fe0f}']
    } else if i == 2 {
        seq!['\u{2663}', '\u{fe0f}']
    } else {
        seq!['\u{2660}', '\u{fe0f}']
    }
}

pub fn rank(i: usize) -> (r: &'static str)
    requires
        i < 13,
    ensures
        r@ == spec_rank(i as int),
{
    proof {
        reveal_strlit("2");
        reveal_strlit("3");
        reveal_strlit("4");
        reveal_strlit("5");
        reveal_strlit("6");
        reveal_strlit("7");
        reveal_strlit("8");
        reveal_strlit("9");
        reveal_strlit("10");
        reveal_strlit("J");
        reveal_strlit("Q");
        reveal_strlit("K");
        reveal_strlit("A");
        assert("2"@ =~= spec_rank(0));
        assert("3"@ =~= spec_rank(1));
        assert("4"@ =~= spec_rank(2));
        assert("5"@ =~= spec_rank(3));
        assert("6"@ =~= spec_rank(4));
        assert("7"@ =~= spec_rank(5));
        assert("8"@ =~= spec_rank(6));
        assert("9"@ =~= spec_rank(7));
        assert("10"@ =~= spec_rank(8));
        assert("J"@ =~= spec_rank(9));
        assert("Q"@ =~= spec_rank(10));
        assert("K"@ =~= spec_rank(11));
        assert("A"@ =~= spec_rank(12));
    }
    match i {
        0 => "2",
        1 => "3",
        2 => "4",
        3 => "5",
        4 => "6",
        5 => "7",
        6 => "8",
        7 => "9",
        8 => "10",
        9 => "J",
        10 => "Q",
        11 => "K",
        _ => "A",
    }
}

pub fn suit(i: usize) -> (r: &'static str)
    requires
        i < 4,
    ensures
        r@ == spec_suit(i as int),
{
    proof {
        reveal_strlit("\u{2665}\u{fe0f}");
        reveal_strlit("\u{2666}\u{fe0f}");
        reveal_strlit("\u{2663}\u{fe0f}");
        reveal_strlit("\u{2660}\u{fe0f}");
        assert("\u{2665}\u{fe0f}"@ =~= spec_suit(0));
        assert("\u{2666}\u{fe0f}"@ =~= spec_suit(1));
        assert("\u{2663}\u{fe0f}"@ =~= spec_suit(2));
        assert("\u{2660}\u{fe0f}"@ =~= spec_suit(3));
    }
    match i {
        0 => "\u{2665}\u{fe0f}",
        1 => "\u{2666}\u{fe0f}",
        2 => "\u{2663}\u{fe0f}",
        _ => "\u{2660}\u{fe0f}",
    }
}

/// Build the full 52-card deck, ranks outermost: card `i` is the rank at
/// `i / 4` followed by the suit at `i % 4`.
pub fn poker_deck() -> (r: Vec<String>)
    ensures
        r@.len() == 52,
        forall|i: int|
            0 <= i < 52 ==> (#[trigger] r@[i])@ == spec_rank(i / 4) + spec_suit(i % 4),
{
    let mut deck: Vec<String> = Vec::new();
    let mut ri: usize = 0;
    while ri < 13
        invariant
            0 <= ri <= 13,
            deck@.len() == ri * 4,
            forall|i: int|
                0 <= i < deck@.len() ==> (#[trigger] deck@[i])@ == spec_rank(i / 4) + spec_suit(
                    i % 4,
                ),
        decreases 13 - ri,
    {
        let mut si: usize = 0;
        while si < 4
            invariant
                0 <= ri < 13,
                0 <= si <= 4,
                deck@.len() == ri * 4 + si,
                forall|i: int|
                    0 <= i < deck@.len() ==> (#[trigger] deck@[i])@ == spec_rank(i / 4)
                        + spec_suit(i % 4),
            decreases 4 - si,
        {
            let card = rank(ri).to_owned().concat(suit(si));
            let ghost pre = deck@;
            deck.push(card);
            proof {
                let n = pre.len() as int;
                assert(n == ri * 4 + si);
                assert(n / 4 == ri && n % 4 == si) by (nonlinear_arith)
                    requires
                        n == ri * 4 + si,
                        0 <= si < 4,
                        0 <= ri,
                ;
                assert forall|i: int|
                    0 <= i < deck@.len() implies (#[trigger] deck@[i])@ == spec_rank(i / 4)
                    + spec_suit(i % 4) by {
                    if i < n {
                        assert(deck@[i] == pre[i]);
                    }
                }
            }
            si += 1;
        }
        ri += 1;
    }
    deck
}

} // verus!

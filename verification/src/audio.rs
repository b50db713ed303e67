//! The logic of the game's sound selection: which impact variant a surface's brightness
//! calls for, and a random member of a numbered sound group.

use vstd::prelude::*;
use crate::rng::{SeededRng, draw, next_state, draw_int, state_after_int};
use crate::text::{decimal, decimal_chars, string_from_chars, chars_of};

verus! {

/// How many impact variants there are (`smash1` … `smash8`).
pub const SMASH_COUNT: i64 = 8;

/// The name of impact variant `i` (1-based).
pub open spec fn smash_variant_name(i: int) -> Seq<char> {
    if i <= 1 {
        "smash1"@
    } else if i == 2 {
        "smash2"@
    } else if i == 3 {
        "smash3"@
    } else if i == 4 {
        "smash4"@
    } else if i == 5 {
        "smash5"@
    } else if i == 6 {
        "smash6"@
    } else if i == 7 {
        "smash7"@
    } else {
        "smash8"@
    }
}

/// The impact variant a known brightness selects: the 256 brightness levels are split into
/// eight equal bands, darkest first.
pub open spec fn smash_index_for(brightness: u8) -> int {
    (brightness as int * 8) / 256 + 1
}

fn smash_variant(i: i64) -> (r: &'static str)
    ensures
        r@ == smash_variant_name(i as int),
{
    if i <= 1 {
        "smash1"
    } else if i == 2 {
        "smash2"
    } else if i == 3 {
        "smash3"
    } else if i == 4 {
        "smash4"
    } else if i == 5 {
        "smash5"
    } else if i == 6 {
        "smash6"
    } else if i == 7 {
        "smash7"
    } else {
        "smash8"
    }
}

/// Picks the impact variant from the brightness of the surface — a dark surface gives a
/// hollow/wooden impact, a light one a glassy/metallic one. When the brightness is unknown
/// (no screen capture yet) the choice is random; the tool has to work in that case too.
pub fn smash_name(brightness: Option<u8>, rng: &mut SeededRng) -> (r: &'static str)
    ensures
        match brightness {
            Some(b) => {
                &&& r@ == smash_variant_name(smash_index_for(b))
                &&& r@ == "smash"@ + decimal(smash_index_for(b) as nat)
                &&& final(rng)@ == old(rng)@
            },
            None => {
                &&& r@ == smash_variant_name(1 + draw(old(rng)@) as int % 8)
                &&& r@ == "smash"@ + decimal((1 + draw(old(rng)@) as int % 8) as nat)
                &&& final(rng)@ == next_state(old(rng)@)
            },
        },
{
    proof {
        lemma_brighter_never_more_hollow(0, 0);
        match brightness {
            Some(b) => {
                lemma_brighter_never_more_hollow(b, 255);
                lemma_smash_name_is_numbered(smash_index_for(b));
            },
            None => {
                lemma_smash_name_is_numbered(1 + draw(rng@) as int % 8);
            },
        }
    }
    let index = match brightness {
        Some(b) => {
            let i = (b as i64 * SMASH_COUNT) / 256 + 1;
            if i < SMASH_COUNT { i } else { SMASH_COUNT }
        },
        None => rng.int_range(1, SMASH_COUNT + 1),
    };
    smash_variant(index)
}

/// A random name from a numbered group, e.g. `("shell", 3)` → `shell1`…`shell3`.
pub fn numbered_name(prefix: &str, count: i64, rng: &mut SeededRng) -> (r: String)
    requires
        count < i64::MAX,
    ensures
        r@ == prefix@ + decimal(draw_int(old(rng)@, 1, (count + 1) as i64) as nat),
        final(rng)@ == state_after_int(old(rng)@, 1, (count + 1) as i64),
        1 <= draw_int(old(rng)@, 1, (count + 1) as i64),
        1 <= count ==> draw_int(old(rng)@, 1, (count + 1) as i64) <= count,
{
    let n = rng.int_range(1, count + 1);
    let mut chars = chars_of(prefix);
    let digits = decimal_chars(n as u64);
    let mut i: usize = 0;
    while i < digits.len()
        invariant
            0 <= i <= digits.len(),
            chars@ == prefix@ + digits@.take(i as int),
        decreases digits.len() - i,
    {
        chars.push(digits[i]);
        assert(digits@.take(i as int + 1) =~= digits@.take(i as int).push(digits@[i as int]));
        i = i + 1;
    }
    assert(digits@.take(digits.len() as int) =~= digits@);
    string_from_chars(&chars)
}

/// Impact variant `i` (one of `1..=8`) is named `smash` followed by the decimal digits
/// of `i`.
pub proof fn lemma_smash_name_is_numbered(i: int)
    requires
        1 <= i <= 8,
    ensures
        smash_variant_name(i) == "smash"@ + decimal(i as nat),
{
    reveal_strlit("smash");
    reveal_strlit("smash1");
    reveal_strlit("smash2");
    reveal_strlit("smash3");
    reveal_strlit("smash4");
    reveal_strlit("smash5");
    reveal_strlit("smash6");
    reveal_strlit("smash7");
    reveal_strlit("smash8");
    assert(smash_variant_name(i) =~= "smash"@ + decimal(i as nat));
}

/// A brighter surface never selects a more hollow impact: the variant index grows with
/// the brightness, from `smash1` for black to `smash8` for white.
pub proof fn lemma_brighter_never_more_hollow(dark: u8, bright: u8)
    requires
        dark <= bright,
    ensures
        1 <= smash_index_for(dark) <= smash_index_for(bright) <= 8,
        smash_index_for(0) == 1,
        smash_index_for(255) == 8,
{
    assert((dark as int * 8) / 256 <= (bright as int * 8) / 256) by (nonlinear_arith)
        requires
            dark <= bright,
    ;
}

} // verus!

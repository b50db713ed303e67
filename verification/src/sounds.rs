//! The bundled sound bank's names, and finding a sound in it by name.

use vstd::prelude::*;

use crate::text::{chars_of, same_chars};

verus! {

/// Every bundled sound, by name, in the bank's order.
pub const SOUND_NAMES: [&'static str; 35] = [
    "flame_begin",
    "flame_end",
    "flame_loop",
    "mg_reverb",
    "mg_shot1",
    "mg_shot2",
    "mg_shot3",
    "mg_shot4",
    "mg_shot5",
    "mg_shot6",
    "paint_drop",
    "paint_shoot",
    "phaser1",
    "phaser2",
    "saw_cut",
    "saw_idle",
    "shell1",
    "shell2",
    "shell3",
    "smash1",
    "smash2",
    "smash3",
    "smash4",
    "smash5",
    "smash6",
    "smash7",
    "smash8",
    "stamp1",
    "stamp2",
    "termite_chew",
    "termite_crunch",
    "termite_dead",
    "termite_squish",
    "wash_loop",
    "wash_start",
];

/// Whether position `i` of `names` is the first holding `name`.
pub open spec fn is_first_named(names: Seq<&'static str>, name: Seq<char>, i: int) -> bool {
    &&& 0 <= i < names.len()
    &&& names[i]@ == name
    &&& forall|j: int| 0 <= j < i ==> (#[trigger] names[j])@ != name
}

/// Where `name` stands in `names`: the first position holding it, or `None` when no
/// sound has that name.
pub fn sound_index(names: &[&'static str], name: &str) -> (r: Option<usize>)
    ensures
        match r {
            Some(i) => is_first_named(names@, name@, i as int),
            None => forall|j: int| 0 <= j < names@.len() ==> (#[trigger] names@[j])@ != name@,
        },
{
    let wanted = chars_of(name);
    let mut i: usize = 0;
    while i < names.len()
        invariant
            i <= names@.len(),
            wanted@ == name@,
            forall|j: int| 0 <= j < i ==> (#[trigger] names@[j])@ != name@,
        decreases names.len() - i,
    {
        let candidate = chars_of(names[i]);
        if same_chars(&candidate, &wanted) {
            return Some(i);
        }
        i = i + 1;
    }
    None
}

/// The WAV bytes of the bundled sound called `name`, from `wavs`, the bank's files in
/// `SOUND_NAMES` order; `None` for a name the bank does not have (or whose file is
/// missing from `wavs`).
pub fn embedded_wav<'a>(name: &str, wavs: &'a Vec<Vec<u8>>) -> (r: Option<&'a [u8]>)
    ensures
        match r {
            Some(bytes) => exists|i: int|
                is_first_named(SOUND_NAMES@, name@, i) && i < wavs@.len() && bytes@ == (
                #[trigger] wavs@[i])@,
            None => forall|i: int| is_first_named(SOUND_NAMES@, name@, i) ==> i >= wavs@.len(),
        },
{
    let names = SOUND_NAMES;
    match sound_index(&names, name) {
        Some(i) => {
            if i < wavs.len() {
                let bytes = wavs[i].as_slice();
                assert(bytes@ == wavs@[i as int]@);
                Some(bytes)
            } else {
                proof {
                    assert forall|k: int| is_first_named(SOUND_NAMES@, name@, k) implies k >= wavs@.len() by {
                        if k != i {
                            if k < i {
                                assert(names@[k]@ != name@);
                            } else {
                                assert(names@[i as int]@ != name@);
                            }
                        }
                    }
                }
                None
            }
        },
        None => None,
    }
}

} // verus!

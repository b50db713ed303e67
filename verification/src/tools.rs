//! The nine tools' identities: their order (which fixes keys 1–9), their display names,
//! the cursor-art variant each one shows, and cycling through them.

use vstd::prelude::*;

verus! {

/// The nine tools, in the game's order (`0: hammer` … `8: washing`), which also lines
/// them up with keys 1–9.
#[derive(Clone, Copy, Debug, PartialEq, Eq, Structural, Hash)]
pub enum ToolId {
    Hammer,
    ChainSaw,
    MachineGun,
    FlameThrower,
    ColorThrower,
    Phaser,
    Stamp,
    Termites,
    Washer,
}

/// How many tools there are.
pub const TOOL_COUNT: usize = 9;

/// A tool's position in the game's order, `0..=8`.
pub open spec fn tool_index(t: ToolId) -> int {
    match t {
        ToolId::Hammer => 0,
        ToolId::ChainSaw => 1,
        ToolId::MachineGun => 2,
        ToolId::FlameThrower => 3,
        ToolId::ColorThrower => 4,
        ToolId::Phaser => 5,
        ToolId::Stamp => 6,
        ToolId::Termites => 7,
        ToolId::Washer => 8,
    }
}

/// The tool at position `i` of the game's order (`i` in `0..=8`).
pub open spec fn tool_at(i: int) -> ToolId {
    if i == 0 {
        ToolId::Hammer
    } else if i == 1 {
        ToolId::ChainSaw
    } else if i == 2 {
        ToolId::MachineGun
    } else if i == 3 {
        ToolId::FlameThrower
    } else if i == 4 {
        ToolId::ColorThrower
    } else if i == 5 {
        ToolId::Phaser
    } else if i == 6 {
        ToolId::Stamp
    } else if i == 7 {
        ToolId::Termites
    } else {
        ToolId::Washer
    }
}

/// Every tool, in order.
pub open spec fn all_tools() -> Seq<ToolId> {
    Seq::new(9, |i: int| tool_at(i))
}

/// The name a tool is shown under.
pub open spec fn tool_display_name(t: ToolId) -> Seq<char> {
    match t {
        ToolId::Hammer => "Hammer"@,
        ToolId::ChainSaw => "Chain-saw"@,
        ToolId::MachineGun => "Machine gun"@,
        ToolId::FlameThrower => "Flame-thrower"@,
        ToolId::ColorThrower => "Color-thrower"@,
        ToolId::Phaser => "Phaser"@,
        ToolId::Stamp => "Stamp"@,
        ToolId::Termites => "Termites"@,
        ToolId::Washer => "Washer"@,
    }
}

/// The key of the cursor art for the active tool; the chain-saw and the stamp have a
/// separate picture while the button is held.
pub open spec fn icon_variant(active: ToolId, is_down: bool) -> Seq<char> {
    match active {
        ToolId::Hammer => "hammer"@,
        ToolId::ChainSaw => if is_down { "saw_cut"@ } else { "saw_idle"@ },
        ToolId::MachineGun => "machinegun"@,
        ToolId::FlameThrower => "flamethrower"@,
        ToolId::ColorThrower => "colorthrower"@,
        ToolId::Phaser => "phaser"@,
        ToolId::Stamp => if is_down { "stamp_down"@ } else { "stamp_up"@ },
        ToolId::Termites => "termites"@,
        ToolId::Washer => "washer"@,
    }
}

impl ToolId {
    /// Every tool, in the game's order.
    pub const ALL: [ToolId; 9] = [
        ToolId::Hammer,
        ToolId::ChainSaw,
        ToolId::MachineGun,
        ToolId::FlameThrower,
        ToolId::ColorThrower,
        ToolId::Phaser,
        ToolId::Stamp,
        ToolId::Termites,
        ToolId::Washer,
    ];

    /// Every tool, in the game's order.
    pub fn all() -> (r: [ToolId; 9])
        ensures
            r@ == all_tools(),
    {
        let r = [
            ToolId::Hammer,
            ToolId::ChainSaw,
            ToolId::MachineGun,
            ToolId::FlameThrower,
            ToolId::ColorThrower,
            ToolId::Phaser,
            ToolId::Stamp,
            ToolId::Termites,
            ToolId::Washer,
        ];
        assert(r@ =~= all_tools());
        r
    }

    /// The tool's position in the game's order.
    pub fn index(self) -> (r: usize)
        ensures
            r as int == tool_index(self),
            r < TOOL_COUNT,
    {
        match self {
            ToolId::Hammer => 0,
            ToolId::ChainSaw => 1,
            ToolId::MachineGun => 2,
            ToolId::FlameThrower => 3,
            ToolId::ColorThrower => 4,
            ToolId::Phaser => 5,
            ToolId::Stamp => 6,
            ToolId::Termites => 7,
            ToolId::Washer => 8,
        }
    }

    /// The tool at `index` in the game's order.
    pub fn from_index(index: usize) -> (r: ToolId)
        requires
            index < TOOL_COUNT,
        ensures
            r == tool_at(index as int),
            tool_index(r) == index,
    {
        if index == 0 {
            ToolId::Hammer
        } else if index == 1 {
            ToolId::ChainSaw
        } else if index == 2 {
            ToolId::MachineGun
        } else if index == 3 {
            ToolId::FlameThrower
        } else if index == 4 {
            ToolId::ColorThrower
        } else if index == 5 {
            ToolId::Phaser
        } else if index == 6 {
            ToolId::Stamp
        } else if index == 7 {
            ToolId::Termites
        } else {
            ToolId::Washer
        }
    }

    /// The number key that selects this tool: 1 for the hammer … 9 for the washer.
    pub fn key_digit(self) -> (r: i32)
        ensures
            r == tool_index(self) + 1,
            1 <= r <= 9,
    {
        self.index() as i32 + 1
    }

    /// The tool a number key selects, if any.
    pub fn from_key_digit(digit: i32) -> (r: Option<ToolId>)
        ensures
            (1 <= digit <= 9) ==> r == Some(tool_at(digit - 1)),
            !(1 <= digit <= 9) ==> r is None,
            r matches Some(t) ==> tool_index(t) + 1 == digit,
    {
        let all = ToolId::all();
        let mut i: usize = 0;
        while i < TOOL_COUNT
            invariant
                0 <= i <= TOOL_COUNT,
                all@ == all_tools(),
                forall|j: int| 0 <= j < i ==> tool_index(#[trigger] tool_at(j)) + 1 != digit,
            decreases TOOL_COUNT - i,
        {
            let t = all[i];
            if t.key_digit() == digit {
                return Some(t);
            }
            i = i + 1;
        }
        None
    }

    /// The name the palette and the simulation report show.
    pub fn display_name(self) -> (r: &'static str)
        ensures
            r@ == tool_display_name(self),
    {
        match self {
            ToolId::Hammer => "Hammer",
            ToolId::ChainSaw => "Chain-saw",
            ToolId::MachineGun => "Machine gun",
            ToolId::FlameThrower => "Flame-thrower",
            ToolId::ColorThrower => "Color-thrower",
            ToolId::Phaser => "Phaser",
            ToolId::Stamp => "Stamp",
            ToolId::Termites => "Termites",
            ToolId::Washer => "Washer",
        }
    }

    /// The tool `direction` steps away from this one, wrapping around both ends of the
    /// order (Tab / Shift-Tab).
    pub fn cycled(self, direction: i32) -> (r: ToolId)
        ensures
            tool_index(r) == (tool_index(self) + direction) % 9,
    {
        let idx = self.index() as i32;
        let sum = idx as i64 + direction as i64;
        let m = sum % 9;
        let next = if m < 0 { m + 9 } else { m };
        ToolId::from_index(next as usize)
    }
}

/// The key of the cursor art for the active tool, given whether the button is held.
pub fn icon_variant_key(active: ToolId, is_down: bool) -> (r: &'static str)
    ensures
        r@ == icon_variant(active, is_down),
        active == ToolId::ChainSaw ==> (r@ == "saw_cut"@ <==> is_down) && (r@ == "saw_idle"@ <==> !is_down),
        active == ToolId::Stamp ==> (r@ == "stamp_down"@ <==> is_down) && (r@ == "stamp_up"@ <==> !is_down),
{
    proof {
        lemma_held_button_art(active);
    }
    match active {
        ToolId::Hammer => "hammer",
        ToolId::ChainSaw => if is_down { "saw_cut" } else { "saw_idle" },
        ToolId::MachineGun => "machinegun",
        ToolId::FlameThrower => "flamethrower",
        ToolId::ColorThrower => "colorthrower",
        ToolId::Phaser => "phaser",
        ToolId::Stamp => if is_down { "stamp_down" } else { "stamp_up" },
        ToolId::Termites => "termites",
        ToolId::Washer => "washer",
    }
}

/// Holding the button changes the cursor art of the chain-saw and of the stamp alone:
/// held, the chain-saw shows `saw_cut` and the stamp `stamp_down`; released, `saw_idle`
/// and `stamp_up`.
pub proof fn lemma_held_button_art(t: ToolId)
    ensures
        (icon_variant(t, true) != icon_variant(t, false)) <==> (t == ToolId::ChainSaw || t == ToolId::Stamp),
        forall|d: bool| icon_variant(ToolId::ChainSaw, d) == "saw_cut"@ <==> d,
        forall|d: bool| icon_variant(ToolId::ChainSaw, d) == "saw_idle"@ <==> !d,
        forall|d: bool| icon_variant(ToolId::Stamp, d) == "stamp_down"@ <==> d,
        forall|d: bool| icon_variant(ToolId::Stamp, d) == "stamp_up"@ <==> !d,
{
    reveal_strlit("saw_cut");
    reveal_strlit("saw_idle");
    reveal_strlit("stamp_down");
    reveal_strlit("stamp_up");
    assert("saw_cut"@ != "saw_idle"@) by {
        assert("saw_cut"@.len() != "saw_idle"@.len());
    }
    assert("stamp_down"@ != "stamp_up"@) by {
        assert("stamp_down"@.len() != "stamp_up"@.len());
    }
}

/// A number key and the tool it selects undo each other: the key of the tool a digit
/// selects is that digit, and the tool selected by a tool's key is that tool.
pub proof fn lemma_key_digit_round_trip(t: ToolId, digit: int)
    ensures
        tool_at(tool_index(t)) == t,
        1 <= digit <= 9 ==> tool_index(tool_at(digit - 1)) + 1 == digit,
        0 <= tool_index(t) < 9,
{
}

/// The order is a permutation: position `i` holds the tool whose index is `i`, so every
/// tool appears exactly once among keys 1–9.
pub proof fn lemma_order_is_a_bijection(i: int, j: int)
    requires
        0 <= i < 9,
        0 <= j < 9,
    ensures
        tool_index(all_tools()[i]) == i,
        i != j ==> all_tools()[i] != all_tools()[j],
{
}

/// Cycling undoes itself: stepping `direction` tools away and then `direction` back lands
/// on the tool you started from (Tab then Shift-Tab).
pub proof fn lemma_cycle_undoes(t: ToolId, direction: int)
    ensures
        ({
            let there = tool_at((tool_index(t) + direction) % 9);
            tool_at((tool_index(there) - direction) % 9) == t
        }),
{
    let i = (tool_index(t) + direction) % 9;
    assert(0 <= i < 9);
    assert(tool_index(tool_at(i)) == i);
    assert((i - direction) % 9 == tool_index(t));
}

} // verus!

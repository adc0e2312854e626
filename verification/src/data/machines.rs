//! The machine catalog: which cabinets exist.

use vstd::prelude::*;
use crate::text::same_text;

verus! {

/// One playable machine. Everything that makes it what it is lives in its
/// data; this is its name in the catalog and the line the picker shows.
#[derive(Debug)]
pub struct MachineDef {
    pub id: String,
    /// One line for the picker, describing how this machine plays.
    pub blurb: String,
}

/// The catalog's ids, in order.
pub open spec fn machine_ids() -> Seq<Seq<char>> {
    seq!["dragon"@, "frost"@, "ways"@, "wyrmspire"@, "avalanche"@]
}

/// The picker's line for each cabinet, in catalog order.
pub open spec fn machine_blurbs() -> Seq<Seq<char>> {
    seq![
        "Medium volatility. Frequent coin and gem wins, doubled free spins."@,
        "High volatility. Rarer wins, far bigger, with tripled free spins."@,
        "243 ways to win — no paylines. Symbols pay from the left wherever they land."@,
        "Shifting reels. Every reel is a different height each spin, so the ways change with it."@,
        "Cascading 243 ways. Winners are cleared, the grid refills, and the multiplier climbs."@,
    ]
}

fn machine(id: &str, blurb: &str) -> (m: MachineDef)
    ensures
        m.id@ == id@,
        m.blurb@ == blurb@,
{
    MachineDef { id: String::from_str(id), blurb: String::from_str(blurb) }
}

/// Every cabinet on the floor, in catalog order.
pub fn machines() -> (all: Vec<MachineDef>)
    ensures
        all@.len() == machine_ids().len(),
        forall|i: int| 0 <= i < all@.len() ==> (#[trigger] all@[i]).id@ == machine_ids()[i],
        forall|i: int| 0 <= i < all@.len() ==> (#[trigger] all@[i]).blurb@ == machine_blurbs()[i],
{
    let mut all: Vec<MachineDef> = Vec::new();
    all.push(
        machine(
            "dragon",
            "Medium volatility. Frequent coin and gem wins, doubled free spins.",
        ),
    );
    all.push(
        machine("frost", "High volatility. Rarer wins, far bigger, with tripled free spins."),
    );
    all.push(
        machine(
            "ways",
            "243 ways to win — no paylines. Symbols pay from the left wherever they land.",
        ),
    );
    all.push(
        machine(
            "wyrmspire",
            "Shifting reels. Every reel is a different height each spin, so the ways change with it.",
        ),
    );
    all.push(
        machine(
            "avalanche",
            "Cascading 243 ways. Winners are cleared, the grid refills, and the multiplier climbs.",
        ),
    );
    all
}

/// The catalog entry with this id, falling back to the first so a stale
/// saved id can never leave the player with no machine at all.
pub open spec fn machine_index(id: Seq<char>) -> int {
    if exists|i: int| 0 <= i < machine_ids().len() && machine_ids()[i] == id {
        choose|i: int|
            0 <= i < machine_ids().len() && machine_ids()[i] == id && forall|j: int|
                0 <= j < i ==> machine_ids()[j] != id
    } else {
        0
    }
}

/// Look a machine up by id, falling back to the first.
pub fn machine_by_id(id: &str) -> (m: MachineDef)
    ensures
        m.id@ == machine_ids()[machine_index(id@)],
        m.blurb@ == machine_blurbs()[machine_index(id@)],
{
    let mut all = machines();
    let mut i: usize = 0;
    while i < all.len()
        invariant
            0 <= i <= all@.len(),
            all@.len() == machine_ids().len(),
            forall|k: int| 0 <= k < all@.len() ==> (#[trigger] all@[k]).id@ == machine_ids()[k],
            forall|k: int| 0 <= k < all@.len() ==> (#[trigger] all@[k]).blurb@ == machine_blurbs()[k],
            forall|k: int| 0 <= k < i ==> machine_ids()[k] != id@,
        decreases all@.len() - i,
    {
        if same_text(all[i].id.as_str(), id) {
            proof {
                assert(machine_ids()[i as int] == id@);
                let c = choose|c: int|
                    0 <= c < machine_ids().len() && machine_ids()[c] == id@ && forall|j: int|
                        0 <= j < c ==> machine_ids()[j] != id@;
                if c < i {
                } else if c > i {
                    assert(machine_ids()[i as int] != id@);
                }
            }
            return all.remove(i);
        }
        i = i + 1;
    }
    all.remove(0)
}

} // verus!

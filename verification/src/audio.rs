//! The sound effects the game can ask for. How each one is voiced is a
//! matter of floating-point synthesis and lives with the player.

use vstd::prelude::*;

verus! {

#[derive(Debug, Clone, Copy, PartialEq, Eq, Hash, Structural)]
pub enum Sfx {
    SpinStart,
    ReelStop,
    WinSmall,
    WinBig,
    Scatter,
    Hatch,
    /// A coin locking into a Dragon's Wrath cell.
    CoinLock,
    /// A seam taking the board: the moment the reels stop for it.
    SeamOpen,
    /// One move of a rite: stone shifting.
    SeamMove,
    Click,
}

impl Sfx {
    /// Every effect, for building the bank.
    pub fn all() -> (effects: Vec<Sfx>)
        ensures
            effects@ == seq![
                Sfx::SpinStart,
                Sfx::ReelStop,
                Sfx::WinSmall,
                Sfx::WinBig,
                Sfx::Scatter,
                Sfx::Hatch,
                Sfx::CoinLock,
                Sfx::SeamOpen,
                Sfx::SeamMove,
                Sfx::Click,
            ],
    {
        let effects = vec![
            Sfx::SpinStart,
            Sfx::ReelStop,
            Sfx::WinSmall,
            Sfx::WinBig,
            Sfx::Scatter,
            Sfx::Hatch,
            Sfx::CoinLock,
            Sfx::SeamOpen,
            Sfx::SeamMove,
            Sfx::Click,
        ];
        assert(effects@ =~= seq![
            Sfx::SpinStart,
            Sfx::ReelStop,
            Sfx::WinSmall,
            Sfx::WinBig,
            Sfx::Scatter,
            Sfx::Hatch,
            Sfx::CoinLock,
            Sfx::SeamOpen,
            Sfx::SeamMove,
            Sfx::Click,
        ]);
        effects
    }
}

} // verus!

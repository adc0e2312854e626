//! Every screen that takes over the display or holds the reels.
//!
//! The registry is the source: a screen that holds the game appears in
//! [`Screen::all`], and that is what an audit enumerates. Most screens are a
//! flag the player raises and lowers; the rest are dealt by the session.

use vstd::prelude::*;
use crate::text::same_text;

verus! {

/// Everything that takes over the screen or holds the reels.
#[derive(Debug, Clone, Copy, PartialEq, Eq, Structural)]
pub enum Screen {
    Paytable,
    Rules,
    Limits,
    History,
    RealityCheck,
    Settings,
    Machines,
    Achievements,
    FeatureBuy,
    Ledger,
    /// The way in to everything else, for anyone without a keyboard.
    Menu,
    /// The payline diagrams.
    Lines,
    /// The log of sessions played.
    Sessions,
    /// Re-running a spin the game committed to before drawing it.
    Proofs,
    Waveforms,
    Vision,
    /// The Vault Pick board. Waits on the player, so it holds the reels.
    Bonus,
    /// A win at risk.
    Gamble,
    /// The Dragon's Wrath respin round. Advances itself on a beat, but the
    /// reels do not turn while it runs.
    Holdspin,
    /// A seam working the board. Dealt and self-advancing.
    Seam,
    /// A cap the player set has ended the session.
    SessionOver,
    /// Out of credits. Dealt by the balance rather than opened, and the
    /// reels cannot turn until it is answered.
    Ruin,
}

/// The registry, in the order an audit walks it.
pub open spec fn all_screens() -> Seq<Screen> {
    seq![
        Screen::Paytable,
        Screen::Rules,
        Screen::Limits,
        Screen::History,
        Screen::RealityCheck,
        Screen::Settings,
        Screen::Machines,
        Screen::Achievements,
        Screen::FeatureBuy,
        Screen::Ledger,
        Screen::Menu,
        Screen::Lines,
        Screen::Sessions,
        Screen::Proofs,
        Screen::Waveforms,
        Screen::Vision,
        Screen::Bonus,
        Screen::Gamble,
        Screen::Holdspin,
        Screen::Seam,
        Screen::Ruin,
        Screen::SessionOver,
    ]
}

/// What the capture harness calls a screen.
pub open spec fn screen_id(s: Screen) -> Seq<char> {
    match s {
        Screen::Paytable => "paytable"@,
        Screen::Rules => "rules"@,
        Screen::Limits => "limits"@,
        Screen::History => "history"@,
        Screen::RealityCheck => "reality"@,
        Screen::Settings => "settings"@,
        Screen::Machines => "machines"@,
        Screen::Achievements => "achievements"@,
        Screen::FeatureBuy => "featurebuy"@,
        Screen::Ledger => "ledger"@,
        Screen::Menu => "menu"@,
        Screen::Lines => "lines"@,
        Screen::Sessions => "sessions"@,
        Screen::Proofs => "proofs"@,
        Screen::Waveforms => "waveforms"@,
        Screen::Vision => "vision"@,
        Screen::Bonus => "bonus"@,
        Screen::Gamble => "gamble"@,
        Screen::Holdspin => "wrath"@,
        Screen::Seam => "seam"@,
        Screen::SessionOver => "sessionover"@,
        Screen::Ruin => "ruin"@,
    }
}

/// What a menu calls a screen.
pub open spec fn screen_label(s: Screen) -> Seq<char> {
    match s {
        Screen::Paytable => "Paytable"@,
        Screen::Rules => "How this cabinet plays"@,
        Screen::Limits => "Session limits"@,
        Screen::History => "This session's graph"@,
        Screen::RealityCheck => "Reality check"@,
        Screen::Settings => "Settings"@,
        Screen::Machines => "Machines"@,
        Screen::Achievements => "Awards"@,
        Screen::FeatureBuy => "Buy a feature"@,
        Screen::Ledger => "The Ledger"@,
        Screen::Menu => "Everything else"@,
        Screen::Lines => "The paylines"@,
        Screen::Sessions => "Your sessions"@,
        Screen::Proofs => "Check a spin"@,
        Screen::Waveforms => "Sound"@,
        Screen::Vision => "Colour vision"@,
        Screen::Bonus => "The Vault Pick"@,
        Screen::Gamble => "The Gamble"@,
        Screen::Holdspin => "The Dragon's Wrath"@,
        Screen::Seam => "The Seam"@,
        Screen::SessionOver => "That is the session"@,
        Screen::Ruin => "Out of credits"@,
    }
}

/// Screens a flag can open: all but the dealt ones.
pub open spec fn flagged(s: Screen) -> bool {
    !(s is Bonus || s is Gamble || s is Holdspin || s is Seam || s is Ruin || s is SessionOver)
}

/// The first screen among the first `k` of the registry with this id.
pub open spec fn screen_with_id_upto(id: Seq<char>, k: int) -> Option<Screen>
    decreases k,
{
    if k <= 0 {
        None
    } else {
        match screen_with_id_upto(id, k - 1) {
            Some(s) => Some(s),
            None => if screen_id(all_screens()[k - 1]) == id {
                Some(all_screens()[k - 1])
            } else {
                None
            },
        }
    }
}

proof fn lemma_found_stays(id: Seq<char>, k: int, m: int)
    requires
        0 <= k <= m,
        screen_with_id_upto(id, k) is Some,
    ensures
        screen_with_id_upto(id, m) == screen_with_id_upto(id, k),
    decreases m - k,
{
    if k < m {
        lemma_found_stays(id, k, m - 1);
    }
}

/// The screens among the first `k` of the registry a menu offers, in order.
pub open spec fn menu_upto(k: int) -> Seq<Screen>
    decreases k,
{
    if k <= 0 {
        Seq::empty()
    } else {
        let s = all_screens()[k - 1];
        if flagged(s) && s != Screen::Menu {
            menu_upto(k - 1).push(s)
        } else {
            menu_upto(k - 1)
        }
    }
}

impl Screen {
    /// Every screen, in registry order.
    pub fn all() -> (screens: Vec<Screen>)
        ensures
            screens@ == all_screens(),
    {
        let screens = vec![
            Screen::Paytable,
            Screen::Rules,
            Screen::Limits,
            Screen::History,
            Screen::RealityCheck,
            Screen::Settings,
            Screen::Machines,
            Screen::Achievements,
            Screen::FeatureBuy,
            Screen::Ledger,
            Screen::Menu,
            Screen::Lines,
            Screen::Sessions,
            Screen::Proofs,
            Screen::Waveforms,
            Screen::Vision,
            Screen::Bonus,
            Screen::Gamble,
            Screen::Holdspin,
            Screen::Seam,
            Screen::Ruin,
            Screen::SessionOver,
        ];
        assert(screens@ =~= all_screens());
        screens
    }

    /// What the capture harness calls it. Never changes.
    pub fn id(self) -> (id: &'static str)
        ensures
            id@ == screen_id(self),
    {
        match self {
            Screen::Paytable => "paytable",
            Screen::Rules => "rules",
            Screen::Limits => "limits",
            Screen::History => "history",
            Screen::RealityCheck => "reality",
            Screen::Settings => "settings",
            Screen::Machines => "machines",
            Screen::Achievements => "achievements",
            Screen::FeatureBuy => "featurebuy",
            Screen::Ledger => "ledger",
            Screen::Menu => "menu",
            Screen::Lines => "lines",
            Screen::Sessions => "sessions",
            Screen::Proofs => "proofs",
            Screen::Waveforms => "waveforms",
            Screen::Vision => "vision",
            Screen::Bonus => "bonus",
            Screen::Gamble => "gamble",
            Screen::Holdspin => "wrath",
            Screen::Seam => "seam",
            Screen::SessionOver => "sessionover",
            Screen::Ruin => "ruin",
        }
    }

    /// The screen with this id, if the registry has one. Derived from the
    /// registry rather than written as a second match, so it cannot disagree
    /// with `id`.
    pub fn from_id(id: &str) -> (screen: Option<Screen>)
        ensures
            screen == screen_with_id_upto(id@, all_screens().len() as int),
    {
        let all = Self::all();
        let mut k: usize = 0;
        while k < all.len()
            invariant
                all@ == all_screens(),
                0 <= k <= all@.len(),
                screen_with_id_upto(id@, k as int) is None,
            decreases all@.len() - k,
        {
            let screen = all[k];
            if same_text(screen.id(), id) {
                proof {
                    lemma_found_stays(id@, k + 1, all_screens().len() as int);
                }
                return Some(screen);
            }
            k = k + 1;
        }
        None
    }

    /// What a menu calls it; what a player reads, and may change.
    pub fn label(self) -> (label: &'static str)
        ensures
            label@ == screen_label(self),
    {
        match self {
            Screen::Paytable => "Paytable",
            Screen::Rules => "How this cabinet plays",
            Screen::Limits => "Session limits",
            Screen::History => "This session's graph",
            Screen::RealityCheck => "Reality check",
            Screen::Settings => "Settings",
            Screen::Machines => "Machines",
            Screen::Achievements => "Awards",
            Screen::FeatureBuy => "Buy a feature",
            Screen::Ledger => "The Ledger",
            Screen::Menu => "Everything else",
            Screen::Lines => "The paylines",
            Screen::Sessions => "Your sessions",
            Screen::Proofs => "Check a spin",
            Screen::Waveforms => "Sound",
            Screen::Vision => "Colour vision",
            Screen::Bonus => "The Vault Pick",
            Screen::Gamble => "The Gamble",
            Screen::Holdspin => "The Dragon's Wrath",
            Screen::Seam => "The Seam",
            Screen::SessionOver => "That is the session",
            Screen::Ruin => "Out of credits",
        }
    }

    /// Screens a menu should offer, in the order it should offer them:
    /// everything a flag opens, minus the menu itself.
    pub fn in_menu() -> (screens: Vec<Screen>)
        ensures
            screens@ == menu_upto(all_screens().len() as int),
    {
        let all = Self::all();
        let mut screens: Vec<Screen> = Vec::new();
        let mut k: usize = 0;
        while k < all.len()
            invariant
                all@ == all_screens(),
                0 <= k <= all@.len(),
                screens@ == menu_upto(k as int),
            decreases all@.len() - k,
        {
            let screen = all[k];
            if screen.reachable_by_flag() && screen != Screen::Menu {
                screens.push(screen);
            }
            k = k + 1;
        }
        screens
    }

    /// Can it be opened by setting a flag? The dealt screens cannot: reaching
    /// them means playing until the game deals one.
    pub fn reachable_by_flag(self) -> (r: bool)
        ensures
            r == flagged(self),
    {
        match self {
            Screen::Bonus | Screen::Gamble | Screen::Holdspin | Screen::Seam | Screen::Ruin
            | Screen::SessionOver => false,
            _ => true,
        }
    }
}

proof fn lemma_ids_differ(a: Screen, b: Screen)
    requires
        a != b,
    ensures
        screen_id(a) != screen_id(b),
{
    reveal_strlit("paytable");
    reveal_strlit("rules");
    reveal_strlit("limits");
    reveal_strlit("history");
    reveal_strlit("reality");
    reveal_strlit("settings");
    reveal_strlit("machines");
    reveal_strlit("achievements");
    reveal_strlit("featurebuy");
    reveal_strlit("ledger");
    reveal_strlit("menu");
    reveal_strlit("lines");
    reveal_strlit("sessions");
    reveal_strlit("proofs");
    reveal_strlit("waveforms");
    reveal_strlit("vision");
    reveal_strlit("bonus");
    reveal_strlit("gamble");
    reveal_strlit("wrath");
    reveal_strlit("seam");
    reveal_strlit("ruin");
    reveal_strlit("sessionover");
    let x = screen_id(a);
    let y = screen_id(b);
    if x == y {
        assert(x.len() == y.len());
        assert(x[0] == y[0]);
        assert(x[1] == y[1]);
        assert(x[3] == y[3]);
    }
}

proof fn lemma_absent_before(s: Screen, k: int)
    requires
        0 <= k <= all_screens().len(),
        forall|j: int| 0 <= j < k ==> all_screens()[j] != s,
    ensures
        screen_with_id_upto(screen_id(s), k) is None,
    decreases k,
{
    if k > 0 {
        lemma_absent_before(s, k - 1);
        lemma_ids_differ(all_screens()[k - 1], s);
    }
}

/// Where a screen sits in the registry.
pub open spec fn position(s: Screen) -> int {
    match s {
        Screen::Paytable => 0,
        Screen::Rules => 1,
        Screen::Limits => 2,
        Screen::History => 3,
        Screen::RealityCheck => 4,
        Screen::Settings => 5,
        Screen::Machines => 6,
        Screen::Achievements => 7,
        Screen::FeatureBuy => 8,
        Screen::Ledger => 9,
        Screen::Menu => 10,
        Screen::Lines => 11,
        Screen::Sessions => 12,
        Screen::Proofs => 13,
        Screen::Waveforms => 14,
        Screen::Vision => 15,
        Screen::Bonus => 16,
        Screen::Gamble => 17,
        Screen::Holdspin => 18,
        Screen::Seam => 19,
        Screen::Ruin => 20,
        Screen::SessionOver => 21,
    }
}

/// Looking a screen up by its id gives that screen back: no two screens
/// share an id.
pub proof fn screen_ids_round_trip(s: Screen)
    ensures
        screen_with_id_upto(screen_id(s), all_screens().len() as int) == Some(s),
{
    let all = all_screens();
    let i = position(s);
    assert(all[i] == s);
    assert forall|j: int| 0 <= j < i implies all[j] != s by {
        lemma_screens_distinct(j, i);
    }
    lemma_absent_before(s, i);
    lemma_found_stays(screen_id(s), i + 1, all.len() as int);
}

proof fn lemma_screens_distinct(i: int, j: int)
    requires
        0 <= i < j < all_screens().len(),
    ensures
        all_screens()[i] != all_screens()[j],
{
}

proof fn lemma_menu_keeps(k: int, m: int, s: Screen)
    requires
        0 <= k <= m,
        menu_upto(k).contains(s),
    ensures
        menu_upto(m).contains(s),
    decreases m - k,
{
    if k < m {
        lemma_menu_keeps(k, m - 1, s);
        let prev = menu_upto(m - 1);
        let i = choose|i: int| 0 <= i < prev.len() && prev[i] == s;
        assert(menu_upto(m)[i] == s);
    }
}

/// Every screen a flag opens, other than the menu itself, is offered by
/// the menu, and nothing else is.
pub proof fn the_menu_offers_every_flagged_screen(s: Screen)
    ensures
        menu_upto(all_screens().len() as int).contains(s) <==> (flagged(s) && s != Screen::Menu),
{
    let n = all_screens().len() as int;
    let p = position(s);
    assert(all_screens()[p] == s);
    if flagged(s) && s != Screen::Menu {
        assert(menu_upto(p + 1)[menu_upto(p + 1).len() - 1] == s);
        lemma_menu_keeps(p + 1, n, s);
    }
    lemma_menu_only_offers(n);
}

proof fn lemma_menu_only_offers(k: int)
    ensures
        forall|i: int| 0 <= i < menu_upto(k).len() ==> flagged(#[trigger] menu_upto(k)[i]) && menu_upto(k)[i] != Screen::Menu,
    decreases k,
{
    if k > 0 {
        lemma_menu_only_offers(k - 1);
    }
}

} // verus!

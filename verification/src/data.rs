//! Cabinet data: config, symbols, reel strips, paylines, free-spin rules,
//! resolved into index-based lookup tables so the engine never searches by
//! name.

use vstd::prelude::*;
use crate::text::{decimal, is_decimal_of, parse_count, parse_usize, same_text};

pub mod features;
pub mod laws;
pub mod load;
pub mod machines;
pub mod messages;
pub mod presentation;
pub use features::{
    BonusConfig, CascadeConfig, CoinValue, FeatureAward, FeatureBuyConfig, FeatureBuyTier,
    GambleConfig, HoldSpinConfig, RiteDef, RiteKind, SeamConfig,
};
pub use machines::{machine_by_id, machines, MachineDef};
pub use presentation::{render, CelebrationText, PresentationConfig, RuleText, ShortcutText};
pub mod validate;


verus! {

/// Longest run a paytable entry can describe. Index 0..=5, so a 5-reel game
/// indexes `pay_table[symbol][count]` directly.
pub const MAX_RUN: usize = 5;

/// Entries in one paytable row: one per run length from 0 to `MAX_RUN`.
pub const PAY_SLOTS: usize = 6;

/// Why a cabinet's data was refused.
#[derive(Debug, Clone, PartialEq, Eq)]
pub enum DataError {
    NoSymbols,
    DuplicateSymbol(String),
    NonNumericPayKey { symbol: String, key: String },
    RunTooLong { symbol: String, count: usize },
    MultipleWilds,
    MultipleScatters,
    MultipleHoards,
    WildScatter,
    NoJackpotTiers,
    NegativeContribution,
    JackpotShares(i64),
    JackpotOdds(String),
    JackpotSeed(String),
    JackpotOrder,
    NoPaytableEntry(String),
    PaytableExtra(String),
    UnknownStripSymbol { reel: usize, id: String },
    EmptyGrid,
    TooManyReels(usize),
    StripCount { strips: usize, reels: usize },
    ShortStrip { reel: usize, len: usize, rows: usize },
    NoPaylines,
    WaysWithPaylines,
    WaysWithoutBetUnits,
    PaylineLength { id: u32, len: usize, reels: usize },
    PaylineRow { id: u32, row: usize, rows: usize },
    NoWild,
    NoScatter,
    NoLineBets,
    NonPositiveLineBet,
    NoHoardCapacity,
    NoAutospinChoices,
    ZeroAutospinChoice,
    NoBonusPrizes,
    NoBonusBlanks,
    BonusBoardFull,
    NoCoinValues,
    WeightlessCoins,
    NoRespins,
    /// A bought Dragon's Wrath tier places coins the grid cannot hold.
    BuyCoins { tier: String, coins: usize, cells: usize },
    EmptyRefine,
    RefineUnknown(String),
    RefineSpecial(String),
    HeightRange,
    HeightsTooTall { max: usize, rows: usize },
    ShiftingLines,
    ShapeValue { id: String, value: i64, first: String, first_value: i64 },
    RefiningShapes,
    NoGambleSteps,
    GambleCeiling,
    NoCascadeSteps,
    NoCascadeMultipliers,
    CascadeShrinks,
    TriggerEggs { eggs: usize, cells: usize },
    SeamTrigger { trigger: usize, cells: usize },
    NoRites,
    NoSeamSteps,
    SeamCeiling,
    SeamLadder,
    MissingCopy { kind: String, key: String },
}

/// How a cabinet decides what has won.
#[derive(Debug, Clone, Copy, PartialEq, Eq, Structural)]
pub enum Evaluation {
    /// Fixed paths across the grid; one win per line at most.
    Lines,
    /// Any path: a symbol pays if it appears on every reel from the first,
    /// multiplied by how many paths there are.
    Ways,
    /// Connected groups anywhere on the grid, ignoring the reels.
    Cluster,
}

/// Range of visible rows a reel may take on a shifting cabinet.
#[derive(Debug, Clone, Copy, PartialEq, Eq)]
pub struct ReelHeights {
    pub min: usize,
    pub max: usize,
}

/// The numbers and names that define a cabinet. The effects volume, which
/// only the sound system reads, is carried by the presentation layer.
#[derive(Debug)]
pub struct GameConfig {
    pub game_name: String,
    pub display_name: String,
    pub save_slot: String,
    pub version: String,
    pub starting_balance: i64,
    pub reel_count: usize,
    pub row_count: usize,
    pub line_bets: Vec<i64>,
    pub default_line_bet_index: usize,
    pub hoard_capacity: u32,
    pub hatch_pot_multiplier: i64,
    /// What breaking the hoard early returns, per thousand of the banked pot.
    pub hoard_salvage_permille: u32,
    /// What the vault advances a player with nothing left to break.
    pub vault_stake: i64,
    pub free_spin_multiplier: i64,
    pub autospin_choices: Vec<u32>,
    pub default_autospin_choice: usize,
    /// A win of this many total bets or more counts as a big win.
    pub big_win_multiple: i64,
    pub evaluation: Evaluation,
    /// Reels that change height every spin; `None` on a fixed cabinet.
    pub reel_heights: Option<ReelHeights>,
    /// Line-bet units one spin costs; unset on a payline machine.
    pub bet_units: Option<usize>,
    pub symbol_set: String,
    pub theme: Option<String>,
}

/// One symbol: what it is, and what it pays for each run length.
#[derive(Debug)]
pub struct SymbolDef {
    pub id: String,
    pub name: String,
    pub tier: String,
    pub short: String,
    pub art: String,
    pub texture: String,
    pub is_wild: bool,
    pub is_scatter: bool,
    /// Contributes to the hoard meter when it lands.
    pub is_hoard: bool,
    /// Run length, written as text ("3"/"4"/"5"), to payout multiplier.
    pub pays: Vec<(String, i64)>,
}

/// The symbol registry, abstractly.
pub struct SymbolsView {
    pub defs: Seq<SymbolDef>,
    pub pays: Seq<Seq<i64>>,
    pub wild: Option<usize>,
    pub scatter: Option<usize>,
    pub hoard: Option<usize>,
}

impl SymbolsView {
    pub open spec fn len(self) -> int {
        self.defs.len() as int
    }

    pub open spec fn id(self, symbol: int) -> Seq<char> {
        self.defs[symbol].id@
    }

    /// Payout multiplier for `count` matching symbols; 0 past the longest run.
    pub open spec fn pay(self, symbol: int, count: int) -> i64 {
        if count > MAX_RUN {
            0
        } else {
            self.pays[symbol][count]
        }
    }

    pub open spec fn is_wild(self, symbol: int) -> bool {
        self.wild == Some(symbol as usize)
    }

    pub open spec fn is_scatter(self, symbol: int) -> bool {
        self.scatter == Some(symbol as usize)
    }

    pub open spec fn is_hoard(self, symbol: int) -> bool {
        self.hoard == Some(symbol as usize)
    }

    /// The first symbol with this id, if any.
    pub open spec fn index_of(self, id: Seq<char>) -> Option<usize> {
        if exists|i: int| 0 <= i < self.defs.len() && self.id(i) == id {
            Some((choose|i: int| 0 <= i < self.defs.len() && self.id(i) == id) as usize)
        } else {
            None
        }
    }

    pub open spec fn wf(self) -> bool {
        &&& self.defs.len() == self.pays.len()
        &&& self.defs.len() > 0
        &&& forall|i: int| 0 <= i < self.pays.len() ==> (#[trigger] self.pays[i]).len() == PAY_SLOTS
        &&& forall|i: int, j: int|
            0 <= i < j < self.defs.len() ==> self.id(i) != self.id(j)
        &&& self.wild matches Some(w) ==> w < self.defs.len()
        &&& self.scatter matches Some(s) ==> s < self.defs.len()
        &&& self.hoard matches Some(h) ==> h < self.defs.len()
        &&& !(self.wild is Some && self.wild == self.scatter)
    }
}

/// Parse of one symbol's pay entries: the row they build, or the first
/// entry that cannot be read (with the count it named, when it named one too
/// large).
pub open spec fn pay_row(pays: Seq<(String, i64)>) -> Result<Seq<i64>, (String, Option<usize>)>
    decreases pays.len(),
{
    if pays.len() == 0 {
        Ok(Seq::new(PAY_SLOTS as nat, |i: int| 0i64))
    } else {
        match pay_row(pays.drop_last()) {
            Err(e) => Err(e),
            Ok(row) => {
                let (key, value) = pays.last();
                match parse_usize(key@) {
                    None => Err((key, None)),
                    Some(count) => if count > MAX_RUN {
                        Err((key, Some(count)))
                    } else {
                        Ok(row.update(count as int, value))
                    },
                }
            },
        }
    }
}

/// The error building the registry stops at, looking at definition `k`
/// having passed every definition before it.
pub open spec fn symbol_error_at(defs: Seq<SymbolDef>, k: int) -> Option<DataError> {
    let def = defs[k];
    if exists|j: int| 0 <= j < k && defs[j].id@ == def.id@ {
        Some(DataError::DuplicateSymbol(def.id))
    } else {
        match pay_row(def.pays@) {
            Err((key, None)) => Some(DataError::NonNumericPayKey { symbol: def.id, key }),
            Err((key, Some(count))) => Some(DataError::RunTooLong { symbol: def.id, count }),
            Ok(_) => if def.is_wild && exists|j: int| 0 <= j < k && defs[j].is_wild {
                Some(DataError::MultipleWilds)
            } else if def.is_scatter && exists|j: int| 0 <= j < k && defs[j].is_scatter {
                Some(DataError::MultipleScatters)
            } else if def.is_hoard && exists|j: int| 0 <= j < k && defs[j].is_hoard {
                Some(DataError::MultipleHoards)
            } else {
                None
            },
        }
    }
}

/// The first error among the first `k` definitions.
pub open spec fn symbols_error_upto(defs: Seq<SymbolDef>, k: int) -> Option<DataError>
    decreases k,
{
    if k <= 0 {
        None
    } else {
        match symbols_error_upto(defs, k - 1) {
            Some(e) => Some(e),
            None => symbol_error_at(defs, k - 1),
        }
    }
}

/// Why a list of definitions cannot become a registry, if it cannot.
pub open spec fn symbols_error(defs: Seq<SymbolDef>) -> Option<DataError> {
    if defs.len() == 0 {
        Some(DataError::NoSymbols)
    } else {
        match symbols_error_upto(defs, defs.len() as int) {
            Some(e) => Some(e),
            None => if exists|i: int| 0 <= i < defs.len() && defs[i].is_wild && defs[i].is_scatter {
                Some(DataError::WildScatter)
            } else {
                None
            },
        }
    }
}

/// The symbol registry resolved into index lookups.
#[derive(Debug)]
pub struct Symbols {
    defs: Vec<SymbolDef>,
    pay_table: Vec<Vec<i64>>,
    wild: Option<usize>,
    scatter: Option<usize>,
    hoard: Option<usize>,
}

impl View for Symbols {
    type V = SymbolsView;

    closed spec fn view(&self) -> SymbolsView {
        SymbolsView {
            defs: self.defs@,
            pays: self.pay_table@.map_values(|row: Vec<i64>| row@),
            wild: self.wild,
            scatter: self.scatter,
            hoard: self.hoard,
        }
    }
}

/// The index of the one definition whose flag is set, if any.
pub open spec fn flagged(flags: Seq<bool>) -> Option<usize> {
    if exists|i: int| 0 <= i < flags.len() && flags[i] {
        Some((choose|i: int| 0 <= i < flags.len() && flags[i]) as usize)
    } else {
        None
    }
}

/// The registry a clean list of definitions builds.
pub open spec fn symbols_built(defs: Seq<SymbolDef>) -> SymbolsView {
    SymbolsView {
        defs: defs,
        pays: defs.map_values(|d: SymbolDef| pay_row(d.pays@)->Ok_0),
        wild: flagged(defs.map_values(|d: SymbolDef| d.is_wild)),
        scatter: flagged(defs.map_values(|d: SymbolDef| d.is_scatter)),
        hoard: flagged(defs.map_values(|d: SymbolDef| d.is_hoard)),
    }
}

impl Symbols {
    /// Resolve a list of definitions into a registry, refusing duplicate ids,
    /// unreadable pay entries, and more than one wild, scatter or hoard symbol.
    pub fn new(defs: Vec<SymbolDef>) -> (r: Result<Self, DataError>)
        ensures
            match r {
                Ok(symbols) => symbols_error(defs@) is None && symbols@ == symbols_built(defs@)
                    && symbols@.wf(),
                Err(e) => symbols_error(defs@) == Some(e),
            },
    {
        if defs.len() == 0 {
            return Err(DataError::NoSymbols);
        }
        let ghost all = defs@;
        let mut pay_table: Vec<Vec<i64>> = Vec::new();
        let mut wild: Option<usize> = None;
        let mut scatter: Option<usize> = None;
        let mut hoard: Option<usize> = None;
        let mut index: usize = 0;
        while index < defs.len()
            invariant
                all == defs@,
                0 <= index <= defs@.len(),
                symbols_error_upto(all, index as int) is None,
                pay_table@.len() == index,
                forall|i: int| 0 <= i < index ==> pay_row(#[trigger] all[i].pays@)
                    == Ok::<Seq<i64>, (String, Option<usize>)>(pay_table@[i]@),
                forall|i: int, j: int| 0 <= i < j < index ==> all[i].id@ != all[j].id@,
                forall|i: int| 0 <= i < index ==> (#[trigger] all[i].is_wild <==> wild == Some(i as usize)),
                forall|i: int| 0 <= i < index ==> (#[trigger] all[i].is_scatter <==> scatter == Some(i as usize)),
                forall|i: int| 0 <= i < index ==> (#[trigger] all[i].is_hoard <==> hoard == Some(i as usize)),
                wild matches Some(w) ==> w < index,
                scatter matches Some(w) ==> w < index,
                hoard matches Some(w) ==> w < index,
            decreases defs@.len() - index,
        {
            let def = &defs[index];
            let mut j: usize = 0;
            while j < index
                invariant
                    all == defs@,
                    0 <= j <= index < defs@.len(),
                    def == all[index as int],
                    symbols_error_upto(all, index as int) is None,
                    forall|i: int| 0 <= i < j ==> all[i].id@ != def.id@,
                decreases index - j,
            {
                if defs[j].id == def.id {
                    assert(all[j as int].id@ == def.id@);
                    let id = def.id.clone();
                    proof {
                        lemma_symbols_error_stops(all, index as int);
                    }
                    return Err(DataError::DuplicateSymbol(id));
                }
                j = j + 1;
            }
            assert(!exists|j: int| 0 <= j < index && all[j].id@ == def.id@);
            let row = match build_pay_row(&def.pays) {
                Ok(row) => row,
                Err((key, count)) => {
                    let id = def.id.clone();
                    proof {
                        lemma_symbols_error_stops(all, index as int);
                    }
                    return match count {
                        None => Err(DataError::NonNumericPayKey { symbol: id, key }),
                        Some(count) => Err(DataError::RunTooLong { symbol: id, count }),
                    };
                },
            };
            proof {
                lemma_pay_row_len(def.pays@);
            }
            pay_table.push(row);
            if def.is_wild {
                if wild.is_some() {
                    proof {
                        let w = wild->Some_0;
                        assert(all[w as int].is_wild);
                        lemma_symbols_error_stops(all, index as int);
                    }
                    return Err(DataError::MultipleWilds);
                }
                wild = Some(index);
            }
            if def.is_scatter {
                if scatter.is_some() {
                    proof {
                        let w = scatter->Some_0;
                        assert(all[w as int].is_scatter);
                        lemma_symbols_error_stops(all, index as int);
                    }
                    return Err(DataError::MultipleScatters);
                }
                scatter = Some(index);
            }
            if def.is_hoard {
                if hoard.is_some() {
                    proof {
                        let w = hoard->Some_0;
                        assert(all[w as int].is_hoard);
                        lemma_symbols_error_stops(all, index as int);
                    }
                    return Err(DataError::MultipleHoards);
                }
                hoard = Some(index);
            }
            index = index + 1;
        }
        let mut k: usize = 0;
        while k < defs.len()
            invariant
                all == defs@,
                0 <= k <= defs@.len(),
                forall|i: int| 0 <= i < k ==> !(#[trigger] all[i].is_wild && all[i].is_scatter),
                symbols_error_upto(all, all.len() as int) is None,
                all.len() > 0,
                pay_table@.len() == all.len(),
                forall|i: int| 0 <= i < all.len() ==> pay_row(#[trigger] all[i].pays@)
                    == Ok::<Seq<i64>, (String, Option<usize>)>(pay_table@[i]@),
                forall|i: int, j: int| 0 <= i < j < all.len() ==> all[i].id@ != all[j].id@,
                forall|i: int| 0 <= i < all.len() ==> (#[trigger] all[i].is_wild <==> wild == Some(i as usize)),
                forall|i: int| 0 <= i < all.len() ==> (#[trigger] all[i].is_scatter <==> scatter == Some(i as usize)),
                forall|i: int| 0 <= i < all.len() ==> (#[trigger] all[i].is_hoard <==> hoard == Some(i as usize)),
                wild matches Some(w) ==> w < all.len(),
                scatter matches Some(w) ==> w < all.len(),
                hoard matches Some(w) ==> w < all.len(),
            decreases defs@.len() - k,
        {
            if defs[k].is_wild && defs[k].is_scatter {
                assert(all[k as int].is_wild && all[k as int].is_scatter);
                return Err(DataError::WildScatter);
            }
            k = k + 1;
        }
        let symbols = Symbols { defs, pay_table, wild, scatter, hoard };
        proof {
            let built = symbols_built(all);
            lemma_flagged(all.map_values(|d: SymbolDef| d.is_wild), wild);
            lemma_flagged(all.map_values(|d: SymbolDef| d.is_scatter), scatter);
            lemma_flagged(all.map_values(|d: SymbolDef| d.is_hoard), hoard);
            assert(symbols@.pays =~= built.pays);
            assert(symbols@.defs == built.defs);
            if wild is Some && wild == scatter {
                let w = wild->Some_0;
                assert(all[w as int].is_wild && all[w as int].is_scatter);
            }
            assert(symbols_error(all) is None);
            assert(symbols@.wild == built.wild);
            assert(symbols@ == built);
            assert forall|i: int| 0 <= i < symbols@.pays.len() implies (#[trigger] symbols@.pays[i]).len() == PAY_SLOTS by {
                lemma_pay_row_len(all[i].pays@);
            }
            assert(symbols@.wf());
        }
        Ok(symbols)
    }

    pub fn len(&self) -> (n: usize)
        ensures
            n == self@.len(),
    {
        self.defs.len()
    }

    pub fn get(&self, index: usize) -> (def: &SymbolDef)
        requires
            index < self@.len(),
        ensures
            *def == self@.defs[index as int],
    {
        &self.defs[index]
    }

    /// The symbol with this id, if the registry has one.
    pub fn index_of(&self, id: &str) -> (r: Option<usize>)
        requires
            self@.wf(),
        ensures
            r == self@.index_of(id@),
    {
        let mut i: usize = 0;
        while i < self.defs.len()
            invariant
                0 <= i <= self@.len(),
                self@.wf(),
                forall|j: int| 0 <= j < i ==> self@.id(j) != id@,
            decreases self@.len() - i,
        {
            if same_text(self.defs[i].id.as_str(), id) {
                proof {
                    assert(self@.id(i as int) == id@);
                    let k = choose|k: int| 0 <= k < self@.defs.len() && self@.id(k) == id@;
                    if k < i {
                        assert(self@.id(k) != self@.id(i as int));
                    } else if k > i {
                        assert(self@.id(i as int) != self@.id(k));
                    }
                }
                return Some(i);
            }
            i = i + 1;
        }
        None
    }

    /// Payout multiplier for `count` matching symbols, 0 when the run does
    /// not pay.
    pub fn pay(&self, symbol: usize, count: usize) -> (m: i64)
        requires
            self@.wf(),
            symbol < self@.len(),
        ensures
            m == self@.pay(symbol as int, count as int),
    {
        if count > MAX_RUN {
            return 0;
        }
        assert(self@.pays[symbol as int] == self.pay_table@[symbol as int]@);
        self.pay_table[symbol][count]
    }

    pub fn wild(&self) -> (r: Option<usize>)
        ensures
            r == self@.wild,
    {
        self.wild
    }

    pub fn scatter(&self) -> (r: Option<usize>)
        ensures
            r == self@.scatter,
    {
        self.scatter
    }

    pub fn hoard(&self) -> (r: Option<usize>)
        ensures
            r == self@.hoard,
    {
        self.hoard
    }

    pub fn is_wild(&self, symbol: usize) -> (r: bool)
        ensures
            r == self@.is_wild(symbol as int),
    {
        match self.wild {
            Some(w) => w == symbol,
            None => false,
        }
    }

    pub fn is_scatter(&self, symbol: usize) -> (r: bool)
        ensures
            r == self@.is_scatter(symbol as int),
    {
        match self.scatter {
            Some(s) => s == symbol,
            None => false,
        }
    }

    pub fn is_hoard(&self, symbol: usize) -> (r: bool)
        ensures
            r == self@.is_hoard(symbol as int),
    {
        match self.hoard {
            Some(h) => h == symbol,
            None => false,
        }
    }
}

/// A definition that fails stops the whole build with its error.
proof fn lemma_symbols_error_stops(defs: Seq<SymbolDef>, k: int)
    requires
        0 <= k < defs.len(),
        symbols_error_upto(defs, k) is None,
        symbol_error_at(defs, k) is Some,
    ensures
        symbols_error(defs) == symbol_error_at(defs, k),
{
    lemma_error_upto_sticks(defs, k + 1, defs.len() as int);
}

proof fn lemma_error_upto_sticks(defs: Seq<SymbolDef>, k: int, m: int)
    requires
        0 < k <= m <= defs.len(),
        symbols_error_upto(defs, k) is Some,
    ensures
        symbols_error_upto(defs, m) == symbols_error_upto(defs, k),
    decreases m - k,
{
    if k < m {
        lemma_error_upto_sticks(defs, k, m - 1);
    }
}

proof fn lemma_pay_row_len(pays: Seq<(String, i64)>)
    ensures
        pay_row(pays) matches Ok(row) ==> row.len() == PAY_SLOTS,
    decreases pays.len(),
{
    if pays.len() > 0 {
        lemma_pay_row_len(pays.drop_last());
    }
}

/// With exactly the flagged index recorded, `flagged` names it.
proof fn lemma_flagged(flags: Seq<bool>, found: Option<usize>)
    requires
        forall|i: int| 0 <= i < flags.len() ==> (#[trigger] flags[i] <==> found == Some(i as usize)),
        found matches Some(w) ==> w < flags.len(),
    ensures
        flagged(flags) == found,
{
    if let Some(w) = found {
        assert(flags[w as int]);
    }
}

/// Build one row of the paytable from a symbol's pay entries.
fn build_pay_row(pays: &Vec<(String, i64)>) -> (r: Result<Vec<i64>, (String, Option<usize>)>)
    ensures
        match r {
            Ok(row) => pay_row(pays@) == Ok::<Seq<i64>, (String, Option<usize>)>(row@),
            Err(e) => pay_row(pays@) == Err::<Seq<i64>, (String, Option<usize>)>(e),
        },
{
    let mut row: Vec<i64> = Vec::new();
    let mut k: usize = 0;
    while k < PAY_SLOTS
        invariant
            0 <= k <= PAY_SLOTS,
            row@ == Seq::new(k as nat, |i: int| 0i64),
        decreases PAY_SLOTS - k,
    {
        row.push(0);
        k = k + 1;
        assert(row@ =~= Seq::new(k as nat, |i: int| 0i64));
    }
    let mut j: usize = 0;
    assert(pays@.subrange(0, 0) =~= Seq::<(String, i64)>::empty());
    while j < pays.len()
        invariant
            0 <= j <= pays@.len(),
            pay_row(pays@.subrange(0, j as int)) == Ok::<Seq<i64>, (String, Option<usize>)>(row@),
            row@.len() == PAY_SLOTS,
        decreases pays@.len() - j,
    {
        let ghost pre = pays@.subrange(0, j as int);
        let ghost next = pays@.subrange(0, j + 1);
        assert(next.drop_last() == pre);
        let entry = &pays[j];
        match parse_count(entry.0.as_str()) {
            None => {
                let key = entry.0.clone();
                proof {
                    lemma_pay_row_prefix_err(pays@, (j + 1) as int);
                }
                return Err((key, None));
            },
            Some(count) => {
                if count > MAX_RUN {
                    let key = entry.0.clone();
                    proof {
                        lemma_pay_row_prefix_err(pays@, (j + 1) as int);
                    }
                    return Err((key, Some(count)));
                }
                row.set(count, entry.1);
            },
        }
        j = j + 1;
    }
    assert(pays@.subrange(0, j as int) == pays@);
    Ok(row)
}

/// Once a prefix of the entries fails, the whole list fails the same way.
proof fn lemma_pay_row_prefix_err(pays: Seq<(String, i64)>, k: int)
    requires
        0 <= k <= pays.len(),
        pay_row(pays.subrange(0, k)) is Err,
    ensures
        pay_row(pays) == pay_row(pays.subrange(0, k)),
    decreases pays.len() - k,
{
    if k < pays.len() {
        let next = pays.subrange(0, k + 1);
        assert(next.drop_last() == pays.subrange(0, k));
        lemma_pay_row_prefix_err(pays, k + 1);
    } else {
        assert(pays.subrange(0, k) == pays);
    }
}

/// One progressive tier.
#[derive(Debug)]
pub struct JackpotTier {
    pub id: String,
    pub name: String,
    /// What the pot resets to after it pays.
    pub seed: i64,
    /// Slice of the pooled contribution, in permille. All tiers total 1000.
    pub share_permille: i64,
    /// One win per this many credits of turnover.
    pub odds_per_credit: i64,
    /// Whether this pot belongs to the whole floor rather than this cabinet.
    pub shared: bool,
}

#[derive(Debug)]
pub struct Jackpots {
    /// Fraction of every stake diverted into the pots, in permille.
    pub contribution_permille: i64,
    /// Ordered most frequent to least frequent.
    pub tiers: Vec<JackpotTier>,
}

pub open spec fn fits_i64(x: int) -> bool {
    i64::MIN <= x <= i64::MAX
}

/// Sum of the first `k` tiers' shares.
pub open spec fn shares_upto(tiers: Seq<JackpotTier>, k: int) -> int
    decreases k,
{
    if k <= 0 {
        0
    } else {
        shares_upto(tiers, k - 1) + tiers[k - 1].share_permille
    }
}

/// The first tier whose odds or seed is out of range, as the error it raises.
pub open spec fn tier_error_upto(tiers: Seq<JackpotTier>, k: int) -> Option<DataError>
    decreases k,
{
    if k <= 0 {
        None
    } else {
        match tier_error_upto(tiers, k - 1) {
            Some(e) => Some(e),
            None => {
                let tier = tiers[k - 1];
                if tier.odds_per_credit <= 0 {
                    Some(DataError::JackpotOdds(tier.id))
                } else if tier.seed < 0 {
                    Some(DataError::JackpotSeed(tier.id))
                } else {
                    None
                }
            },
        }
    }
}

/// Why a progressive ladder is malformed, if it is.
pub open spec fn jackpots_error(jackpots: Jackpots) -> Option<DataError> {
    let tiers = jackpots.tiers@;
    if tiers.len() == 0 {
        Some(DataError::NoJackpotTiers)
    } else if jackpots.contribution_permille < 0 {
        Some(DataError::NegativeContribution)
    } else if shares_upto(tiers, tiers.len() as int) != 1000 {
        Some(DataError::JackpotShares(shares_upto(tiers, tiers.len() as int) as i64))
    } else if tier_error_upto(tiers, tiers.len() as int) is Some {
        tier_error_upto(tiers, tiers.len() as int)
    } else if exists|i: int|
        0 <= i < tiers.len() - 1 && tiers[i + 1].odds_per_credit <= #[trigger] tiers[i].odds_per_credit {
        Some(DataError::JackpotOrder)
    } else {
        None
    }
}

/// Adding up the shares never leaves `i64` part way through.
pub open spec fn shares_fit(tiers: Seq<JackpotTier>) -> bool {
    forall|k: int| 0 <= k <= tiers.len() ==> fits_i64(#[trigger] shares_upto(tiers, k))
}

/// Validate progressive jackpot data before it can become session state.
#[verifier::loop_isolation(false)]
pub fn validate_jackpots(jackpots: &Jackpots) -> (r: Result<(), DataError>)
    requires
        jackpots.tiers@.len() > 0 && jackpots.contribution_permille >= 0 ==> shares_fit(jackpots.tiers@),
    ensures
        match r {
            Ok(()) => jackpots_error(*jackpots) is None,
            Err(e) => jackpots_error(*jackpots) == Some(e),
        },
{
    let tiers = &jackpots.tiers;
    if tiers.len() == 0 {
        return Err(DataError::NoJackpotTiers);
    }
    if jackpots.contribution_permille < 0 {
        return Err(DataError::NegativeContribution);
    }
    let mut shares: i64 = 0;
    let mut i: usize = 0;
    while i < tiers.len()
        invariant
            0 <= i <= tiers@.len(),
            shares_fit(tiers@),
            shares == shares_upto(tiers@, i as int),
        decreases tiers@.len() - i,
    {
        assert(fits_i64(shares_upto(tiers@, i + 1)));
        shares = shares + tiers[i].share_permille;
        i = i + 1;
    }
    if shares != 1000 {
        return Err(DataError::JackpotShares(shares));
    }
    let mut k: usize = 0;
    while k < tiers.len()
        invariant
            0 <= k <= tiers@.len(),
            tier_error_upto(tiers@, k as int) is None,
        decreases tiers@.len() - k,
    {
        let tier = &tiers[k];
        if tier.odds_per_credit <= 0 {
            let id = tier.id.clone();
            proof {
                lemma_tier_error_sticks(tiers@, k + 1, tiers@.len() as int);
            }
            return Err(DataError::JackpotOdds(id));
        }
        if tier.seed < 0 {
            let id = tier.id.clone();
            proof {
                lemma_tier_error_sticks(tiers@, k + 1, tiers@.len() as int);
            }
            return Err(DataError::JackpotSeed(id));
        }
        k = k + 1;
    }
    assert(tier_error_upto(tiers@, tiers@.len() as int) is None);
    let mut w: usize = 0;
    while w + 1 < tiers.len()
        invariant
            0 <= w < tiers@.len(),
            tier_error_upto(tiers@, tiers@.len() as int) is None,
            forall|j: int|
                0 <= j < w ==> !(tiers@[j + 1].odds_per_credit <= #[trigger] tiers@[j].odds_per_credit),
        decreases tiers@.len() - w,
    {
        if tiers[w + 1].odds_per_credit <= tiers[w].odds_per_credit {
            return Err(DataError::JackpotOrder);
        }
        w = w + 1;
    }
    Ok(())
}

proof fn lemma_tier_error_sticks(tiers: Seq<JackpotTier>, k: int, m: int)
    requires
        0 < k <= m <= tiers.len(),
        tier_error_upto(tiers, k) is Some,
    ensures
        tier_error_upto(tiers, m) == tier_error_upto(tiers, k),
    decreases m - k,
{
    if k < m {
        lemma_tier_error_sticks(tiers, k, m - 1);
    }
}

#[derive(Debug)]
pub struct Payline {
    pub id: u32,
    pub name: String,
    pub rows: Vec<usize>,
}

/// The ante side bet: pay more per spin for a better chance at the feature.
#[derive(Debug)]
pub struct Ante {
    /// What the stake is multiplied by, in permille. 1250 is a quarter more.
    pub cost_permille: i64,
    /// Extra scatters woven into the first reel while the ante is on.
    pub extra_scatters: usize,
}

/// One way of running the free-spin feature.
#[derive(Debug)]
pub struct FreeSpinShape {
    pub id: String,
    pub name: String,
    /// Share of the awarded spins this shape grants, in permille.
    pub spin_permille: i64,
    /// What wins are multiplied by while it runs.
    pub multiplier: i64,
}

/// Rust's `/` on integers: the quotient rounded toward zero.
pub open spec fn trunc_div(a: int, b: int) -> int {
    if a >= 0 {
        a / b
    } else {
        -((-a) / b)
    }
}

impl FreeSpinShape {
    /// Spins times multiplier: what makes two shapes worth the same.
    pub fn value(&self) -> (v: i64)
        requires
            fits_i64(self.spin_permille * self.multiplier),
        ensures
            v == self.spin_permille * self.multiplier,
    {
        self.spin_permille * self.multiplier
    }

    /// Spins this shape grants for an award of `awarded`, and at least one.
    pub fn spins(&self, awarded: u32) -> (n: u32)
        requires
            fits_i64(awarded * self.spin_permille),
        ensures
            n == (if trunc_div(awarded * self.spin_permille, 1000) >= 1 {
                trunc_div(awarded * self.spin_permille, 1000)
            } else {
                1
            }) as u32,
    {
        let share = (awarded as i64 * self.spin_permille) / 1000;
        let kept = if share >= 1 {
            share
        } else {
            1
        };
        kept as u32
    }
}

/// Progressive symbol removal during free spins: each free spin burns the
/// next symbol of `order` off every strip.
#[derive(Debug)]
pub struct Refine {
    pub order: Vec<String>,
}

#[derive(Debug)]
pub struct FreeSpinsConfig {
    /// Scatter count, written as text ("3"/"4"/"5"), to free spins awarded.
    /// Each key appears once.
    pub awards: Vec<(String, u32)>,
    pub retrigger: bool,
    pub multiplier: i64,
    pub expanding_wilds: bool,
    /// Symbols burned off the strips as the feature runs.
    pub refine: Option<Refine>,
    /// The side bet that buys a better chance at this feature.
    pub ante: Option<Ante>,
    /// The ways this feature can be run, all worth the same.
    pub shapes: Vec<FreeSpinShape>,
}

/// The fewest scatters that award anything among the first `k` entries;
/// `usize::MAX` when none does.
pub open spec fn trigger_upto(awards: Seq<(String, u32)>, k: int) -> usize
    decreases k,
{
    if k <= 0 {
        usize::MAX
    } else {
        let prev = trigger_upto(awards, k - 1);
        let (key, spins) = awards[k - 1];
        match parse_usize(key@) {
            Some(count) if spins > 0 && count < prev => count,
            _ => prev,
        }
    }
}

/// The spins awarded for landing `count` scatters: the entry written as that
/// number, or nothing.
pub open spec fn award_of(awards: Seq<(String, u32)>, count: usize) -> u32 {
    if exists|i: int| 0 <= i < awards.len() && awards[i].0@ == decimal(count as nat) {
        awards[choose|i: int| 0 <= i < awards.len() && awards[i].0@ == decimal(count as nat)].1
    } else {
        0
    }
}

impl FreeSpinsConfig {
    /// Keys are unique, as in the JSON object they come from.
    pub open spec fn wf(&self) -> bool {
        forall|i: int, j: int|
            0 <= i < j < self.awards@.len() ==> self.awards@[i].0@ != self.awards@[j].0@
    }

    /// The fewest scatters that award anything: the count the reels are
    /// chasing. `usize::MAX` when no count awards spins.
    pub fn trigger_count(&self) -> (n: usize)
        ensures
            n == trigger_upto(self.awards@, self.awards@.len() as int),
    {
        let mut best: usize = usize::MAX;
        let mut i: usize = 0;
        while i < self.awards.len()
            invariant
                0 <= i <= self.awards@.len(),
                best == trigger_upto(self.awards@, i as int),
            decreases self.awards@.len() - i,
        {
            let entry = &self.awards[i];
            if entry.1 > 0 {
                match parse_count(entry.0.as_str()) {
                    Some(count) => {
                        if count < best {
                            best = count;
                        }
                    },
                    None => {},
                }
            }
            i = i + 1;
        }
        best
    }

    pub fn award_for(&self, scatter_count: usize) -> (n: u32)
        requires
            self.wf(),
        ensures
            n == award_of(self.awards@, scatter_count),
    {
        let mut i: usize = 0;
        while i < self.awards.len()
            invariant
                0 <= i <= self.awards@.len(),
                self.wf(),
                forall|j: int| 0 <= j < i ==> self.awards@[j].0@ != decimal(scatter_count as nat),
            decreases self.awards@.len() - i,
        {
            if is_decimal_of(self.awards[i].0.as_str(), scatter_count) {
                proof {
                    let k = choose|k: int|
                        0 <= k < self.awards@.len() && self.awards@[k].0@ == decimal(
                            scatter_count as nat,
                        );
                    if k < i {
                    } else if k > i {
                        assert(self.awards@[i as int].0@ != self.awards@[k].0@);
                    }
                }
                return self.awards[i].1;
            }
            i = i + 1;
        }
        0
    }
}

/// How many times a strip is repeated before the ante's scatters are woven
/// in: one extra scatter against the strip repeated eight times is a step
/// small enough to price.
pub const ANTE_STRIP_REPEAT: usize = 8;

/// For `n > 0`: `a * n <= b` exactly when `a <= b / n`.
pub proof fn lemma_mul_le_iff_le_div(a: int, b: int, n: int)
    requires
        n > 0,
        a >= 0,
        b >= 0,
    ensures
        (a * n <= b) <==> (a <= b / n),
{
    vstd::arithmetic::div_mod::lemma_fundamental_div_mod(b, n);
    vstd::arithmetic::div_mod::lemma_mod_bound(b, n);
    let q = b / n;
    let r = b % n;
    if a <= q {
        assert(a * n <= b) by (nonlinear_arith)
            requires
                a <= q,
                n > 0,
                b == n * q + r,
                r >= 0,
        ;
    } else {
        assert(a * n > b) by (nonlinear_arith)
            requires
                a >= q + 1,
                n > 0,
                b == n * q + r,
                r < n,
        ;
    }
}

/// Copies of the woven symbol that follow entry `i` of an `n`-long strip.
pub open spec fn after_count(n: int, extra: int, i: int) -> int {
    ((i + 1) * extra) / n - (i * extra) / n
}

/// The first `k` entries of the strip, each followed by its share of the
/// woven copies.
pub open spec fn woven_upto(strip: Seq<usize>, symbol: usize, extra: int, k: int) -> Seq<usize>
    decreases k,
{
    if k <= 0 {
        Seq::empty()
    } else {
        woven_upto(strip, symbol, extra, k - 1) + seq![strip[k - 1]] + Seq::new(
            after_count(strip.len() as int, extra, k - 1) as nat,
            |j: int| symbol,
        )
    }
}

/// `extra` copies of `symbol` woven into `strip` at even spacing: copy `j`
/// goes in right after entry `i` for the first `i` with
/// `(j + 1) * len <= (i + 1) * extra`.
pub open spec fn spec_weave(strip: Seq<usize>, symbol: usize, extra: int) -> Seq<usize> {
    if extra == 0 || strip.len() == 0 {
        strip
    } else {
        woven_upto(strip, symbol, extra, strip.len() as int)
    }
}

/// Weave `extra` copies of `symbol` into a strip at even spacing. The result
/// is longer than the original: adding a symbol without removing one is what
/// raises that symbol's share.
pub fn weave(strip: &[usize], symbol: usize, extra: usize) -> (woven: Vec<usize>)
    requires
        strip@.len() * extra <= usize::MAX,
    ensures
        woven@ == spec_weave(strip@, symbol, extra as int),
{
    let n = strip.len();
    if extra == 0 || n == 0 {
        let mut copy: Vec<usize> = Vec::new();
        let mut i: usize = 0;
        while i < n
            invariant
                n == strip@.len(),
                0 <= i <= n,
                copy@ == strip@.subrange(0, i as int),
            decreases n - i,
        {
            copy.push(strip[i]);
            i = i + 1;
            assert(copy@ =~= strip@.subrange(0, i as int));
        }
        assert(copy@ =~= strip@);
        return copy;
    }
    let mut woven: Vec<usize> = Vec::new();
    let mut next: usize = 0;
    let mut index: usize = 0;
    assert((0 * extra) / (n as int) == 0) by (nonlinear_arith)
        requires
            n > 0,
    ;
    while index < n
        invariant
            n == strip@.len(),
            n > 0,
            extra > 0,
            n * extra <= usize::MAX,
            0 <= index <= n,
            next == (index * extra) / (n as int),
            woven@ == woven_upto(strip@, symbol, extra as int, index as int),
        decreases n - index,
    {
        woven.push(strip[index]);
        let ghost start = next;
        let ghost bound = ((index + 1) * extra) / (n as int);
        proof {
            assert(index * extra <= (index + 1) * extra) by (nonlinear_arith);
            vstd::arithmetic::div_mod::lemma_div_is_ordered(
                index * extra,
                (index + 1) * extra,
                n as int,
            );
            assert((index + 1) * extra <= n * extra) by (nonlinear_arith)
                requires
                    index < n,
            ;
            vstd::arithmetic::div_mod::lemma_div_is_ordered((index + 1) * extra, n * extra, n as int);
            assert((n * extra) / (n as int) == extra) by (nonlinear_arith)
                requires
                    n > 0,
            ;
        }
        while room(next, n, index, extra)
            invariant
                n == strip@.len(),
                n > 0,
                extra > 0,
                n * extra <= usize::MAX,
                0 <= index < n,
                start <= next <= bound,
                bound <= extra,
                bound == ((index + 1) * extra) / (n as int),
                woven@ == woven_upto(strip@, symbol, extra as int, index as int) + seq![strip@[index as int]]
                    + Seq::new((next - start) as nat, |j: int| symbol),
            decreases extra - next,
        {
            proof {
                assert((next + 1) * n <= extra * n) by (nonlinear_arith)
                    requires
                        next < extra,
                ;
                assert((index + 1) * extra <= n * extra) by (nonlinear_arith)
                    requires
                        index < n,
                ;
                lemma_mul_le_iff_le_div((next + 1) as int, (index + 1) * extra, n as int);
            }
            woven.push(symbol);
            next = next + 1;
            assert(woven@ =~= woven_upto(strip@, symbol, extra as int, index as int) + seq![
                strip@[index as int],
            ] + Seq::new((next - start) as nat, |j: int| symbol));
        }
        proof {
            if next < extra {
                assert((next + 1) * n <= extra * n) by (nonlinear_arith)
                    requires
                        next < extra,
                ;
                lemma_mul_le_iff_le_div((next + 1) as int, (index + 1) * extra, n as int);
            }
            assert(next == bound);
            assert(woven@ =~= woven_upto(strip@, symbol, extra as int, (index + 1) as int));
        }
        index = index + 1;
    }
    proof {
        assert((n * extra) / (n as int) == extra) by (nonlinear_arith)
            requires
                n > 0,
        ;
    }
    // Every copy has found its slot by the last entry: `next` is `extra`.
    assert(next == extra);
    woven
}

/// Whether another copy belongs after entry `index`.
fn room(next: usize, n: usize, index: usize, extra: usize) -> (r: bool)
    requires
        n > 0,
        index < n,
        n * extra <= usize::MAX,
    ensures
        r == (next < extra && (next + 1) * n <= (index + 1) * extra),
{
    if next >= extra {
        return false;
    }
    proof {
        assert((next + 1) * n <= extra * n) by (nonlinear_arith)
            requires
                next < extra,
                n > 0,
        ;
        assert((index + 1) * extra <= n * extra) by (nonlinear_arith)
            requires
                index < n,
        ;
    }
    (next + 1) * n <= (index + 1) * extra
}

/// Exactly one cabinet's worth of data.
#[derive(Debug)]
pub struct GameData {
    /// Which machine this data came from.
    pub machine: MachineDef,
    pub config: GameConfig,
    pub symbols: Symbols,
    /// One strip per reel, each entry a symbol index.
    pub reels: Vec<Vec<usize>>,
    pub paylines: Vec<Payline>,
    pub freespins: FreeSpinsConfig,
    pub jackpots: Jackpots,
    pub bonus: BonusConfig,
    pub holdspin: HoldSpinConfig,
    /// The Seam mini-game.
    pub seam: SeamConfig,
    pub featurebuy: FeatureBuyConfig,
    pub gamble: GambleConfig,
    /// `Some` only on a cascading cabinet.
    pub cascade: Option<CascadeConfig>,
    pub presentation: PresentationConfig,
}

/// A list of strips, abstractly.
pub open spec fn strips_view(reels: Seq<Vec<usize>>) -> Seq<Seq<usize>> {
    reels.map_values(|s: Vec<usize>| s@)
}

/// A fresh copy of a list of strips.
pub fn copy_strips(reels: &Vec<Vec<usize>>) -> (out: Vec<Vec<usize>>)
    ensures
        strips_view(out@) == strips_view(reels@),
{
    let mut out: Vec<Vec<usize>> = Vec::new();
    let mut i: usize = 0;
    while i < reels.len()
        invariant
            0 <= i <= reels@.len(),
            strips_view(out@) == strips_view(reels@.subrange(0, i as int)),
        decreases reels@.len() - i,
    {
        let ghost prev = out@;
        let strip = copy_strip(&reels[i]);
        out.push(strip);
        proof {
            assert(out@ == prev.push(strip));
            assert(reels@.subrange(0, i + 1) == reels@.subrange(0, i as int).push(reels@[i as int]));
            assert(strips_view(out@) =~= strips_view(prev).push(strip@));
            assert(strips_view(reels@.subrange(0, i + 1)) =~= strips_view(
                reels@.subrange(0, i as int),
            ).push(reels@[i as int]@));
        }
        i = i + 1;
    }
    assert(reels@.subrange(0, i as int) =~= reels@);
    out
}

/// A fresh copy of one strip.
pub fn copy_strip(strip: &[usize]) -> (out: Vec<usize>)
    ensures
        out@ == strip@,
{
    let mut out: Vec<usize> = Vec::new();
    let mut i: usize = 0;
    while i < strip.len()
        invariant
            0 <= i <= strip@.len(),
            out@ == strip@.subrange(0, i as int),
        decreases strip@.len() - i,
    {
        out.push(strip[i]);
        i = i + 1;
        assert(out@ =~= strip@.subrange(0, i as int));
    }
    assert(out@ =~= strip@);
    out
}

/// A strip repeated `times` times, end to end.
pub open spec fn repeated(strip: Seq<usize>, times: int) -> Seq<usize> {
    Seq::new((strip.len() * times) as nat, |i: int| strip[i % (strip.len() as int)])
}

/// The symbol indices the first `burned` entries of a refine order name,
/// skipping names the registry does not know.
pub open spec fn doomed_upto(symbols: SymbolsView, order: Seq<String>, k: int) -> Seq<usize>
    decreases k,
{
    if k <= 0 {
        Seq::empty()
    } else {
        match symbols.index_of(order[k - 1]@) {
            Some(i) => doomed_upto(symbols, order, k - 1).push(i),
            None => doomed_upto(symbols, order, k - 1),
        }
    }
}

/// The entries of a strip that are not doomed, in order.
pub open spec fn survivors(strip: Seq<usize>, doomed: Seq<usize>) -> Seq<usize>
    decreases strip.len(),
{
    if strip.len() == 0 {
        Seq::empty()
    } else if doomed.contains(strip.last()) {
        survivors(strip.drop_last(), doomed)
    } else {
        survivors(strip.drop_last(), doomed).push(strip.last())
    }
}

/// A strip with every doomed symbol removed, unless that would empty it.
pub open spec fn refine_strip(strip: Seq<usize>, doomed: Seq<usize>) -> Seq<usize> {
    let kept = survivors(strip, doomed);
    if kept.len() == 0 {
        strip
    } else {
        kept
    }
}

impl GameData {
    pub open spec fn strips(&self) -> Seq<Seq<usize>> {
        strips_view(self.reels@)
    }

    /// Line-bet units a spin costs: the configured price, or one per payline,
    /// and never less than one.
    pub open spec fn spec_bet_units(&self) -> usize {
        let units = match self.config.bet_units {
            Some(u) => u,
            None => self.paylines@.len() as usize,
        };
        if units >= 1 {
            units
        } else {
            1
        }
    }

    pub open spec fn spec_total_bet(&self, line_bet: i64) -> int {
        line_bet * self.spec_bet_units()
    }

    /// The symbols the first `burned` steps of the refine order remove.
    pub open spec fn doomed(&self, burned: int) -> Seq<usize> {
        match self.freespins.refine {
            None => Seq::empty(),
            Some(refine) => {
                let take = if burned < refine.order@.len() {
                    burned
                } else {
                    refine.order@.len() as int
                };
                doomed_upto(self.symbols@, refine.order@, take)
            },
        }
    }

    /// The strips a free spin turns once `burned` symbols have been burned off.
    pub open spec fn spec_refined_reels(&self, burned: int) -> Seq<Seq<usize>> {
        let doomed = self.doomed(burned);
        if doomed.len() == 0 {
            self.strips()
        } else {
            self.strips().map_values(|strip: Seq<usize>| refine_strip(strip, doomed))
        }
    }

    /// The strips as the ante bet turns them: the first reel repeated and
    /// carrying the extra scatters; every other reel untouched.
    pub open spec fn spec_ante_reels(&self) -> Seq<Seq<usize>> {
        match (self.freespins.ante, self.symbols@.scatter) {
            (Some(ante), Some(scatter)) if ante.extra_scatters != 0 => self.strips().map(
                |reel: int, strip: Seq<usize>|
                    if reel == 0 {
                        spec_weave(
                            repeated(strip, ANTE_STRIP_REPEAT as int),
                            scatter,
                            ante.extra_scatters as int,
                        )
                    } else {
                        strip
                    },
            ),
            _ => self.strips(),
        }
    }

    pub fn machine_id(&self) -> (id: &str)
        ensures
            id@ == self.machine.id@,
    {
        self.machine.id.as_str()
    }

    /// Each machine gets its own save slot: `<machine>_<slot>`.
    pub fn save_slot(&self) -> (slot: String)
        ensures
            slot@ == self.machine.id@ + "_"@ + self.config.save_slot@,
    {
        let mut slot = String::from_str(self.machine.id.as_str());
        slot.append("_");
        slot.append(self.config.save_slot.as_str());
        slot
    }

    /// The palette this cabinet asks for: its theme, or its symbol set.
    pub fn theme_name(&self) -> (name: &str)
        ensures
            name@ == match self.config.theme {
                Some(theme) => theme@,
                None => self.config.symbol_set@,
            },
    {
        match &self.config.theme {
            Some(theme) => theme.as_str(),
            None => self.config.symbol_set.as_str(),
        }
    }

    /// Line-bet units a spin costs.
    pub fn bet_units(&self) -> (units: usize)
        ensures
            units == self.spec_bet_units(),
            units >= 1,
    {
        let units = match self.config.bet_units {
            Some(u) => u,
            None => self.paylines.len(),
        };
        if units >= 1 {
            units
        } else {
            1
        }
    }

    /// Total bet for a line bet: every unit is always bought.
    pub fn total_bet(&self, line_bet: i64) -> (bet: i64)
        requires
            self.spec_bet_units() <= i64::MAX,
            fits_i64(self.spec_total_bet(line_bet)),
        ensures
            bet == self.spec_total_bet(line_bet),
    {
        let units = self.bet_units();
        if line_bet == 0 {
            assert(0 * (units as int) == 0) by (nonlinear_arith);
            return 0;
        }
        let u = units as i64;
        line_bet * u
    }

    /// The stake with the ante bet applied, in whole credits.
    pub fn staked(&self, line_bet: i64, ante: bool) -> (stake: i64)
        requires
            self.spec_bet_units() <= i64::MAX,
            fits_i64(self.spec_total_bet(line_bet)),
            ante ==> match self.freespins.ante {
                Some(def) => fits_i64(self.spec_total_bet(line_bet) * def.cost_permille),
                None => true,
            },
        ensures
            stake == match self.freespins.ante {
                Some(def) if ante => trunc_div(
                    self.spec_total_bet(line_bet) * def.cost_permille,
                    1000,
                ),
                _ => self.spec_total_bet(line_bet),
            },
    {
        let base = self.total_bet(line_bet);
        match &self.freespins.ante {
            Some(def) if ante => base * def.cost_permille / 1000,
            _ => base,
        }
    }

    /// Does this cabinet sell an ante?
    pub fn ante(&self) -> (r: Option<&Ante>)
        ensures
            r == match &self.freespins.ante {
                Some(a) => Some(a),
                None => None::<&Ante>,
            },
    {
        self.freespins.ante.as_ref()
    }

    /// How many symbols the refine order can burn in total.
    pub fn refine_depth(&self) -> (n: usize)
        ensures
            n == match self.freespins.refine {
                Some(refine) => refine.order@.len(),
                None => 0,
            },
    {
        match &self.freespins.refine {
            Some(refine) => refine.order.len(),
            None => 0,
        }
    }

    /// The line bet at a step of the ladder, or the first step when the index
    /// is past the end.
    pub fn line_bet(&self, index: usize) -> (bet: i64)
        requires
            self.config.line_bets@.len() > 0,
        ensures
            bet == if index < self.config.line_bets@.len() {
                self.config.line_bets@[index as int]
            } else {
                self.config.line_bets@[0]
            },
    {
        if index < self.config.line_bets.len() {
            self.config.line_bets[index]
        } else {
            self.config.line_bets[0]
        }
    }
}

/// `base` raised to `exp`, in whole numbers.
pub fn checked_pow_usize(base: usize, exp: u32) -> (r: usize)
    requires
        vstd::arithmetic::power::pow(base as int, exp as nat) <= usize::MAX,
    ensures
        r == vstd::arithmetic::power::pow(base as int, exp as nat),
{
    let mut r: usize = 1;
    let mut k: u32 = 0;
    proof {
        reveal(vstd::arithmetic::power::pow);
    }
    while k < exp
        invariant
            0 <= k <= exp,
            r == vstd::arithmetic::power::pow(base as int, k as nat),
            vstd::arithmetic::power::pow(base as int, exp as nat) <= usize::MAX,
        decreases exp - k,
    {
        proof {
            reveal(vstd::arithmetic::power::pow);
            assert(vstd::arithmetic::power::pow(base as int, (k + 1) as nat) == base * vstd::arithmetic::power::pow(
                base as int,
                k as nat,
            ));
            if base > 0 {
                vstd::arithmetic::power::lemma_pow_increases(base as nat, (k + 1) as nat, exp as nat);
            } else {
                vstd::arithmetic::power::lemma0_pow((k + 1) as nat);
            }
            assert(r * base == base * r) by (nonlinear_arith);
        }
        r = r * base;
        k = k + 1;
    }
    r
}

fn holds(doomed: &Vec<usize>, symbol: usize) -> (r: bool)
    ensures
        r == doomed@.contains(symbol),
{
    let mut i: usize = 0;
    while i < doomed.len()
        invariant
            0 <= i <= doomed@.len(),
            forall|j: int| 0 <= j < i ==> doomed@[j] != symbol,
        decreases doomed@.len() - i,
    {
        if doomed[i] == symbol {
            assert(doomed@[i as int] == symbol);
            return true;
        }
        i = i + 1;
    }
    false
}

impl GameData {
    /// How many ways a fixed ways cabinet pays, for the panel readout; `None`
    /// on a payline machine and on a shifting one.
    pub fn ways_count(&self) -> (r: Option<usize>)
        requires
            self.config.evaluation == Evaluation::Ways && self.config.reel_heights is None
                ==> vstd::arithmetic::power::pow(
                self.config.row_count as int,
                (self.config.reel_count as u32) as nat,
            ) <= usize::MAX,
        ensures
            r == if self.config.evaluation != Evaluation::Ways || self.config.reel_heights is Some {
                None
            } else {
                Some(
                    vstd::arithmetic::power::pow(
                        self.config.row_count as int,
                        (self.config.reel_count as u32) as nat,
                    ) as usize,
                )
            },
    {
        if self.config.evaluation != Evaluation::Ways || self.config.reel_heights.is_some() {
            return None;
        }
        Some(checked_pow_usize(self.config.row_count, self.config.reel_count as u32))
    }

    /// Highest ways this cabinet can reach, for the machine picker.
    pub fn max_ways(&self) -> (r: Option<usize>)
        requires
            self.config.evaluation == Evaluation::Ways ==> vstd::arithmetic::power::pow(
                (match self.config.reel_heights {
                    Some(h) => h.max,
                    None => self.config.row_count,
                }) as int,
                (self.config.reel_count as u32) as nat,
            ) <= usize::MAX,
        ensures
            r == if self.config.evaluation != Evaluation::Ways {
                None
            } else {
                Some(
                    vstd::arithmetic::power::pow(
                        (match self.config.reel_heights {
                            Some(h) => h.max,
                            None => self.config.row_count,
                        }) as int,
                        (self.config.reel_count as u32) as nat,
                    ) as usize,
                )
            },
    {
        if self.config.evaluation != Evaluation::Ways {
            return None;
        }
        let tallest = match self.config.reel_heights {
            Some(heights) => heights.max,
            None => self.config.row_count,
        };
        Some(checked_pow_usize(tallest, self.config.reel_count as u32))
    }

    /// Strips with the first `burned` symbols of the refine order removed.
    /// A reel that would lose every symbol keeps what it has.
    pub fn refined_reels(&self, burned: usize) -> (reels: Vec<Vec<usize>>)
        requires
            self.symbols@.wf(),
        ensures
            strips_view(reels@) == self.spec_refined_reels(burned as int),
    {
        let refine = match &self.freespins.refine {
            None => {
                return copy_strips(&self.reels);
            },
            Some(refine) => refine,
        };
        let ghost order = refine.order@;
        let take = if burned < refine.order.len() {
            burned
        } else {
            refine.order.len()
        };
        let mut doomed: Vec<usize> = Vec::new();
        let mut k: usize = 0;
        while k < take
            invariant
                0 <= k <= take <= refine.order@.len(),
                self.symbols@.wf(),
                doomed@ == doomed_upto(self.symbols@, refine.order@, k as int),
            decreases take - k,
        {
            match self.symbols.index_of(refine.order[k].as_str()) {
                Some(index) => doomed.push(index),
                None => {},
            }
            k = k + 1;
        }
        assert(doomed@ == self.doomed(burned as int));
        if doomed.len() == 0 {
            return copy_strips(&self.reels);
        }
        let mut reels: Vec<Vec<usize>> = Vec::new();
        let mut r: usize = 0;
        while r < self.reels.len()
            invariant
                0 <= r <= self.reels@.len(),
                doomed@ == self.doomed(burned as int),
                doomed@.len() > 0,
                strips_view(reels@) == self.strips().subrange(0, r as int).map_values(
                    |strip: Seq<usize>| refine_strip(strip, doomed@),
                ),
            decreases self.reels@.len() - r,
        {
            let strip = &self.reels[r];
            let mut kept: Vec<usize> = Vec::new();
            let mut j: usize = 0;
            while j < strip.len()
                invariant
                    0 <= j <= strip@.len(),
                    kept@ == survivors(strip@.subrange(0, j as int), doomed@),
                decreases strip@.len() - j,
            {
                let symbol = strip[j];
                proof {
                    let next = strip@.subrange(0, j + 1);
                    assert(next.drop_last() == strip@.subrange(0, j as int));
                }
                if !holds(&doomed, symbol) {
                    kept.push(symbol);
                }
                j = j + 1;
            }
            assert(strip@.subrange(0, j as int) == strip@);
            let ghost prev = reels@;
            if kept.len() == 0 {
                reels.push(copy_strip(strip));
            } else {
                reels.push(kept);
            }
            proof {
                assert(strips_view(reels@) =~= strips_view(prev).push(refine_strip(strip@, doomed@)));
                assert(self.strips().subrange(0, r + 1) =~= self.strips().subrange(0, r as int).push(
                    strip@,
                ));
                assert(self.strips().subrange(0, r + 1).map_values(
                    |s: Seq<usize>| refine_strip(s, doomed@),
                ) =~= self.strips().subrange(0, r as int).map_values(
                    |s: Seq<usize>| refine_strip(s, doomed@),
                ).push(refine_strip(strip@, doomed@)));
            }
            r = r + 1;
        }
        assert(self.strips().subrange(0, r as int) =~= self.strips());
        reels
    }

    /// The strips as the ante bet turns them: the first reel repeated
    /// `ANTE_STRIP_REPEAT` times with the extra scatters woven in at even
    /// spacing. The base strips when the cabinet sells no ante.
    pub fn ante_reels(&self) -> (reels: Vec<Vec<usize>>)
        requires
            self.reels@.len() > 0 ==> self.reels@[0]@.len() * ANTE_STRIP_REPEAT * match self.freespins.ante {
                Some(a) => a.extra_scatters as int,
                None => 0,
            } <= usize::MAX,
            self.reels@.len() > 0 ==> self.reels@[0]@.len() * ANTE_STRIP_REPEAT <= usize::MAX,
        ensures
            strips_view(reels@) == self.spec_ante_reels(),
    {
        let ante = match &self.freespins.ante {
            None => {
                return copy_strips(&self.reels);
            },
            Some(ante) => ante,
        };
        let scatter = match self.symbols.scatter() {
            None => {
                return copy_strips(&self.reels);
            },
            Some(scatter) => scatter,
        };
        if ante.extra_scatters == 0 {
            return copy_strips(&self.reels);
        }
        let ghost want = self.spec_ante_reels();
        let mut reels: Vec<Vec<usize>> = Vec::new();
        let mut r: usize = 0;
        while r < self.reels.len()
            invariant
                0 <= r <= self.reels@.len(),
                want == self.spec_ante_reels(),
                want.len() == self.reels@.len(),
                self.freespins.ante == Some(*ante),
                self.symbols@.scatter == Some(scatter),
                ante.extra_scatters != 0,
                self.reels@.len() > 0 ==> self.reels@[0]@.len() * ANTE_STRIP_REPEAT * (
                ante.extra_scatters as int) <= usize::MAX,
                self.reels@.len() > 0 ==> self.reels@[0]@.len() * ANTE_STRIP_REPEAT <= usize::MAX,
                strips_view(reels@) == want.subrange(0, r as int),
            decreases self.reels@.len() - r,
        {
            let strip = &self.reels[r];
            let ghost prev = reels@;
            if r != 0 {
                reels.push(copy_strip(strip));
            } else {
                let n = strip.len();
                let total = n * ANTE_STRIP_REPEAT;
                let mut cycled: Vec<usize> = Vec::new();
                let mut i: usize = 0;
                while i < total
                    invariant
                        n == strip@.len(),
                        total == n * ANTE_STRIP_REPEAT,
                        0 <= i <= total,
                        cycled@ == repeated(strip@, ANTE_STRIP_REPEAT as int).subrange(0, i as int),
                    decreases total - i,
                {
                    assert(n > 0) by (nonlinear_arith)
                        requires
                            i < total,
                            total == n * 8,
                    ;
                    cycled.push(strip[i % n]);
                    i = i + 1;
                    assert(cycled@ =~= repeated(strip@, ANTE_STRIP_REPEAT as int).subrange(0, i as int));
                }
                assert(cycled@ =~= repeated(strip@, ANTE_STRIP_REPEAT as int));
                reels.push(weave(cycled.as_slice(), scatter, ante.extra_scatters));
            }
            proof {
                assert(want[r as int] == (if r == 0 {
                    spec_weave(
                        repeated(strip@, ANTE_STRIP_REPEAT as int),
                        scatter,
                        ante.extra_scatters as int,
                    )
                } else {
                    strip@
                }));
                assert(strips_view(reels@) =~= strips_view(prev).push(want[r as int]));
                assert(strips_view(reels@) =~= want.subrange(0, r + 1));
            }
            r = r + 1;
        }
        reels
    }
}

} // verus!

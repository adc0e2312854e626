//! Refusing a cabinet whose data does not make sense: the grid, the
//! paylines, the rules of each feature and the reel shapes, checked in a
//! fixed order, with the first fault found named in the error.

use vstd::prelude::*;
use crate::data::{
    fits_i64, jackpots_error, shares_fit, validate_jackpots, DataError, Evaluation, FreeSpinShape,
    GameData, Payline, SymbolsView, MAX_RUN,
};
use crate::data::features::FeatureAward;
use crate::text::same_text;

verus! {

/// The first index from `from` on, below `len`, where `bad` holds.
pub open spec fn first_from(len: int, bad: spec_fn(int) -> bool, from: int) -> Option<int>
    decreases len - from,
{
    if from < 0 || from >= len {
        None
    } else if bad(from) {
        Some(from)
    } else {
        first_from(len, bad, from + 1)
    }
}

pub proof fn lemma_first_from_found(len: int, bad: spec_fn(int) -> bool, from: int)
    requires
        0 <= from,
    ensures
        first_from(len, bad, from) matches Some(i) ==> from <= i < len && bad(i),
        first_from(len, bad, from) is None ==> forall|j: int| from <= j < len ==> !#[trigger] bad(j),
    decreases len - from,
{
    if 0 <= from < len && !bad(from) {
        lemma_first_from_found(len, bad, from + 1);
    }
}

/// Grid shape: reel and row counts, and strips long enough to fill a window.
pub open spec fn grid_error(d: GameData) -> Option<DataError> {
    let reels = d.config.reel_count;
    let rows = d.config.row_count;
    if reels == 0 || rows == 0 {
        Some(DataError::EmptyGrid)
    } else if d.config.evaluation != Evaluation::Cluster && reels > MAX_RUN {
        Some(DataError::TooManyReels(reels))
    } else if d.reels@.len() != reels {
        Some(DataError::StripCount { strips: d.reels@.len() as usize, reels })
    } else {
        match first_from(d.reels@.len() as int, |i: int| d.reels@[i]@.len() < rows, 0) {
            Some(i) => Some(DataError::ShortStrip { reel: i as usize, len: d.reels@[i]@.len() as usize, rows }),
            None => None,
        }
    }
}

/// The error one payline raises, if any.
pub open spec fn payline_error(line: Payline, reels: usize, rows: usize) -> Option<DataError> {
    if line.rows@.len() != reels {
        Some(DataError::PaylineLength { id: line.id, len: line.rows@.len() as usize, reels })
    } else {
        match first_from(line.rows@.len() as int, |i: int| line.rows@[i] >= rows, 0) {
            Some(i) => Some(DataError::PaylineRow { id: line.id, row: line.rows@[i], rows }),
            None => None,
        }
    }
}

/// Win model against paylines, and every payline against the grid.
pub open spec fn lines_error(d: GameData) -> Option<DataError> {
    let lines = d.paylines@;
    if d.config.evaluation == Evaluation::Lines && lines.len() == 0 {
        Some(DataError::NoPaylines)
    } else if d.config.evaluation == Evaluation::Ways && lines.len() != 0 {
        Some(DataError::WaysWithPaylines)
    } else if d.config.evaluation == Evaluation::Ways && d.config.bet_units is None {
        Some(DataError::WaysWithoutBetUnits)
    } else {
        match first_from(
            lines.len() as int,
            |i: int| payline_error(lines[i], d.config.reel_count, d.config.row_count) is Some,
            0,
        ) {
            Some(i) => payline_error(lines[i], d.config.reel_count, d.config.row_count),
            None => None,
        }
    }
}

/// Symbols, bets, meter and autospin.
pub open spec fn config_error(d: GameData) -> Option<DataError> {
    if d.symbols@.wild is None {
        Some(DataError::NoWild)
    } else if d.symbols@.scatter is None {
        Some(DataError::NoScatter)
    } else if d.config.line_bets@.len() == 0 {
        Some(DataError::NoLineBets)
    } else if exists|i: int| 0 <= i < d.config.line_bets@.len() && #[trigger] d.config.line_bets@[i] <= 0 {
        Some(DataError::NonPositiveLineBet)
    } else if d.config.hoard_capacity == 0 {
        Some(DataError::NoHoardCapacity)
    } else if d.config.autospin_choices@.len() == 0 {
        Some(DataError::NoAutospinChoices)
    } else if d.config.autospin_choices@.contains(0) {
        Some(DataError::ZeroAutospinChoice)
    } else {
        None
    }
}

/// The Vault Pick board and the Wrath's coin table.
pub open spec fn rounds_error(d: GameData) -> Option<DataError> {
    if d.bonus.prizes_permille@.len() == 0 {
        Some(DataError::NoBonusPrizes)
    } else if d.bonus.blanks == 0 {
        Some(DataError::NoBonusBlanks)
    } else if d.bonus.blanks >= d.bonus.board_size {
        Some(DataError::BonusBoardFull)
    } else if d.holdspin.coin_values@.len() == 0 {
        Some(DataError::NoCoinValues)
    } else if forall|i: int| 0 <= i < d.holdspin.coin_values@.len() ==> #[trigger] d.holdspin.coin_values@[i].weight == 0 {
        Some(DataError::WeightlessCoins)
    } else if d.holdspin.respins == 0 {
        Some(DataError::NoRespins)
    } else {
        None
    }
}

/// Does a bought tier's award fit on a grid of `cells` cells? Free spins
/// always do; a Dragon's Wrath round needs room for the coins it places.
pub open spec fn award_fits_grid(award: FeatureAward, cells: int) -> bool {
    match award {
        FeatureAward::FreeSpins { .. } => true,
        FeatureAward::Wrath { coins } => 0 < coins <= cells,
    }
}

/// Every feature-buy tier's award can happen on this grid: a bought feature
/// whose trigger the grid cannot hold would be unreachable.
pub open spec fn buy_error(d: GameData) -> Option<DataError> {
    let cells = d.config.reel_count * d.config.row_count;
    let tiers = d.featurebuy.tiers@;
    match first_from(tiers.len() as int, |i: int| !award_fits_grid(tiers[i].award, cells), 0) {
        Some(i) => Some(
            DataError::BuyCoins { tier: tiers[i].id, coins: tiers[i].award->Wrath_coins, cells: cells as usize },
        ),
        None => None,
    }
}

/// A refine order naming only symbols that exist and are safe to burn.
pub open spec fn refine_error(d: GameData) -> Option<DataError> {
    match d.freespins.refine {
        None => None,
        Some(refine) => {
            let order = refine.order@;
            let syms = d.symbols@;
            if order.len() == 0 {
                Some(DataError::EmptyRefine)
            } else {
                match first_from(
                    order.len() as int,
                    |i: int|
                        match syms.index_of(order[i]@) {
                            None => true,
                            Some(s) => syms.is_wild(s as int) || syms.is_scatter(s as int)
                                || syms.is_hoard(s as int),
                        },
                    0,
                ) {
                    None => None,
                    Some(i) => match syms.index_of(order[i]@) {
                        None => Some(DataError::RefineUnknown(order[i])),
                        Some(_) => Some(DataError::RefineSpecial(order[i])),
                    },
                }
            }
        },
    }
}

/// Shifting reels: a real range, inside the window, on a cabinet without
/// paylines.
pub open spec fn heights_error(d: GameData) -> Option<DataError> {
    match d.config.reel_heights {
        None => None,
        Some(h) => if h.min == 0 || h.min > h.max {
            Some(DataError::HeightRange)
        } else if h.max > d.config.row_count {
            Some(DataError::HeightsTooTall { max: h.max, rows: d.config.row_count })
        } else if d.config.evaluation == Evaluation::Lines {
            Some(DataError::ShiftingLines)
        } else {
            None
        },
    }
}

pub open spec fn shape_value(shape: FreeSpinShape) -> int {
    shape.spin_permille * shape.multiplier
}

/// Every free-spin shape worth the same, and none on a refining cabinet.
pub open spec fn shapes_error(d: GameData) -> Option<DataError> {
    let shapes = d.freespins.shapes@;
    if shapes.len() == 0 {
        None
    } else {
        match first_from(
            shapes.len() as int,
            |i: int| shape_value(shapes[i]) != shape_value(shapes[0]),
            0,
        ) {
            Some(i) => Some(
                DataError::ShapeValue {
                    id: shapes[i].id,
                    value: shape_value(shapes[i]) as i64,
                    first: shapes[0].id,
                    first_value: shape_value(shapes[0]) as i64,
                },
            ),
            None => if d.freespins.refine is Some {
                Some(DataError::RefiningShapes)
            } else {
                None
            },
        }
    }
}

/// The gamble and the cascade ladder.
pub open spec fn ladder_error(d: GameData) -> Option<DataError> {
    if d.gamble.max_steps == 0 {
        Some(DataError::NoGambleSteps)
    } else if d.gamble.ceiling_multiple <= 0 {
        Some(DataError::GambleCeiling)
    } else {
        match d.cascade {
            None => None,
            Some(c) => if c.max_steps == 0 {
                Some(DataError::NoCascadeSteps)
            } else if c.multipliers@.len() == 0 {
                Some(DataError::NoCascadeMultipliers)
            } else if exists|i: int| 0 <= i < c.multipliers@.len() && #[trigger] c.multipliers@[i] < 1 {
                Some(DataError::CascadeShrinks)
            } else {
                None
            },
        }
    }
}

/// Payable, non-special symbols: the rungs a seam can climb.
pub open spec fn ladder_rung(syms: SymbolsView, i: int) -> bool {
    !syms.is_wild(i) && !syms.is_scatter(i) && !syms.is_hoard(i) && syms.pay(i, MAX_RUN as int) > 0
}

pub open spec fn rungs_upto(syms: SymbolsView, k: int) -> int
    decreases k,
{
    if k <= 0 {
        0
    } else {
        rungs_upto(syms, k - 1) + if ladder_rung(syms, k - 1) { 1int } else { 0 }
    }
}

/// Triggers the grid can hold, and a seam with something to do.
pub open spec fn triggers_error(d: GameData) -> Option<DataError> {
    let cells = d.config.reel_count * d.config.row_count;
    if d.holdspin.trigger_eggs == 0 || d.holdspin.trigger_eggs > cells {
        Some(DataError::TriggerEggs { eggs: d.holdspin.trigger_eggs, cells: cells as usize })
    } else if d.seam.trigger_count == 0 || d.seam.trigger_count > cells {
        Some(DataError::SeamTrigger { trigger: d.seam.trigger_count, cells: cells as usize })
    } else if d.seam.rites@.len() == 0 {
        Some(DataError::NoRites)
    } else if d.seam.steps == 0 {
        Some(DataError::NoSeamSteps)
    } else if d.seam.max_multiple <= 0 {
        Some(DataError::SeamCeiling)
    } else if rungs_upto(d.symbols@, d.symbols@.len()) < 2 {
        Some(DataError::SeamLadder)
    } else {
        None
    }
}

/// Why a cabinet's data is refused: the first failing check, in the order
/// they are made.
pub open spec fn validation_error(d: GameData) -> Option<DataError> {
    if grid_error(d) is Some {
        grid_error(d)
    } else if lines_error(d) is Some {
        lines_error(d)
    } else if config_error(d) is Some {
        config_error(d)
    } else if jackpots_error(d.jackpots) is Some {
        jackpots_error(d.jackpots)
    } else if rounds_error(d) is Some {
        rounds_error(d)
    } else if buy_error(d) is Some {
        buy_error(d)
    } else if refine_error(d) is Some {
        refine_error(d)
    } else if heights_error(d) is Some {
        heights_error(d)
    } else if shapes_error(d) is Some {
        shapes_error(d)
    } else if ladder_error(d) is Some {
        ladder_error(d)
    } else {
        triggers_error(d)
    }
}

/// Scan `0..len` for the first index where `bad` holds, given that each
/// step has been decided. Used to tie a loop that stops at the first failure
/// to `first_from`.
proof fn lemma_first_from_at(len: int, bad: spec_fn(int) -> bool, i: int)
    requires
        0 <= i < len,
        bad(i),
        forall|j: int| 0 <= j < i ==> !#[trigger] bad(j),
    ensures
        first_from(len, bad, 0) == Some(i),
{
    lemma_first_from_step(len, bad, 0, i);
}

proof fn lemma_first_from_step(len: int, bad: spec_fn(int) -> bool, from: int, i: int)
    requires
        0 <= from <= i < len,
        bad(i),
        forall|j: int| from <= j < i ==> !#[trigger] bad(j),
    ensures
        first_from(len, bad, from) == Some(i),
    decreases i - from,
{
    if from < i {
        lemma_first_from_step(len, bad, from + 1, i);
    }
}

proof fn lemma_first_from_none(len: int, bad: spec_fn(int) -> bool, from: int)
    requires
        0 <= from,
        forall|j: int| from <= j < len ==> !#[trigger] bad(j),
    ensures
        first_from(len, bad, from) is None,
    decreases len - from,
{
    if from < len {
        lemma_first_from_none(len, bad, from + 1);
    }
}

#[verifier::loop_isolation(false)]
fn check_grid(d: &GameData) -> (r: Result<(), DataError>)
    ensures
        match grid_error(*d) {
            None => r is Ok,
            Some(e) => r == Err::<(), DataError>(e),
        },
{
    let reels = d.config.reel_count;
    let rows = d.config.row_count;
    if reels == 0 || rows == 0 {
        return Err(DataError::EmptyGrid);
    }
    if d.config.evaluation != Evaluation::Cluster && reels > MAX_RUN {
        return Err(DataError::TooManyReels(reels));
    }
    if d.reels.len() != reels {
        return Err(DataError::StripCount { strips: d.reels.len(), reels });
    }
    let ghost bad = |i: int| d.reels@[i]@.len() < rows;
    let mut i: usize = 0;
    while i < d.reels.len()
        invariant
            0 <= i <= d.reels@.len(),
            forall|j: int| 0 <= j < i ==> !#[trigger] bad(j),
        decreases d.reels@.len() - i,
    {
        if d.reels[i].len() < rows {
            proof {
                lemma_first_from_at(d.reels@.len() as int, bad, i as int);
            }
            return Err(DataError::ShortStrip { reel: i, len: d.reels[i].len(), rows });
        }
        i = i + 1;
    }
    proof {
        lemma_first_from_none(d.reels@.len() as int, bad, 0);
    }
    Ok(())
}

#[verifier::loop_isolation(false)]
fn check_payline(line: &Payline, reels: usize, rows: usize) -> (r: Result<(), DataError>)
    ensures
        match payline_error(*line, reels, rows) {
            None => r is Ok,
            Some(e) => r == Err::<(), DataError>(e),
        },
{
    if line.rows.len() != reels {
        return Err(DataError::PaylineLength { id: line.id, len: line.rows.len(), reels });
    }
    let ghost bad = |i: int| line.rows@[i] >= rows;
    let mut i: usize = 0;
    while i < line.rows.len()
        invariant
            0 <= i <= line.rows@.len(),
            forall|j: int| 0 <= j < i ==> !#[trigger] bad(j),
        decreases line.rows@.len() - i,
    {
        if line.rows[i] >= rows {
            proof {
                lemma_first_from_at(line.rows@.len() as int, bad, i as int);
            }
            return Err(DataError::PaylineRow { id: line.id, row: line.rows[i], rows });
        }
        i = i + 1;
    }
    proof {
        lemma_first_from_none(line.rows@.len() as int, bad, 0);
    }
    Ok(())
}

#[verifier::loop_isolation(false)]
fn check_lines(d: &GameData) -> (r: Result<(), DataError>)
    ensures
        match lines_error(*d) {
            None => r is Ok,
            Some(e) => r == Err::<(), DataError>(e),
        },
{
    let lines = &d.paylines;
    match d.config.evaluation {
        Evaluation::Lines => {
            if lines.len() == 0 {
                return Err(DataError::NoPaylines);
            }
        },
        Evaluation::Ways => {
            if lines.len() != 0 {
                return Err(DataError::WaysWithPaylines);
            }
            if d.config.bet_units.is_none() {
                return Err(DataError::WaysWithoutBetUnits);
            }
        },
        Evaluation::Cluster => {},
    }
    let ghost bad = |i: int| payline_error(lines@[i], d.config.reel_count, d.config.row_count) is Some;
    let mut i: usize = 0;
    while i < lines.len()
        invariant
            0 <= i <= lines@.len(),
            forall|j: int| 0 <= j < i ==> !#[trigger] bad(j),
        decreases lines@.len() - i,
    {
        let r = check_payline(&lines[i], d.config.reel_count, d.config.row_count);
        if r.is_err() {
            proof {
                lemma_first_from_at(lines@.len() as int, bad, i as int);
            }
            return r;
        }
        i = i + 1;
    }
    proof {
        lemma_first_from_none(lines@.len() as int, bad, 0);
    }
    Ok(())
}

#[verifier::loop_isolation(false)]
fn check_config(d: &GameData) -> (r: Result<(), DataError>)
    ensures
        match config_error(*d) {
            None => r is Ok,
            Some(e) => r == Err::<(), DataError>(e),
        },
{
    if d.symbols.wild().is_none() {
        return Err(DataError::NoWild);
    }
    if d.symbols.scatter().is_none() {
        return Err(DataError::NoScatter);
    }
    let bets = &d.config.line_bets;
    if bets.len() == 0 {
        return Err(DataError::NoLineBets);
    }
    let mut i: usize = 0;
    while i < bets.len()
        invariant
            0 <= i <= bets@.len(),
            forall|j: int| 0 <= j < i ==> #[trigger] bets@[j] > 0,
        decreases bets@.len() - i,
    {
        if bets[i] <= 0 {
            assert(bets@[i as int] <= 0);
            return Err(DataError::NonPositiveLineBet);
        }
        i = i + 1;
    }
    if d.config.hoard_capacity == 0 {
        return Err(DataError::NoHoardCapacity);
    }
    let choices = &d.config.autospin_choices;
    if choices.len() == 0 {
        return Err(DataError::NoAutospinChoices);
    }
    let mut k: usize = 0;
    while k < choices.len()
        invariant
            0 <= k <= choices@.len(),
            forall|j: int| 0 <= j < k ==> choices@[j] != 0,
        decreases choices@.len() - k,
    {
        if choices[k] == 0 {
            assert(choices@[k as int] == 0);
            return Err(DataError::ZeroAutospinChoice);
        }
        k = k + 1;
    }
    Ok(())
}

#[verifier::loop_isolation(false)]
fn check_rounds(d: &GameData) -> (r: Result<(), DataError>)
    ensures
        match rounds_error(*d) {
            None => r is Ok,
            Some(e) => r == Err::<(), DataError>(e),
        },
{
    if d.bonus.prizes_permille.len() == 0 {
        return Err(DataError::NoBonusPrizes);
    }
    if d.bonus.blanks == 0 {
        return Err(DataError::NoBonusBlanks);
    }
    if d.bonus.blanks >= d.bonus.board_size {
        return Err(DataError::BonusBoardFull);
    }
    let coins = &d.holdspin.coin_values;
    if coins.len() == 0 {
        return Err(DataError::NoCoinValues);
    }
    let mut weighted = false;
    let mut i: usize = 0;
    while i < coins.len()
        invariant
            0 <= i <= coins@.len(),
            weighted == exists|j: int| 0 <= j < i && #[trigger] coins@[j].weight != 0,
        decreases coins@.len() - i,
    {
        if coins[i].weight != 0 {
            assert(coins@[i as int].weight != 0);
            weighted = true;
        }
        i = i + 1;
    }
    if !weighted {
        return Err(DataError::WeightlessCoins);
    }
    if d.holdspin.respins == 0 {
        return Err(DataError::NoRespins);
    }
    Ok(())
}

#[verifier::loop_isolation(false)]
fn check_buy(d: &GameData) -> (r: Result<(), DataError>)
    requires
        d.config.reel_count * d.config.row_count <= usize::MAX,
    ensures
        match buy_error(*d) {
            None => r is Ok,
            Some(e) => r == Err::<(), DataError>(e),
        },
{
    let cells = d.config.reel_count * d.config.row_count;
    let tiers = &d.featurebuy.tiers;
    let ghost bad = |i: int| !award_fits_grid(tiers@[i].award, cells as int);
    let mut i: usize = 0;
    while i < tiers.len()
        invariant
            0 <= i <= tiers@.len(),
            forall|j: int| 0 <= j < i ==> !#[trigger] bad(j),
        decreases tiers@.len() - i,
    {
        match tiers[i].award {
            FeatureAward::FreeSpins { .. } => {},
            FeatureAward::Wrath { coins } => {
                if coins == 0 || coins > cells {
                    proof {
                        lemma_first_from_at(tiers@.len() as int, bad, i as int);
                    }
                    return Err(DataError::BuyCoins { tier: tiers[i].id.clone(), coins, cells });
                }
            },
        }
        i = i + 1;
    }
    proof {
        lemma_first_from_none(tiers@.len() as int, bad, 0);
    }
    Ok(())
}

#[verifier::loop_isolation(false)]
fn check_refine(d: &GameData) -> (r: Result<(), DataError>)
    requires
        d.symbols@.wf(),
    ensures
        match refine_error(*d) {
            None => r is Ok,
            Some(e) => r == Err::<(), DataError>(e),
        },
{
    let refine = match &d.freespins.refine {
        None => {
            return Ok(());
        },
        Some(refine) => refine,
    };
    let order = &refine.order;
    if order.len() == 0 {
        return Err(DataError::EmptyRefine);
    }
    let ghost syms = d.symbols@;
    let ghost bad = |i: int|
        match syms.index_of(order@[i]@) {
            None => true,
            Some(s) => syms.is_wild(s as int) || syms.is_scatter(s as int) || syms.is_hoard(s as int),
        };
    let mut i: usize = 0;
    while i < order.len()
        invariant
            0 <= i <= order@.len(),
            forall|j: int| 0 <= j < i ==> !#[trigger] bad(j),
        decreases order@.len() - i,
    {
        match d.symbols.index_of(order[i].as_str()) {
            None => {
                proof {
                    lemma_first_from_at(order@.len() as int, bad, i as int);
                }
                return Err(DataError::RefineUnknown(order[i].clone()));
            },
            Some(index) => {
                if d.symbols.is_wild(index) || d.symbols.is_scatter(index) || d.symbols.is_hoard(
                    index,
                ) {
                    proof {
                        lemma_first_from_at(order@.len() as int, bad, i as int);
                    }
                    return Err(DataError::RefineSpecial(order[i].clone()));
                }
            },
        }
        i = i + 1;
    }
    proof {
        lemma_first_from_none(order@.len() as int, bad, 0);
    }
    Ok(())
}

fn check_heights(d: &GameData) -> (r: Result<(), DataError>)
    ensures
        match heights_error(*d) {
            None => r is Ok,
            Some(e) => r == Err::<(), DataError>(e),
        },
{
    if let Some(h) = d.config.reel_heights {
        if h.min == 0 || h.min > h.max {
            return Err(DataError::HeightRange);
        }
        if h.max > d.config.row_count {
            return Err(DataError::HeightsTooTall { max: h.max, rows: d.config.row_count });
        }
        if d.config.evaluation == Evaluation::Lines {
            return Err(DataError::ShiftingLines);
        }
    }
    Ok(())
}

/// Every shape's value stays inside `i64`.
pub open spec fn shapes_fit(d: GameData) -> bool {
    forall|i: int| 0 <= i < d.freespins.shapes@.len() ==> fits_i64(
        #[trigger] shape_value(d.freespins.shapes@[i]),
    )
}

#[verifier::loop_isolation(false)]
fn check_shapes(d: &GameData) -> (r: Result<(), DataError>)
    requires
        shapes_fit(*d),
    ensures
        match shapes_error(*d) {
            None => r is Ok,
            Some(e) => r == Err::<(), DataError>(e),
        },
{
    let shapes = &d.freespins.shapes;
    if shapes.len() == 0 {
        return Ok(());
    }
    assert(fits_i64(shape_value(shapes@[0])));
    let first = shapes[0].value();
    let ghost bad = |i: int| shape_value(shapes@[i]) != shape_value(shapes@[0]);
    let mut i: usize = 0;
    while i < shapes.len()
        invariant
            0 <= i <= shapes@.len(),
            forall|j: int| 0 <= j < i ==> !#[trigger] bad(j),
        decreases shapes@.len() - i,
    {
        assert(fits_i64(shape_value(shapes@[i as int])));
        if shapes[i].value() != first {
            proof {
                lemma_first_from_at(shapes@.len() as int, bad, i as int);
            }
            return Err(
                DataError::ShapeValue {
                    id: shapes[i].id.clone(),
                    value: shapes[i].value(),
                    first: shapes[0].id.clone(),
                    first_value: first,
                },
            );
        }
        i = i + 1;
    }
    proof {
        lemma_first_from_none(shapes@.len() as int, bad, 0);
    }
    if d.freespins.refine.is_some() {
        return Err(DataError::RefiningShapes);
    }
    Ok(())
}

#[verifier::loop_isolation(false)]
fn check_ladders(d: &GameData) -> (r: Result<(), DataError>)
    ensures
        match ladder_error(*d) {
            None => r is Ok,
            Some(e) => r == Err::<(), DataError>(e),
        },
{
    if d.gamble.max_steps == 0 {
        return Err(DataError::NoGambleSteps);
    }
    if d.gamble.ceiling_multiple <= 0 {
        return Err(DataError::GambleCeiling);
    }
    if let Some(c) = &d.cascade {
        if c.max_steps == 0 {
            return Err(DataError::NoCascadeSteps);
        }
        if c.multipliers.len() == 0 {
            return Err(DataError::NoCascadeMultipliers);
        }
        let mut i: usize = 0;
        while i < c.multipliers.len()
            invariant
                0 <= i <= c.multipliers@.len(),
                forall|j: int| 0 <= j < i ==> #[trigger] c.multipliers@[j] >= 1,
            decreases c.multipliers@.len() - i,
        {
            if c.multipliers[i] < 1 {
                assert(c.multipliers@[i as int] < 1);
                return Err(DataError::CascadeShrinks);
            }
            i = i + 1;
        }
    }
    Ok(())
}

/// How many symbols a seam could climb through.
fn seam_ladder_len(d: &GameData) -> (n: usize)
    requires
        d.symbols@.wf(),
    ensures
        n == rungs_upto(d.symbols@, d.symbols@.len()),
{
    let mut n: usize = 0;
    let mut i: usize = 0;
    while i < d.symbols.len()
        invariant
            0 <= i <= d.symbols@.len(),
            d.symbols@.wf(),
            n == rungs_upto(d.symbols@, i as int),
            n <= i,
        decreases d.symbols@.len() - i,
    {
        if !d.symbols.is_wild(i) && !d.symbols.is_scatter(i) && !d.symbols.is_hoard(i)
            && d.symbols.pay(i, MAX_RUN) > 0 {
            n = n + 1;
        }
        i = i + 1;
    }
    n
}

fn check_triggers(d: &GameData) -> (r: Result<(), DataError>)
    requires
        d.symbols@.wf(),
        d.config.reel_count * d.config.row_count <= usize::MAX,
    ensures
        match triggers_error(*d) {
            None => r is Ok,
            Some(e) => r == Err::<(), DataError>(e),
        },
{
    let cells = d.config.reel_count * d.config.row_count;
    if d.holdspin.trigger_eggs == 0 || d.holdspin.trigger_eggs > cells {
        return Err(DataError::TriggerEggs { eggs: d.holdspin.trigger_eggs, cells });
    }
    if d.seam.trigger_count == 0 || d.seam.trigger_count > cells {
        return Err(DataError::SeamTrigger { trigger: d.seam.trigger_count, cells });
    }
    if d.seam.rites.len() == 0 {
        return Err(DataError::NoRites);
    }
    if d.seam.steps == 0 {
        return Err(DataError::NoSeamSteps);
    }
    if d.seam.max_multiple <= 0 {
        return Err(DataError::SeamCeiling);
    }
    if seam_ladder_len(d) < 2 {
        return Err(DataError::SeamLadder);
    }
    Ok(())
}

/// The arithmetic the checks do stays inside its types wherever the checks
/// reach it: the cell count once the grid has passed, the jackpot share
/// total once there are tiers to add up, and the shape values once every
/// check before the shapes has passed.
pub open spec fn validation_fits(d: GameData) -> bool {
    &&& grid_error(d) is None ==> d.config.reel_count * d.config.row_count <= usize::MAX
    &&& (grid_error(d) is None && lines_error(d) is None && config_error(d) is None && d.jackpots.tiers@.len() > 0
        && d.jackpots.contribution_permille >= 0) ==> shares_fit(d.jackpots.tiers@)
    &&& (grid_error(d) is None && lines_error(d) is None && config_error(d) is None && jackpots_error(d.jackpots) is None
        && rounds_error(d) is None && buy_error(d) is None && refine_error(d) is None && heights_error(d) is None)
        ==> shapes_fit(d)
}

impl GameData {
    /// Refuse a cabinet whose data does not make sense, naming the first
    /// failing check.
    pub fn validate(&self) -> (r: Result<(), DataError>)
        requires
            self.symbols@.wf(),
            validation_fits(*self),
        ensures
            match validation_error(*self) {
                None => r is Ok,
                Some(e) => r == Err::<(), DataError>(e),
            },
    {
        let r = check_grid(self);
        if r.is_err() {
            return r;
        }
        let r = check_lines(self);
        if r.is_err() {
            return r;
        }
        let r = check_config(self);
        if r.is_err() {
            return r;
        }
        let r = validate_jackpots(&self.jackpots);
        if r.is_err() {
            return r;
        }
        let r = check_rounds(self);
        if r.is_err() {
            return r;
        }
        let r = check_buy(self);
        if r.is_err() {
            return r;
        }
        let r = check_refine(self);
        if r.is_err() {
            return r;
        }
        let r = check_heights(self);
        if r.is_err() {
            return r;
        }
        let r = check_shapes(self);
        if r.is_err() {
            return r;
        }
        let r = check_ladders(self);
        if r.is_err() {
            return r;
        }
        check_triggers(self)
    }
}

} // verus!

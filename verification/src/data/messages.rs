//! The words a refused cabinet is refused with.

use vstd::prelude::*;
use crate::data::DataError;

verus! {

/// The digit a value below ten is written with.
pub open spec fn digit_char(d: nat) -> char {
    if d == 0 {
        '0'
    } else if d == 1 {
        '1'
    } else if d == 2 {
        '2'
    } else if d == 3 {
        '3'
    } else if d == 4 {
        '4'
    } else if d == 5 {
        '5'
    } else if d == 6 {
        '6'
    } else if d == 7 {
        '7'
    } else if d == 8 {
        '8'
    } else {
        '9'
    }
}

/// A count written out in decimal, most significant digit first.
pub open spec fn decimal(n: nat) -> Seq<char>
    decreases n,
{
    if n < 10 {
        seq![digit_char(n)]
    } else {
        decimal(n / 10) + seq![digit_char(n % 10)]
    }
}

/// A signed value written out in decimal, with a minus sign when negative.
pub open spec fn signed_decimal(n: int) -> Seq<char> {
    if n < 0 {
        seq!['-'] + decimal((-n) as nat)
    } else {
        decimal(n as nat)
    }
}

fn digit_text(d: u64) -> (text: &'static str)
    requires
        d < 10,
    ensures
        text@ == seq![digit_char(d as nat)],
{
    match d {
        0 => {
            proof {
                reveal_strlit("0");
            }
            "0"
        },
        1 => {
            proof {
                reveal_strlit("1");
            }
            "1"
        },
        2 => {
            proof {
                reveal_strlit("2");
            }
            "2"
        },
        3 => {
            proof {
                reveal_strlit("3");
            }
            "3"
        },
        4 => {
            proof {
                reveal_strlit("4");
            }
            "4"
        },
        5 => {
            proof {
                reveal_strlit("5");
            }
            "5"
        },
        6 => {
            proof {
                reveal_strlit("6");
            }
            "6"
        },
        7 => {
            proof {
                reveal_strlit("7");
            }
            "7"
        },
        8 => {
            proof {
                reveal_strlit("8");
            }
            "8"
        },
        _ => {
            proof {
                reveal_strlit("9");
            }
            "9"
        },
    }
}

fn decimal_text(n: u64) -> (text: String)
    ensures
        text@ == decimal(n as nat),
    decreases n,
{
    if n < 10 {
        String::from_str(digit_text(n))
    } else {
        let mut text = decimal_text(n / 10);
        text.append(digit_text(n % 10));
        text
    }
}

fn signed_text(n: i64) -> (text: String)
    ensures
        text@ == signed_decimal(n as int),
{
    if n < 0 {
        let magnitude = (-(n as i128)) as u64;
        let digits = decimal_text(magnitude);
        let mut text = String::from_str("-");
        proof {
            reveal_strlit("-");
        }
        text.append(digits.as_str());
        text
    } else {
        decimal_text(n as u64)
    }
}

/// What the player, or the cabinet's author, is told about a refusal.
pub open spec fn error_text(e: DataError) -> Seq<char> {
    match e {
        DataError::NoSymbols => "symbols.json contained no symbols"@,
        DataError::DuplicateSymbol(id) => "duplicate symbol id '"@ + id@ + "'"@,
        DataError::NonNumericPayKey { symbol, key } => "symbol '"@ + symbol@ + "' has non-numeric pay key '"@ + key@ + "'"@,
        DataError::RunTooLong { symbol, count } => "symbol '"@ + symbol@ + "' pays for run "@ + decimal(count as nat) + " which exceeds 5"@,
        DataError::MultipleWilds => "more than one wild symbol declared"@,
        DataError::MultipleScatters => "more than one scatter symbol declared"@,
        DataError::MultipleHoards => "more than one hoard symbol declared"@,
        DataError::WildScatter => "a symbol cannot be both wild and scatter"@,
        DataError::NoJackpotTiers => "jackpots.json declared no tiers"@,
        DataError::NegativeContribution => "contribution_permille cannot be negative"@,
        DataError::JackpotShares(shares) => "jackpot shares must total 1000 permille, got "@ + signed_decimal(shares as int),
        DataError::JackpotOdds(id) => "jackpot '"@ + id@ + "' has non-positive odds"@,
        DataError::JackpotSeed(id) => "jackpot '"@ + id@ + "' has a negative seed"@,
        DataError::JackpotOrder => "jackpot tiers must be ordered from most to least frequent"@,
        DataError::NoPaytableEntry(id) => "no paytable entry for symbol '"@ + id@ + "'"@,
        DataError::PaytableExtra(id) => "paytable names '"@ + id@ + "', which is not in the symbol set"@,
        DataError::UnknownStripSymbol { reel, id } => "reel "@ + decimal(reel as nat) + " references unknown symbol '"@ + id@ + "'"@,
        DataError::EmptyGrid => "reel_count and row_count must both be positive"@,
        DataError::TooManyReels(reels) => "reel_count "@ + decimal(reels as nat) + " exceeds the paytable maximum run of 5"@,
        DataError::StripCount { strips, reels } => "reels.json has "@ + decimal(strips as nat) + " strips but reel_count is "@ + decimal(reels as nat),
        DataError::ShortStrip { reel, len, rows } => "reel strip "@ + decimal(reel as nat) + " has "@ + decimal(len as nat) + " symbols, fewer than row_count "@ + decimal(rows as nat),
        DataError::NoPaylines => "paylines.json declared no paylines"@,
        DataError::WaysWithPaylines => "a ways machine must not declare paylines"@,
        DataError::WaysWithoutBetUnits => "a ways machine must declare bet_units"@,
        DataError::PaylineLength { id, len, reels } => "payline "@ + decimal(id as nat) + " covers "@ + decimal(len as nat) + " reels but reel_count is "@ + decimal(reels as nat),
        DataError::PaylineRow { id, row, rows } => "payline "@ + decimal(id as nat) + " references row "@ + decimal(row as nat) + " outside row_count "@ + decimal(rows as nat),
        DataError::NoWild => "no wild symbol declared in symbols.json"@,
        DataError::NoScatter => "no scatter symbol declared in symbols.json"@,
        DataError::NoLineBets => "game_config.json declared no line bets"@,
        DataError::NonPositiveLineBet => "line bets must all be positive"@,
        DataError::NoHoardCapacity => "hoard_capacity must be positive"@,
        DataError::NoAutospinChoices => "game_config.json declared no autospin choices"@,
        DataError::ZeroAutospinChoice => "autospin choices must all be positive"@,
        DataError::NoBonusPrizes => "bonus.json declared no prizes"@,
        DataError::NoBonusBlanks => "a bonus round with no blanks could never end"@,
        DataError::BonusBoardFull => "bonus blanks must leave room for at least one prize"@,
        DataError::NoCoinValues => "holdspin.json declared no coin values"@,
        DataError::WeightlessCoins => "holdspin coin values must carry some weight"@,
        DataError::NoRespins => "a hold-and-spin round with no respins would end at once"@,
        DataError::BuyCoins { tier, coins, cells } => "feature buy tier '"@ + tier@ + "' places "@ + decimal(
            coins as nat,
        ) + " coins, which must fit on a "@ + decimal(cells as nat) + "-cell grid"@,
        DataError::EmptyRefine => "freespins.refine declared no symbols to burn"@,
        DataError::RefineUnknown(id) => "refine order names unknown symbol '"@ + id@ + "'"@,
        DataError::RefineSpecial(id) => "refine must not burn '"@ + id@ + "'"@,
        DataError::HeightRange => "reel_heights must be a range with at least one row"@,
        DataError::HeightsTooTall { max, rows } => "reel_heights max ("@ + decimal(max as nat) + ") exceeds row_count ("@ + decimal(rows as nat) + "), which is what the window is sized against"@,
        DataError::ShiftingLines => "shifting reels need ways evaluation"@,
        DataError::ShapeValue { id, value, first, first_value } => "free-spin shape '"@ + id@ + "' is worth "@ + signed_decimal(value as int) + " against '"@ + first@ + "' at "@ + signed_decimal(first_value as int) + " — every shape must trade spins for multiplier exactly"@,
        DataError::RefiningShapes => "a refining cabinet cannot offer free-spin shapes: burning symbols makes a late spin worth more than an early one, so trading spins for multiplier would move the return"@,
        DataError::NoGambleSteps => "a gamble with no steps could never be taken"@,
        DataError::GambleCeiling => "the gamble ceiling must leave something to gamble"@,
        DataError::NoCascadeSteps => "a cascade capped at zero steps would pay nothing"@,
        DataError::NoCascadeMultipliers => "cascade.json declared no multipliers"@,
        DataError::CascadeShrinks => "a cascade multiplier below 1 would shrink a win"@,
        DataError::TriggerEggs { eggs, cells } => "holdspin trigger_eggs ("@ + decimal(eggs as nat) + ") must fit on a "@ + decimal(cells as nat) + "-cell grid"@,
        DataError::SeamTrigger { trigger, cells } => "seam trigger_count ("@ + decimal(trigger as nat) + ") must fit on a "@ + decimal(cells as nat) + "-cell grid"@,
        DataError::NoRites => "seam.json declared no rites"@,
        DataError::NoSeamSteps => "a seam with no steps would never work the board"@,
        DataError::SeamCeiling => "the seam ceiling must leave something to win"@,
        DataError::SeamLadder => "a seam needs at least two payable symbols to have a ladder to climb"@,
        DataError::MissingCopy { kind, key } => "presentation.json is missing "@ + kind@ + " '"@ + key@ + "',"@,
    }
}

impl DataError {
    /// The refusal in words, naming what was wrong and where.
    #[verifier::rlimit(50)]
    pub fn message(&self) -> (text: String)
        ensures
            text@ == error_text(*self),
    {
        match self {
            DataError::NoSymbols => {
                let mut t = String::from_str("symbols.json contained no symbols");
                t
            },
            DataError::DuplicateSymbol(id) => {
                let mut t = String::from_str("duplicate symbol id '");
                t.append(id.as_str());
                t.append("'");
                t
            },
            DataError::NonNumericPayKey { symbol, key } => {
                let mut t = String::from_str("symbol '");
                t.append(symbol.as_str());
                t.append("' has non-numeric pay key '");
                t.append(key.as_str());
                t.append("'");
                t
            },
            DataError::RunTooLong { symbol, count } => {
                let mut t = String::from_str("symbol '");
                t.append(symbol.as_str());
                t.append("' pays for run ");
                let d = decimal_text(*count as u64);
                t.append(d.as_str());
                t.append(" which exceeds 5");
                t
            },
            DataError::MultipleWilds => {
                let mut t = String::from_str("more than one wild symbol declared");
                t
            },
            DataError::MultipleScatters => {
                let mut t = String::from_str("more than one scatter symbol declared");
                t
            },
            DataError::MultipleHoards => {
                let mut t = String::from_str("more than one hoard symbol declared");
                t
            },
            DataError::WildScatter => {
                let mut t = String::from_str("a symbol cannot be both wild and scatter");
                t
            },
            DataError::NoJackpotTiers => {
                let mut t = String::from_str("jackpots.json declared no tiers");
                t
            },
            DataError::NegativeContribution => {
                let mut t = String::from_str("contribution_permille cannot be negative");
                t
            },
            DataError::JackpotShares(shares) => {
                let mut t = String::from_str("jackpot shares must total 1000 permille, got ");
                let d = signed_text(*shares);
                t.append(d.as_str());
                t
            },
            DataError::JackpotOdds(id) => {
                let mut t = String::from_str("jackpot '");
                t.append(id.as_str());
                t.append("' has non-positive odds");
                t
            },
            DataError::JackpotSeed(id) => {
                let mut t = String::from_str("jackpot '");
                t.append(id.as_str());
                t.append("' has a negative seed");
                t
            },
            DataError::JackpotOrder => {
                let mut t = String::from_str("jackpot tiers must be ordered from most to least frequent");
                t
            },
            DataError::NoPaytableEntry(id) => {
                let mut t = String::from_str("no paytable entry for symbol '");
                t.append(id.as_str());
                t.append("'");
                t
            },
            DataError::PaytableExtra(id) => {
                let mut t = String::from_str("paytable names '");
                t.append(id.as_str());
                t.append("', which is not in the symbol set");
                t
            },
            DataError::UnknownStripSymbol { reel, id } => {
                let mut t = String::from_str("reel ");
                let d = decimal_text(*reel as u64);
                t.append(d.as_str());
                t.append(" references unknown symbol '");
                t.append(id.as_str());
                t.append("'");
                t
            },
            DataError::EmptyGrid => {
                let mut t = String::from_str("reel_count and row_count must both be positive");
                t
            },
            DataError::TooManyReels(reels) => {
                let mut t = String::from_str("reel_count ");
                let d = decimal_text(*reels as u64);
                t.append(d.as_str());
                t.append(" exceeds the paytable maximum run of 5");
                t
            },
            DataError::StripCount { strips, reels } => {
                let mut t = String::from_str("reels.json has ");
                let d = decimal_text(*strips as u64);
                t.append(d.as_str());
                t.append(" strips but reel_count is ");
                let d = decimal_text(*reels as u64);
                t.append(d.as_str());
                t
            },
            DataError::ShortStrip { reel, len, rows } => {
                let mut t = String::from_str("reel strip ");
                let d = decimal_text(*reel as u64);
                t.append(d.as_str());
                t.append(" has ");
                let d = decimal_text(*len as u64);
                t.append(d.as_str());
                t.append(" symbols, fewer than row_count ");
                let d = decimal_text(*rows as u64);
                t.append(d.as_str());
                t
            },
            DataError::NoPaylines => {
                let mut t = String::from_str("paylines.json declared no paylines");
                t
            },
            DataError::WaysWithPaylines => {
                let mut t = String::from_str("a ways machine must not declare paylines");
                t
            },
            DataError::WaysWithoutBetUnits => {
                let mut t = String::from_str("a ways machine must declare bet_units");
                t
            },
            DataError::PaylineLength { id, len, reels } => {
                let mut t = String::from_str("payline ");
                let d = decimal_text(*id as u64);
                t.append(d.as_str());
                t.append(" covers ");
                let d = decimal_text(*len as u64);
                t.append(d.as_str());
                t.append(" reels but reel_count is ");
                let d = decimal_text(*reels as u64);
                t.append(d.as_str());
                t
            },
            DataError::PaylineRow { id, row, rows } => {
                let mut t = String::from_str("payline ");
                let d = decimal_text(*id as u64);
                t.append(d.as_str());
                t.append(" references row ");
                let d = decimal_text(*row as u64);
                t.append(d.as_str());
                t.append(" outside row_count ");
                let d = decimal_text(*rows as u64);
                t.append(d.as_str());
                t
            },
            DataError::NoWild => {
                let mut t = String::from_str("no wild symbol declared in symbols.json");
                t
            },
            DataError::NoScatter => {
                let mut t = String::from_str("no scatter symbol declared in symbols.json");
                t
            },
            DataError::NoLineBets => {
                let mut t = String::from_str("game_config.json declared no line bets");
                t
            },
            DataError::NonPositiveLineBet => {
                let mut t = String::from_str("line bets must all be positive");
                t
            },
            DataError::NoHoardCapacity => {
                let mut t = String::from_str("hoard_capacity must be positive");
                t
            },
            DataError::NoAutospinChoices => {
                let mut t = String::from_str("game_config.json declared no autospin choices");
                t
            },
            DataError::ZeroAutospinChoice => {
                let mut t = String::from_str("autospin choices must all be positive");
                t
            },
            DataError::NoBonusPrizes => {
                let mut t = String::from_str("bonus.json declared no prizes");
                t
            },
            DataError::NoBonusBlanks => {
                let mut t = String::from_str("a bonus round with no blanks could never end");
                t
            },
            DataError::BonusBoardFull => {
                let mut t = String::from_str("bonus blanks must leave room for at least one prize");
                t
            },
            DataError::NoCoinValues => {
                let mut t = String::from_str("holdspin.json declared no coin values");
                t
            },
            DataError::WeightlessCoins => {
                let mut t = String::from_str("holdspin coin values must carry some weight");
                t
            },
            DataError::NoRespins => {
                let mut t = String::from_str("a hold-and-spin round with no respins would end at once");
                t
            },
            DataError::BuyCoins { tier, coins, cells } => {
                let mut t = String::from_str("feature buy tier '");
                t.append(tier.as_str());
                t.append("' places ");
                let d = decimal_text(*coins as u64);
                t.append(d.as_str());
                t.append(" coins, which must fit on a ");
                let d = decimal_text(*cells as u64);
                t.append(d.as_str());
                t.append("-cell grid");
                t
            },
            DataError::EmptyRefine => {
                let mut t = String::from_str("freespins.refine declared no symbols to burn");
                t
            },
            DataError::RefineUnknown(id) => {
                let mut t = String::from_str("refine order names unknown symbol '");
                t.append(id.as_str());
                t.append("'");
                t
            },
            DataError::RefineSpecial(id) => {
                let mut t = String::from_str("refine must not burn '");
                t.append(id.as_str());
                t.append("'");
                t
            },
            DataError::HeightRange => {
                let mut t = String::from_str("reel_heights must be a range with at least one row");
                t
            },
            DataError::HeightsTooTall { max, rows } => {
                let mut t = String::from_str("reel_heights max (");
                let d = decimal_text(*max as u64);
                t.append(d.as_str());
                t.append(") exceeds row_count (");
                let d = decimal_text(*rows as u64);
                t.append(d.as_str());
                t.append("), which is what the window is sized against");
                t
            },
            DataError::ShiftingLines => {
                let mut t = String::from_str("shifting reels need ways evaluation");
                t
            },
            DataError::ShapeValue { id, value, first, first_value } => {
                let mut t = String::from_str("free-spin shape '");
                t.append(id.as_str());
                t.append("' is worth ");
                let d = signed_text(*value);
                t.append(d.as_str());
                t.append(" against '");
                t.append(first.as_str());
                t.append("' at ");
                let d = signed_text(*first_value);
                t.append(d.as_str());
                t.append(" — every shape must trade spins for multiplier exactly");
                t
            },
            DataError::RefiningShapes => {
                let mut t = String::from_str("a refining cabinet cannot offer free-spin shapes: burning symbols makes a late spin worth more than an early one, so trading spins for multiplier would move the return");
                t
            },
            DataError::NoGambleSteps => {
                let mut t = String::from_str("a gamble with no steps could never be taken");
                t
            },
            DataError::GambleCeiling => {
                let mut t = String::from_str("the gamble ceiling must leave something to gamble");
                t
            },
            DataError::NoCascadeSteps => {
                let mut t = String::from_str("a cascade capped at zero steps would pay nothing");
                t
            },
            DataError::NoCascadeMultipliers => {
                let mut t = String::from_str("cascade.json declared no multipliers");
                t
            },
            DataError::CascadeShrinks => {
                let mut t = String::from_str("a cascade multiplier below 1 would shrink a win");
                t
            },
            DataError::TriggerEggs { eggs, cells } => {
                let mut t = String::from_str("holdspin trigger_eggs (");
                let d = decimal_text(*eggs as u64);
                t.append(d.as_str());
                t.append(") must fit on a ");
                let d = decimal_text(*cells as u64);
                t.append(d.as_str());
                t.append("-cell grid");
                t
            },
            DataError::SeamTrigger { trigger, cells } => {
                let mut t = String::from_str("seam trigger_count (");
                let d = decimal_text(*trigger as u64);
                t.append(d.as_str());
                t.append(") must fit on a ");
                let d = decimal_text(*cells as u64);
                t.append(d.as_str());
                t.append("-cell grid");
                t
            },
            DataError::NoRites => {
                let mut t = String::from_str("seam.json declared no rites");
                t
            },
            DataError::NoSeamSteps => {
                let mut t = String::from_str("a seam with no steps would never work the board");
                t
            },
            DataError::SeamCeiling => {
                let mut t = String::from_str("the seam ceiling must leave something to win");
                t
            },
            DataError::SeamLadder => {
                let mut t = String::from_str("a seam needs at least two payable symbols to have a ladder to climb");
                t
            },
            DataError::MissingCopy { kind, key } => {
                let mut t = String::from_str("presentation.json is missing ");
                t.append(kind.as_str());
                t.append(" '");
                t.append(key.as_str());
                t.append("',");
                t
            },
        }
    }
}

} // verus!

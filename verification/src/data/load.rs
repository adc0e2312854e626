//! Building one cabinet's data out of its parsed parts, and refusing it when
//! it is wrong: payouts attached to the shared symbol set, strips resolved
//! from names to indices, and then every check of [`GameData::validate`].
//! Reading the parts out of their files is the player's job.

use vstd::prelude::*;
use crate::data::{
    copy_strip, flagged, pay_row, strips_view, symbols_built, symbols_error, BonusConfig, CascadeConfig, DataError, FeatureBuyConfig,
    FreeSpinsConfig, GambleConfig, GameConfig, GameData, HoldSpinConfig, Jackpots, MachineDef, Payline,
    PresentationConfig, SeamConfig, SymbolDef, Symbols, SymbolsView,
};
use crate::data::validate::{shapes_fit, validation_error};
use crate::data::shares_fit;
use crate::text::same_text;

verus! {

/// Everything a cabinet's files hold, parsed but not yet checked.
#[derive(Debug)]
pub struct CabinetParts {
    pub config: GameConfig,
    /// The shared symbol set; what each pays comes from the paytable.
    pub symbols: Vec<SymbolDef>,
    /// Symbol id to its pay entries: run length written as text, to payout.
    pub paytable: Vec<(String, Vec<(String, i64)>)>,
    /// One strip per reel, by symbol id.
    pub strips: Vec<Vec<String>>,
    pub paylines: Vec<Payline>,
    pub freespins: FreeSpinsConfig,
    pub jackpots: Jackpots,
    pub bonus: BonusConfig,
    pub holdspin: HoldSpinConfig,
    pub seam: SeamConfig,
    pub featurebuy: FeatureBuyConfig,
    pub gamble: GambleConfig,
    pub cascade: Option<CascadeConfig>,
    pub presentation: PresentationConfig,
}

/// The first paytable entry for symbol `id`.
pub open spec fn pay_entry(table: Seq<(String, Vec<(String, i64)>)>, id: Seq<char>) -> Option<int> {
    if exists|j: int| 0 <= j < table.len() && table[j].0@ == id {
        Some(choose|j: int| 0 <= j < table.len() && table[j].0@ == id && forall|k: int| 0 <= k < j ==> table[k].0@ != id)
    } else {
        None
    }
}

/// The first definition the paytable has no entry for.
pub open spec fn missing_pay(defs: Seq<SymbolDef>, table: Seq<(String, Vec<(String, i64)>)>) -> Option<int> {
    if exists|i: int| 0 <= i < defs.len() && pay_entry(table, defs[i].id@) is None {
        Some(choose|i: int| 0 <= i < defs.len() && pay_entry(table, defs[i].id@) is None && forall|k: int| 0 <= k < i ==> pay_entry(table, #[trigger] defs[k].id@) is Some)
    } else {
        None
    }
}

/// Whether some definition has this id.
pub open spec fn defines(defs: Seq<SymbolDef>, id: Seq<char>) -> bool {
    exists|i: int| 0 <= i < defs.len() && #[trigger] defs[i].id@ == id
}

/// The first paytable entry naming a symbol the set does not have: a rename
/// that only got half done, which would silently never pay.
pub open spec fn extra_pay(defs: Seq<SymbolDef>, table: Seq<(String, Vec<(String, i64)>)>) -> Option<int> {
    if exists|j: int| 0 <= j < table.len() && !defines(defs, table[j].0@) {
        Some(choose|j: int| 0 <= j < table.len() && !defines(defs, table[j].0@) && forall|k: int| 0 <= k < j ==> defines(defs, #[trigger] table[k].0@))
    } else {
        None
    }
}

/// Two definitions that differ at most in which vector holds the same pay
/// entries.
pub open spec fn same_def(a: SymbolDef, b: SymbolDef) -> bool {
    &&& a.id == b.id
    &&& a.name == b.name
    &&& a.tier == b.tier
    &&& a.short == b.short
    &&& a.art == b.art
    &&& a.texture == b.texture
    &&& a.is_wild == b.is_wild
    &&& a.is_scatter == b.is_scatter
    &&& a.is_hoard == b.is_hoard
    &&& a.pays@ == b.pays@
}

/// Definition `d` carrying the pays of paytable entry `j`.
pub open spec fn paid(d: SymbolDef, table: Seq<(String, Vec<(String, i64)>)>) -> SymbolDef {
    SymbolDef {
        id: d.id,
        name: d.name,
        tier: d.tier,
        short: d.short,
        art: d.art,
        texture: d.texture,
        is_wild: d.is_wild,
        is_scatter: d.is_scatter,
        is_hoard: d.is_hoard,
        pays: table[pay_entry(table, d.id@)->Some_0].1,
    }
}

/// The symbol set with its payouts attached.
pub open spec fn with_pays(defs: Seq<SymbolDef>, table: Seq<(String, Vec<(String, i64)>)>) -> Seq<SymbolDef> {
    defs.map_values(|d: SymbolDef| paid(d, table))
}

/// A registry as a list of definitions builds it, up to which vector holds
/// each symbol's pay entries.
pub open spec fn built_from(v: SymbolsView, defs: Seq<SymbolDef>) -> bool {
    let b = symbols_built(defs);
    &&& v.pays == b.pays
    &&& v.wild == b.wild
    &&& v.scatter == b.scatter
    &&& v.hoard == b.hoard
    &&& v.defs.len() == b.defs.len()
    &&& forall|i: int| 0 <= i < v.defs.len() ==> same_def(#[trigger] v.defs[i], b.defs[i])
}

proof fn lemma_symbols_error_agree(a: Seq<SymbolDef>, b: Seq<SymbolDef>)
    requires
        a.len() == b.len(),
        forall|i: int| 0 <= i < a.len() ==> same_def(#[trigger] a[i], b[i]),
    ensures
        symbols_error(a) == symbols_error(b),
        symbols_error(a) is None ==> built_from(symbols_built(a), b),
{
    assert forall|k: int| 0 <= k <= a.len() implies #[trigger] crate::data::symbols_error_upto(a, k)
        == crate::data::symbols_error_upto(b, k) by {
        lemma_upto_agree(a, b, k);
    }
    let ba = symbols_built(a);
    let bb = symbols_built(b);
    assert(ba.pays =~= bb.pays);
    assert(a.map_values(|d: SymbolDef| d.is_wild) =~= b.map_values(|d: SymbolDef| d.is_wild));
    assert(a.map_values(|d: SymbolDef| d.is_scatter) =~= b.map_values(|d: SymbolDef| d.is_scatter));
    assert(a.map_values(|d: SymbolDef| d.is_hoard) =~= b.map_values(|d: SymbolDef| d.is_hoard));
    if exists|i: int| 0 <= i < a.len() && a[i].is_wild && a[i].is_scatter {
        let i = choose|i: int| 0 <= i < a.len() && a[i].is_wild && a[i].is_scatter;
        assert(b[i].is_wild && b[i].is_scatter);
    }
    if exists|i: int| 0 <= i < b.len() && b[i].is_wild && b[i].is_scatter {
        let i = choose|i: int| 0 <= i < b.len() && b[i].is_wild && b[i].is_scatter;
        assert(a[i].is_wild && a[i].is_scatter);
    }
}

proof fn lemma_upto_agree(a: Seq<SymbolDef>, b: Seq<SymbolDef>, k: int)
    requires
        a.len() == b.len(),
        0 <= k <= a.len(),
        forall|i: int| 0 <= i < a.len() ==> same_def(#[trigger] a[i], b[i]),
    ensures
        crate::data::symbols_error_upto(a, k) == crate::data::symbols_error_upto(b, k),
    decreases k,
{
    if k > 0 {
        lemma_upto_agree(a, b, k - 1);
        let i = k - 1;
        assert(same_def(a[i], b[i]));
        if exists|j: int| 0 <= j < i && a[j].id@ == a[i].id@ {
            let j = choose|j: int| 0 <= j < i && a[j].id@ == a[i].id@;
            assert(same_def(a[j], b[j]));
        }
        if exists|j: int| 0 <= j < i && b[j].id@ == b[i].id@ {
            let j = choose|j: int| 0 <= j < i && b[j].id@ == b[i].id@;
            assert(same_def(a[j], b[j]));
        }
        if exists|j: int| 0 <= j < i && a[j].is_wild {
            let j = choose|j: int| 0 <= j < i && a[j].is_wild;
            assert(same_def(a[j], b[j]));
        }
        if exists|j: int| 0 <= j < i && b[j].is_wild {
            let j = choose|j: int| 0 <= j < i && b[j].is_wild;
            assert(same_def(a[j], b[j]));
        }
        if exists|j: int| 0 <= j < i && a[j].is_scatter {
            let j = choose|j: int| 0 <= j < i && a[j].is_scatter;
            assert(same_def(a[j], b[j]));
        }
        if exists|j: int| 0 <= j < i && b[j].is_scatter {
            let j = choose|j: int| 0 <= j < i && b[j].is_scatter;
            assert(same_def(a[j], b[j]));
        }
        if exists|j: int| 0 <= j < i && a[j].is_hoard {
            let j = choose|j: int| 0 <= j < i && a[j].is_hoard;
            assert(same_def(a[j], b[j]));
        }
        if exists|j: int| 0 <= j < i && b[j].is_hoard {
            let j = choose|j: int| 0 <= j < i && b[j].is_hoard;
            assert(same_def(a[j], b[j]));
        }
    }
}

/// A copy of a list of pay entries.
fn copy_pays(pays: &Vec<(String, i64)>) -> (out: Vec<(String, i64)>)
    ensures
        out@ == pays@,
{
    let mut out: Vec<(String, i64)> = Vec::new();
    let mut i: usize = 0;
    while i < pays.len()
        invariant
            0 <= i <= pays@.len(),
            out@ == pays@.subrange(0, i as int),
        decreases pays@.len() - i,
    {
        let entry = &pays[i];
        out.push((entry.0.clone(), entry.1));
        i = i + 1;
        assert(out@ =~= pays@.subrange(0, i as int));
    }
    assert(out@ =~= pays@);
    out
}

/// The first paytable entry for `id`.
fn find_entry(table: &Vec<(String, Vec<(String, i64)>)>, id: &str) -> (j: Option<usize>)
    ensures
        match j {
            Some(j) => pay_entry(table@, id@) == Some(j as int) && j < table@.len() && table@[j as int].0@ == id@,
            None => pay_entry(table@, id@) is None,
        },
{
    let mut j: usize = 0;
    while j < table.len()
        invariant
            0 <= j <= table@.len(),
            forall|k: int| 0 <= k < j ==> table@[k].0@ != id@,
        decreases table@.len() - j,
    {
        if same_text(table[j].0.as_str(), id) {
            proof {
                let c = choose|c: int| 0 <= c < table@.len() && table@[c].0@ == id@ && forall|k: int| 0 <= k < c ==> table@[k].0@ != id@;
                if c < j {
                } else if c > j {
                    assert(table@[j as int].0@ == id@);
                }
            }
            return Some(j);
        }
        j = j + 1;
    }
    None
}

/// Whether some definition has this id.
fn defined(defs: &Vec<SymbolDef>, id: &str) -> (r: bool)
    ensures
        r == defines(defs@, id@),
{
    let mut d: usize = 0;
    while d < defs.len()
        invariant
            0 <= d <= defs@.len(),
            forall|k: int| 0 <= k < d ==> defs@[k].id@ != id@,
        decreases defs@.len() - d,
    {
        if same_text(defs[d].id.as_str(), id) {
            assert(defs@[d as int].id@ == id@);
            return true;
        }
        d = d + 1;
    }
    false
}

/// Attach to every definition its paytable entry, refusing a definition the
/// paytable does not price and an entry for a symbol the set does not have.
pub fn attach_pays(defs: &Vec<SymbolDef>, table: &Vec<(String, Vec<(String, i64)>)>) -> (r: Result<Vec<SymbolDef>, DataError>)
    ensures
        match missing_pay(defs@, table@) {
            Some(i) => r == Err::<Vec<SymbolDef>, DataError>(DataError::NoPaytableEntry(defs@[i].id)),
            None => match extra_pay(defs@, table@) {
                Some(j) => r == Err::<Vec<SymbolDef>, DataError>(DataError::PaytableExtra(table@[j].0)),
                None => r matches Ok(out) && out@.len() == defs@.len() && forall|i: int|
                    0 <= i < defs@.len() ==> same_def(#[trigger] out@[i], with_pays(defs@, table@)[i]),
            },
        },
{
    let mut out: Vec<SymbolDef> = Vec::new();
    let mut i: usize = 0;
    while i < defs.len()
        invariant
            0 <= i <= defs@.len(),
            forall|k: int| 0 <= k < i ==> pay_entry(table@, #[trigger] defs@[k].id@) is Some,
            out@.len() == i,
            forall|k: int| 0 <= k < i ==> same_def(#[trigger] out@[k], with_pays(defs@, table@)[k]),
        decreases defs@.len() - i,
    {
        let def = &defs[i];
        match find_entry(table, def.id.as_str()) {
            None => {
                proof {
                    let m = choose|m: int| 0 <= m < defs@.len() && pay_entry(table@, defs@[m].id@) is None && forall|k: int| 0 <= k < m ==> pay_entry(table@, #[trigger] defs@[k].id@) is Some;
                    if m < i {
                    } else if m > i {
                        assert(pay_entry(table@, defs@[i as int].id@) is None);
                    }
                }
                return Err(DataError::NoPaytableEntry(def.id.clone()));
            },
            Some(j) => {
                let merged = SymbolDef {
                    id: def.id.clone(),
                    name: def.name.clone(),
                    tier: def.tier.clone(),
                    short: def.short.clone(),
                    art: def.art.clone(),
                    texture: def.texture.clone(),
                    is_wild: def.is_wild,
                    is_scatter: def.is_scatter,
                    is_hoard: def.is_hoard,
                    pays: copy_pays(&table[j].1),
                };
                out.push(merged);
            },
        }
        i = i + 1;
    }
    assert(missing_pay(defs@, table@) is None);
    let mut j: usize = 0;
    while j < table.len()
        invariant
            0 <= j <= table@.len(),
            missing_pay(defs@, table@) is None,
            forall|k: int| 0 <= k < j ==> defines(defs@, #[trigger] table@[k].0@),
        decreases table@.len() - j,
    {
        let found = defined(defs, table[j].0.as_str());
        if !found {
            proof {
                let m = choose|m: int| 0 <= m < table@.len() && !defines(defs@, table@[m].0@) && forall|k: int| 0 <= k < m ==> defines(defs@, #[trigger] table@[k].0@);
                if m < j {
                } else if m > j {
                    assert(!defines(defs@, table@[j as int].0@));
                }
            }
            return Err(DataError::PaytableExtra(table[j].0.clone()));
        }
        j = j + 1;
    }
    assert(extra_pay(defs@, table@) is None);
    Ok(out)
}

/// The first position on a strip naming a symbol the registry lacks.
pub open spec fn strip_miss(v: SymbolsView, strip: Seq<String>) -> Option<int> {
    if exists|p: int| 0 <= p < strip.len() && v.index_of(strip[p]@) is None {
        Some(choose|p: int| 0 <= p < strip.len() && v.index_of(strip[p]@) is None && forall|k: int| 0 <= k < p ==> v.index_of(#[trigger] strip[k]@) is Some)
    } else {
        None
    }
}

/// The first reel with a strip naming a symbol the registry lacks.
pub open spec fn reel_miss(v: SymbolsView, strips: Seq<Vec<String>>) -> Option<int> {
    if exists|r: int| 0 <= r < strips.len() && strip_miss(v, strips[r]@) is Some {
        Some(choose|r: int| 0 <= r < strips.len() && strip_miss(v, strips[r]@) is Some && forall|k: int| 0 <= k < r ==> strip_miss(v, #[trigger] strips[k]@) is None)
    } else {
        None
    }
}

/// Every strip with its names resolved to indices.
pub open spec fn resolved(v: SymbolsView, strips: Seq<Vec<String>>) -> Seq<Seq<usize>> {
    Seq::new(strips.len(), |r: int| Seq::new(strips[r]@.len(), |p: int| v.index_of(strips[r]@[p]@)->Some_0))
}

proof fn lemma_strip_miss_at(v: SymbolsView, strip: Seq<String>, p: int)
    requires
        0 <= p < strip.len(),
        v.index_of(strip[p]@) is None,
        forall|k: int| 0 <= k < p ==> v.index_of(#[trigger] strip[k]@) is Some,
    ensures
        strip_miss(v, strip) == Some(p),
{
    let c = choose|c: int| 0 <= c < strip.len() && v.index_of(strip[c]@) is None && forall|k: int| 0 <= k < c ==> v.index_of(#[trigger] strip[k]@) is Some;
    if c < p {
    } else if c > p {
        assert(v.index_of(strip[p]@) is None);
    }
}

proof fn lemma_reel_miss_at(v: SymbolsView, strips: Seq<Vec<String>>, r: int)
    requires
        0 <= r < strips.len(),
        strip_miss(v, strips[r]@) is Some,
        forall|k: int| 0 <= k < r ==> strip_miss(v, #[trigger] strips[k]@) is None,
    ensures
        reel_miss(v, strips) == Some(r),
{
    let m = choose|m: int| 0 <= m < strips.len() && strip_miss(v, strips[m]@) is Some && forall|k: int| 0 <= k < m ==> strip_miss(v, #[trigger] strips[k]@) is None;
    if m < r {
    } else if m > r {
        assert(strip_miss(v, strips[r]@) is Some);
    }
}

/// Resolve every strip from symbol ids to indices, refusing the first name
/// the registry does not have.
pub fn resolve_strips(symbols: &Symbols, strips: &Vec<Vec<String>>) -> (r: Result<Vec<Vec<usize>>, DataError>)
    requires
        symbols@.wf(),
    ensures
        match reel_miss(symbols@, strips@) {
            Some(reel) => r == Err::<Vec<Vec<usize>>, DataError>(DataError::UnknownStripSymbol {
                reel: reel as usize,
                id: strips@[reel]@[strip_miss(symbols@, strips@[reel]@)->Some_0],
            }),
            None => r matches Ok(reels) && strips_view(reels@) == resolved(symbols@, strips@),
        },
{
    let ghost v = symbols@;
    let mut reels: Vec<Vec<usize>> = Vec::new();
    let mut r: usize = 0;
    while r < strips.len()
        invariant
            v == symbols@,
            v.wf(),
            0 <= r <= strips@.len(),
            forall|k: int| 0 <= k < r ==> strip_miss(v, #[trigger] strips@[k]@) is None,
            reels@.len() == r,
            forall|k: int| 0 <= k < r ==> (#[trigger] reels@[k])@ == resolved(v, strips@)[k],
        decreases strips@.len() - r,
    {
        let strip = &strips[r];
        let mut out: Vec<usize> = Vec::new();
        let mut p: usize = 0;
        while p < strip.len()
            invariant
                v == symbols@,
                v.wf(),
                0 <= r < strips@.len(),
                strip@ == strips@[r as int]@,
                forall|k: int| 0 <= k < r ==> strip_miss(v, #[trigger] strips@[k]@) is None,
                0 <= p <= strip@.len(),
                forall|k: int| 0 <= k < p ==> v.index_of(#[trigger] strip@[k]@) is Some,
                out@ == Seq::new(p as nat, |q: int| v.index_of(strip@[q]@)->Some_0),
            decreases strip@.len() - p,
        {
            match symbols.index_of(strip[p].as_str()) {
                Some(index) => {
                    out.push(index);
                },
                None => {
                    proof {
                        lemma_strip_miss_at(v, strip@, p as int);
                        lemma_reel_miss_at(v, strips@, r as int);
                    }
                    return Err(DataError::UnknownStripSymbol { reel: r, id: strip[p].clone() });
                },
            }
            p = p + 1;
            assert(out@ =~= Seq::new(p as nat, |q: int| v.index_of(strip@[q]@)->Some_0));
        }
        assert(strip_miss(v, strip@) is None);
        reels.push(out);
        r = r + 1;
    }
    assert(reel_miss(v, strips@) is None);
    assert(strips_view(reels@) =~= resolved(v, strips@));
    Ok(reels)
}

/// The cabinet the parts build, given the registry and strips they resolve
/// to.
pub open spec fn data_of(machine: MachineDef, parts: CabinetParts, symbols: Symbols, reels: Vec<Vec<usize>>) -> GameData {
    GameData {
        machine,
        config: parts.config,
        symbols,
        reels,
        paylines: parts.paylines,
        freespins: parts.freespins,
        jackpots: parts.jackpots,
        bonus: parts.bonus,
        holdspin: parts.holdspin,
        seam: parts.seam,
        featurebuy: parts.featurebuy,
        gamble: parts.gamble,
        cascade: parts.cascade,
        presentation: parts.presentation,
    }
}

/// The arithmetic the checks make stays inside its types.
pub open spec fn parts_fit(parts: CabinetParts) -> bool {
    &&& shares_fit(parts.jackpots.tiers@)
    &&& forall|i: int| 0 <= i < parts.freespins.shapes@.len() ==> crate::data::fits_i64(
        #[trigger] crate::data::validate::shape_value(parts.freespins.shapes@[i]),
    )
    &&& parts.config.reel_count * parts.config.row_count <= usize::MAX
}

/// What assembling a cabinet from its parts yields: the first refusal in
/// the order the checks are made, or the cabinet.
pub open spec fn assembles_to(machine: MachineDef, parts: CabinetParts, r: Result<GameData, DataError>) -> bool {
    let defs = parts.symbols@;
    let table = parts.paytable@;
    match missing_pay(defs, table) {
        Some(i) => r == Err::<GameData, DataError>(DataError::NoPaytableEntry(defs[i].id)),
        None => match extra_pay(defs, table) {
            Some(j) => r == Err::<GameData, DataError>(DataError::PaytableExtra(table[j].0)),
            None => {
                let merged = with_pays(defs, table);
                match symbols_error(merged) {
                    Some(e) => r == Err::<GameData, DataError>(e),
                    None => exists|s: Symbols|
                        #![trigger s@]
                        {
                            &&& built_from(s@, merged)
                            &&& s@.wf()
                            &&& match reel_miss(s@, parts.strips@) {
                                Some(reel) => r == Err::<GameData, DataError>(DataError::UnknownStripSymbol {
                                    reel: reel as usize,
                                    id: parts.strips@[reel]@[strip_miss(s@, parts.strips@[reel]@)->Some_0],
                                }),
                                None => exists|reels: Vec<Vec<usize>>|
                                    #![trigger reels@]
                                    {
                                        &&& strips_view(reels@) == resolved(s@, parts.strips@)
                                        &&& match validation_error(data_of(machine, parts, s, reels)) {
                                            Some(e) => r == Err::<GameData, DataError>(e),
                                            None => r == Ok::<GameData, DataError>(data_of(machine, parts, s, reels)),
                                        }
                                    },
                            }
                        },
                }
            },
        },
    }
}

impl GameData {
    /// Build a cabinet from its parsed parts: attach payouts to the shared
    /// symbol set, resolve the strips, and run every check. Identity comes
    /// from the shared set, payouts from this cabinet.
    pub fn assemble(machine: MachineDef, parts: CabinetParts) -> (r: Result<GameData, DataError>)
        requires
            parts_fit(parts),
        ensures
            assembles_to(machine, parts, r),
    {
        let ghost p = parts;
        let merged = match attach_pays(&parts.symbols, &parts.paytable) {
            Ok(merged) => merged,
            Err(e) => {
                return Err(e);
            },
        };
        let ghost want = with_pays(p.symbols@, p.paytable@);
        proof {
            lemma_symbols_error_agree(merged@, want);
        }
        let symbols = match Symbols::new(merged) {
            Ok(symbols) => symbols,
            Err(e) => {
                return Err(e);
            },
        };
        proof {
            assert forall|i: int| 0 <= i < symbols@.defs.len() implies same_def(#[trigger] symbols@.defs[i], symbols_built(want).defs[i]) by {
                assert(same_def(merged@[i], want[i]));
            }
            assert(built_from(symbols@, want));
        }
        let reels = match resolve_strips(&symbols, &parts.strips) {
            Ok(reels) => reels,
            Err(e) => {
                return Err(e);
            },
        };
        let data = GameData {
            machine,
            config: parts.config,
            symbols,
            reels,
            paylines: parts.paylines,
            freespins: parts.freespins,
            jackpots: parts.jackpots,
            bonus: parts.bonus,
            holdspin: parts.holdspin,
            seam: parts.seam,
            featurebuy: parts.featurebuy,
            gamble: parts.gamble,
            cascade: parts.cascade,
            presentation: parts.presentation,
        };
        assert(data == data_of(machine, p, data.symbols, data.reels));
        assert(shapes_fit(data));
        match data.validate() {
            Ok(()) => Ok(data),
            Err(e) => Err(e),
        }
    }
}

} // verus!

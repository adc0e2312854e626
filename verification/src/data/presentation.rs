//! Player-facing copy: the text every panel and card reads from.

use vstd::prelude::*;
use crate::data::DataError;
use crate::text::{blank, chars_of, is_blank, same_text};

verus! {

/// The keyboard shortcut labels.
#[derive(Debug)]
pub struct ShortcutText {
    pub spin: String,
    /// Action name to label. Each key appears once.
    pub labels: Vec<(String, String)>,
}

/// The text on celebration cards.
#[derive(Debug)]
pub struct CelebrationText {
    pub continue_prompt: String,
    pub headings: Vec<(String, String)>,
    pub titles: Vec<(String, String)>,
    pub subtitles: Vec<(String, String)>,
}

/// The rule panel's templates, by name.
#[derive(Debug)]
pub struct RuleText {
    pub templates: Vec<(String, String)>,
}

/// Shared player-facing copy. The animation timings that sit beside it in
/// the data file are the renderer's, not the rules'.
#[derive(Debug)]
pub struct PresentationConfig {
    pub shortcuts: ShortcutText,
    pub celebration: CelebrationText,
    pub rules: RuleText,
}

/// The value stored under `key`, if any.
pub open spec fn lookup(entries: Seq<(String, String)>, key: Seq<char>) -> Option<String> {
    if exists|i: int| 0 <= i < entries.len() && entries[i].0@ == key {
        Some(entries[choose|i: int| 0 <= i < entries.len() && entries[i].0@ == key].1)
    } else {
        None
    }
}

/// Keys appear once.
pub open spec fn unique_keys(entries: Seq<(String, String)>) -> bool {
    forall|i: int, j: int| 0 <= i < j < entries.len() ==> entries[i].0@ != entries[j].0@
}

/// A required key with no entry, or with only white space in it.
pub open spec fn key_missing(entries: Seq<(String, String)>, key: Seq<char>) -> bool {
    match lookup(entries, key) {
        None => true,
        Some(value) => is_blank(value@),
    }
}

/// The first required key, from position `from` on, that is missing.
pub open spec fn missing_from(entries: Seq<(String, String)>, required: Seq<Seq<char>>, from: int) -> Option<int>
    decreases required.len() - from,
{
    if from < 0 || from >= required.len() {
        None
    } else if key_missing(entries, required[from]) {
        Some(from)
    } else {
        missing_from(entries, required, from + 1)
    }
}

/// The first required key that is missing, if any.
pub open spec fn first_missing(entries: Seq<(String, String)>, required: Seq<Seq<char>>) -> Option<int> {
    missing_from(entries, required, 0)
}

proof fn lemma_missing_from_bounds(entries: Seq<(String, String)>, required: Seq<Seq<char>>, from: int)
    ensures
        missing_from(entries, required, from) matches Some(i) ==> 0 <= i < required.len(),
    decreases required.len() - from,
{
    if 0 <= from < required.len() && !key_missing(entries, required[from]) {
        lemma_missing_from_bounds(entries, required, from + 1);
    }
}

fn find_entry<'a>(entries: &'a Vec<(String, String)>, key: &str) -> (r: Option<&'a String>)
    requires
        unique_keys(entries@),
    ensures
        match r {
            Some(v) => lookup(entries@, key@) == Some(*v),
            None => lookup(entries@, key@) is None,
        },
{
    let mut i: usize = 0;
    while i < entries.len()
        invariant
            0 <= i <= entries@.len(),
            unique_keys(entries@),
            forall|j: int| 0 <= j < i ==> entries@[j].0@ != key@,
        decreases entries@.len() - i,
    {
        if same_text(entries[i].0.as_str(), key) {
            proof {
                let k = choose|k: int| 0 <= k < entries@.len() && entries@[k].0@ == key@;
                if k > i {
                    assert(entries@[i as int].0@ != entries@[k].0@);
                }
            }
            return Some(&entries[i].1);
        }
        i = i + 1;
    }
    None
}

/// Refuse copy that leaves a required key out or blank, naming the first
/// such key.
fn require_keys(kind: &str, values: &Vec<(String, String)>, required: &Vec<&str>) -> (r: Result<
    (),
    DataError,
>)
    requires
        unique_keys(values@),
    ensures
        first_missing(values@, required@.map_values(|k: &str| k@)) is None ==> r is Ok,
        first_missing(values@, required@.map_values(|k: &str| k@)) is Some ==> reports_missing(
            r,
            values@,
            required@.map_values(|k: &str| k@),
            kind@,
        ),
{
    let ghost keys = required@.map_values(|k: &str| k@);
    let mut i: usize = 0;
    while i < required.len()
        invariant
            0 <= i <= required@.len(),
            unique_keys(values@),
            keys == required@.map_values(|k: &str| k@),
            first_missing(values@, keys) == missing_from(values@, keys, i as int),
        decreases required@.len() - i,
    {
        let key = required[i];
        let missing = match find_entry(values, key) {
            None => true,
            Some(value) => blank(value.as_str()),
        };
        if missing {
            assert(key_missing(values@, keys[i as int]));
            return Err(
                DataError::MissingCopy { kind: String::from_str(kind), key: String::from_str(key) },
            );
        }
        i = i + 1;
    }
    Ok(())
}

#[verifier::opaque]
pub open spec fn shortcut_keys() -> Seq<Seq<char>> {
    seq![
        "bet"@,
        "max_bet"@,
        "autospin"@,
        "gamble"@,
        "buy"@,
        "rules"@,
        "paytable"@,
        "ledger"@,
        "machines"@,
        "awards"@,
        "settings"@,
        "session"@,
        "limits"@,
    ]
}

#[verifier::opaque]
pub open spec fn heading_keys() -> Seq<Seq<char>> {
    seq![
        "free_spins_entry"@,
        "free_spins_retrigger"@,
        "free_spins_summary"@,
        "hatch"@,
        "jackpot"@,
        "big_win"@,
        "gamble_lost"@,
        "seam_dry"@,
        "seam"@,
        "wrath"@,
        "wrath_full_board"@,
    ]
}

#[verifier::opaque]
pub open spec fn title_keys() -> Seq<Seq<char>> {
    seq!["free_spins_entry"@, "free_spins_retrigger"@, "credits"@, "nothing"@]
}

#[verifier::opaque]
pub open spec fn rule_keys() -> Seq<Seq<char>> {
    seq![
        "title_paylines"@,
        "title_clusters"@,
        "title_ways"@,
        "title_shifting_reels"@,
        "title_cascades"@,
        "title_wilds"@,
        "title_scatters"@,
        "title_free_spins"@,
        "title_refining"@,
        "title_shapes"@,
        "title_hoard"@,
        "title_jackpots"@,
        "title_wrath"@,
        "title_seam"@,
        "title_gamble"@,
        "title_ante"@,
        "title_feature_buy"@,
        "paylines"@,
        "clusters"@,
        "ways"@,
        "ways_shifting"@,
        "shifting_reels"@,
        "cascades"@,
        "wilds"@,
        "wilds_expanded"@,
        "scatters"@,
        "refining"@,
        "shape_name"@,
        "shapes"@,
        "hoard"@,
        "jackpots"@,
        "jackpots_shared"@,
        "wrath"@,
        "seam"@,
        "gamble"@,
        "gamble_half"@,
        "ante"@,
        "feature_buy"@,
        "rite_widen"@,
        "rite_enrich_one"@,
        "rite_enrich_many"@,
        "rite_gild"@,
        "free_spin_awards"@,
        "free_spin_award_item"@,
        "free_spin_multiplier"@,
        "free_spin_retrigger"@,
        "free_spin_no_retrigger"@,
        "free_spin_close"@,
    ]
}

fn shortcut_list() -> (v: Vec<&'static str>)
    ensures
        v@.map_values(|k: &str| k@) == shortcut_keys(),
{
    let v = vec![
        "bet",
        "max_bet",
        "autospin",
        "gamble",
        "buy",
        "rules",
        "paytable",
        "ledger",
        "machines",
        "awards",
        "settings",
        "session",
        "limits",
    ];
    assert(v@.map_values(|k: &str| k@) =~= shortcut_keys()) by {
        reveal(shortcut_keys);
    }
    v
}

fn heading_list() -> (v: Vec<&'static str>)
    ensures
        v@.map_values(|k: &str| k@) == heading_keys(),
{
    let v = vec![
        "free_spins_entry",
        "free_spins_retrigger",
        "free_spins_summary",
        "hatch",
        "jackpot",
        "big_win",
        "gamble_lost",
        "seam_dry",
        "seam",
        "wrath",
        "wrath_full_board",
    ];
    assert(v@.map_values(|k: &str| k@) =~= heading_keys()) by {
        reveal(heading_keys);
    }
    v
}

fn title_list() -> (v: Vec<&'static str>)
    ensures
        v@.map_values(|k: &str| k@) == title_keys(),
{
    let v = vec!["free_spins_entry", "free_spins_retrigger", "credits", "nothing"];
    assert(v@.map_values(|k: &str| k@) =~= title_keys()) by {
        reveal(title_keys);
    }
    v
}

fn rule_list() -> (v: Vec<&'static str>)
    ensures
        v@.map_values(|k: &str| k@) == rule_keys(),
{
    let v = vec![
        "title_paylines",
        "title_clusters",
        "title_ways",
        "title_shifting_reels",
        "title_cascades",
        "title_wilds",
        "title_scatters",
        "title_free_spins",
        "title_refining",
        "title_shapes",
        "title_hoard",
        "title_jackpots",
        "title_wrath",
        "title_seam",
        "title_gamble",
        "title_ante",
        "title_feature_buy",
        "paylines",
        "clusters",
        "ways",
        "ways_shifting",
        "shifting_reels",
        "cascades",
        "wilds",
        "wilds_expanded",
        "scatters",
        "refining",
        "shape_name",
        "shapes",
        "hoard",
        "jackpots",
        "jackpots_shared",
        "wrath",
        "seam",
        "gamble",
        "gamble_half",
        "ante",
        "feature_buy",
        "rite_widen",
        "rite_enrich_one",
        "rite_enrich_many",
        "rite_gild",
        "free_spin_awards",
        "free_spin_award_item",
        "free_spin_multiplier",
        "free_spin_retrigger",
        "free_spin_no_retrigger",
        "free_spin_close",
    ];
    assert(v@.map_values(|k: &str| k@) =~= rule_keys()) by {
        reveal(rule_keys);
    }
    v
}

/// What a failed copy check reports: the table's kind and the key missing
/// from it, given that it is the first missing one.
pub open spec fn reports_missing(
    r: Result<(), DataError>,
    entries: Seq<(String, String)>,
    required: Seq<Seq<char>>,
    kind: Seq<char>,
) -> bool {
    match first_missing(entries, required) {
        None => false,
        Some(i) => r matches Err(DataError::MissingCopy { kind: k, key }) && k@ == kind && key@
            == required[i],
    }
}

impl PresentationConfig {
    /// Every copy table keeps its keys unique, as the JSON objects do.
    pub open spec fn wf(&self) -> bool {
        &&& unique_keys(self.shortcuts.labels@)
        &&& unique_keys(self.celebration.headings@)
        &&& unique_keys(self.celebration.titles@)
        &&& unique_keys(self.celebration.subtitles@)
        &&& unique_keys(self.rules.templates@)
    }

    /// Reject missing copy before a player can reach a half-rendered screen.
    /// The tables are checked in a fixed order, and the error names the first
    /// one with a missing or blank key, and that key.
    pub fn validate(&self) -> (r: Result<(), DataError>)
        requires
            self.wf(),
        ensures
            first_missing(self.shortcuts.labels@, shortcut_keys()) is Some ==> reports_missing(
                r,
                self.shortcuts.labels@,
                shortcut_keys(),
                "shortcut label"@,
            ),
            first_missing(self.shortcuts.labels@, shortcut_keys()) is None && first_missing(
                self.celebration.headings@,
                heading_keys(),
            ) is Some ==> reports_missing(
                r,
                self.celebration.headings@,
                heading_keys(),
                "celebration heading"@,
            ),
            first_missing(self.shortcuts.labels@, shortcut_keys()) is None && first_missing(
                self.celebration.headings@,
                heading_keys(),
            ) is None && first_missing(self.celebration.titles@, title_keys()) is Some
                ==> reports_missing(r, self.celebration.titles@, title_keys(), "celebration title"@),
            first_missing(self.shortcuts.labels@, shortcut_keys()) is None && first_missing(
                self.celebration.headings@,
                heading_keys(),
            ) is None && first_missing(self.celebration.titles@, title_keys()) is None
                && first_missing(self.celebration.subtitles@, heading_keys()) is Some
                ==> reports_missing(
                r,
                self.celebration.subtitles@,
                heading_keys(),
                "celebration subtitle"@,
            ),
            first_missing(self.shortcuts.labels@, shortcut_keys()) is None && first_missing(
                self.celebration.headings@,
                heading_keys(),
            ) is None && first_missing(self.celebration.titles@, title_keys()) is None
                && first_missing(self.celebration.subtitles@, heading_keys()) is None ==> (
            r is Ok <==> first_missing(self.rules.templates@, rule_keys()) is None) && (first_missing(
                self.rules.templates@,
                rule_keys(),
            ) is Some ==> reports_missing(
                r,
                self.rules.templates@,
                rule_keys(),
                "rule template"@,
            )),
    {
        let r = require_keys("shortcut label", &self.shortcuts.labels, &shortcut_list());
        if r.is_err() {
            return r;
        }
        let r = require_keys("celebration heading", &self.celebration.headings, &heading_list());
        if r.is_err() {
            return r;
        }
        let r = require_keys("celebration title", &self.celebration.titles, &title_list());
        if r.is_err() {
            return r;
        }
        let r = require_keys("celebration subtitle", &self.celebration.subtitles, &heading_list());
        if r.is_err() {
            return r;
        }
        require_keys("rule template", &self.rules.templates, &rule_list())
    }
}

impl RuleText {
    /// The template stored under `key`, or empty text.
    pub fn template(&self, key: &str) -> (t: &str)
        requires
            unique_keys(self.templates@),
        ensures
            t@ == match lookup(self.templates@, key@) {
                Some(v) => v@,
                None => Seq::<char>::empty(),
            },
    {
        match find_entry(&self.templates, key) {
            Some(value) => value.as_str(),
            None => {
                proof {
                    reveal_strlit("");
                }
                ""
            },
        }
    }
}

/// Every non-overlapping occurrence of `pat`, left to right, replaced by
/// `rep`. The pattern is never empty here: a placeholder is at least its two
/// braces.
pub open spec fn replace_all(text: Seq<char>, pat: Seq<char>, rep: Seq<char>) -> Seq<char>
    decreases text.len(),
{
    if pat.len() == 0 || text.len() < pat.len() {
        text
    } else if text.subrange(0, pat.len() as int) == pat {
        rep + replace_all(text.subrange(pat.len() as int, text.len() as int), pat, rep)
    } else {
        seq![text[0]] + replace_all(text.drop_first(), pat, rep)
    }
}

/// `{name}`, the placeholder for a value called `name`.
pub open spec fn placeholder(name: Seq<char>) -> Seq<char> {
    seq!['{'] + name + seq!['}']
}

/// Substitute each value in turn, in the order given.
pub open spec fn render_spec(template: Seq<char>, values: Seq<(Seq<char>, Seq<char>)>) -> Seq<char>
    decreases values.len(),
{
    if values.len() == 0 {
        template
    } else {
        let (name, value) = values.last();
        replace_all(render_spec(template, values.drop_last()), placeholder(name), value)
    }
}

fn replace_text(text: &str, pat: &Vec<char>, rep: &str) -> (r: String)
    requires
        pat@.len() > 0,
    ensures
        r@ == replace_all(text@, pat@, rep@),
{
    let chars = chars_of(text);
    let n = chars.len();
    let m = pat.len();
    let mut out = String::new();
    let mut i: usize = 0;
    assert(text@.subrange(0, n as int) =~= text@);
    assert(out@ + replace_all(text@, pat@, rep@) =~= replace_all(text@, pat@, rep@));
    while i < n
        invariant
            chars@ == text@,
            n == chars@.len(),
            m == pat@.len(),
            m > 0,
            0 <= i <= n,
            replace_all(text@, pat@, rep@) == out@ + replace_all(
                text@.subrange(i as int, n as int),
                pat@,
                rep@,
            ),
        decreases n - i,
    {
        let ghost rest = text@.subrange(i as int, n as int);
        let mut hit = m <= n - i;
        let mut k: usize = 0;
        while hit && k < m
            invariant
                chars@ == text@,
                n == chars@.len(),
                m == pat@.len(),
                0 <= k <= m,
                hit ==> i + m <= n,
                hit ==> forall|j: int| 0 <= j < k ==> chars@[i + j] == pat@[j],
                !hit ==> (i + m > n || text@.subrange(i as int, i + m) != pat@),
            decreases m - k,
        {
            if chars[i + k] != pat[k] {
                hit = false;
                assert(text@.subrange(i as int, i + m)[k as int] != pat@[k as int]);
            }
            k = k + 1;
        }
        if hit {
            assert(text@.subrange(i as int, i + m) =~= pat@);
            assert(rest.subrange(0, m as int) =~= pat@);
            assert(rest.subrange(m as int, rest.len() as int) =~= text@.subrange(i + m, n as int));
            out.append(rep);
            i = i + m;
        } else {
            assert(rest.len() < m || rest.subrange(0, m as int) != pat@) by {
                if i + m <= n {
                    assert(rest.subrange(0, m as int) =~= text@.subrange(i as int, i + m));
                }
            }
            assert(rest.drop_first() =~= text@.subrange(i + 1, n as int));
            let one = text.substring_char(i, i + 1);
            assert(one@ =~= seq![rest[0]]);
            out.append(one);
            i = i + 1;
        }
        assert(replace_all(text@, pat@, rep@) == out@ + replace_all(
            text@.subrange(i as int, n as int),
            pat@,
            rep@,
        ));
    }
    assert(text@.subrange(n as int, n as int).len() == 0);
    r_done(out)
}

#[inline(always)]
fn r_done(s: String) -> (r: String)
    ensures
        r == s,
{
    s
}

/// Substitute the small `{name}` placeholders used by the authored copy.
pub fn render(template: &str, values: &[(&str, String)]) -> (r: String)
    ensures
        r@ == render_spec(template@, values@.map_values(|v: (&str, String)| (v.0@, v.1@))),
{
    let ghost pairs = values@.map_values(|v: (&str, String)| (v.0@, v.1@));
    let mut text = String::from_str(template);
    let mut i: usize = 0;
    while i < values.len()
        invariant
            0 <= i <= values@.len(),
            pairs == values@.map_values(|v: (&str, String)| (v.0@, v.1@)),
            text@ == render_spec(template@, pairs.subrange(0, i as int)),
        decreases values@.len() - i,
    {
        let (key, value) = (values[i].0, &values[i].1);
        let mut pat: Vec<char> = Vec::new();
        pat.push('{');
        let key_chars = chars_of(key);
        let mut k: usize = 0;
        while k < key_chars.len()
            invariant
                0 <= k <= key_chars@.len(),
                pat@ == seq!['{'] + key_chars@.subrange(0, k as int),
            decreases key_chars@.len() - k,
        {
            pat.push(key_chars[k]);
            k = k + 1;
            assert(pat@ =~= seq!['{'] + key_chars@.subrange(0, k as int));
        }
        pat.push('}');
        assert(pat@ =~= placeholder(key@));
        text = replace_text(text.as_str(), &pat, value.as_str());
        proof {
            let next = pairs.subrange(0, i + 1);
            assert(next.drop_last() =~= pairs.subrange(0, i as int));
        }
        i = i + 1;
    }
    assert(pairs.subrange(0, i as int) =~= pairs);
    text
}

} // verus!

//! The colour rule table: what each colour weighs, how fast it may move and
//! how it treats every other colour.
//!
//! A table is built once from a list of profiles and a list of rule entries.
//! Everything that can be wrong with a configuration is found then, so that a
//! lookup can never fail afterwards.

use crate::fixed::ONE;
use vstd::prelude::*;

verus! {

/// The largest number of colours that a table can hold.
pub const MAX_COLORS: usize = 32;

/// A colour: its position in the list of profiles that the table was built
/// from.
#[derive(Clone, Copy, Debug, PartialEq, Eq, Structural)]
pub struct Color(pub u8);

/// What a particle does about a neighbour.
#[derive(Clone, Copy, Debug, PartialEq, Eq, Structural)]
pub enum Interaction {
    /// Nothing.
    Neutral,
    /// It is pulled toward the neighbour.
    Attract,
    /// It is pushed away from the neighbour.
    Repel,
    /// It removes the neighbour.
    Delete,
    /// It brings forth a new particle of the given colour.
    Spawn(Color),
}

/// How particles of one colour treat particles of another.
#[derive(Clone, Copy, Debug, PartialEq, Eq, Structural)]
pub struct ColorRule {
    pub kind: Interaction,
    /// Fixed-point; a negative strength turns attraction into repulsion and
    /// the reverse.
    pub strength: i32,
    /// Fixed-point; the rule applies to neighbours no further away than this.
    pub radius: i32,
}

/// The physical properties of one colour.
#[derive(Clone, Copy, Debug, PartialEq, Eq, Structural)]
pub struct ColorProfile {
    /// Fixed-point, positive.
    pub mass: i32,
    /// Fixed-point, not negative: the largest absolute value of either
    /// component of the velocity.
    pub speed_cap: i32,
}

/// One line of a configuration: particles of colour `from` treat those of
/// colour `to` by `rule`.
#[derive(Clone, Copy, Debug, PartialEq, Eq, Structural)]
pub struct RuleEntry {
    pub from: Color,
    pub to: Color,
    pub rule: ColorRule,
}

/// Why a configuration was rejected.
#[derive(Clone, Copy, Debug, PartialEq, Eq, Structural)]
pub enum ConfigError {
    /// More than `MAX_COLORS` profiles.
    TooManyColors,
    /// A profile with a mass of zero or less.
    NonPositiveMass,
    /// A profile with a negative speed cap.
    NegativeSpeedCap,
    /// A rule that names a colour without a profile.
    UndefinedColor,
    /// A rule with a negative radius.
    NegativeRadius,
    /// A second rule for an ordered pair of colours.
    DuplicateRule,
}

/// The rule of every pair of colours that no entry mentions.
pub open spec fn neutral_rule() -> ColorRule {
    ColorRule { kind: Interaction::Neutral, strength: 0, radius: 0 }
}

/// The profile of every colour outside the table: unit mass, at rest.
pub open spec fn neutral_profile() -> ColorProfile {
    ColorProfile { mass: ONE, speed_cap: 0 }
}

/// What is wrong with a profile, if anything.
pub open spec fn profile_error(p: ColorProfile) -> Option<ConfigError> {
    if p.mass <= 0 {
        Some(ConfigError::NonPositiveMass)
    } else if p.speed_cap < 0 {
        Some(ConfigError::NegativeSpeedCap)
    } else {
        None
    }
}

/// Whether `kind` names only colours among the first `n`.
pub open spec fn kind_defined(n: int, kind: Interaction) -> bool {
    match kind {
        Interaction::Spawn(c) => c.0 < n,
        _ => true,
    }
}

/// Whether an earlier entry than the one at `j` speaks of the same ordered
/// pair of colours.
pub open spec fn duplicates_earlier(rules: Seq<RuleEntry>, j: int) -> bool {
    exists|i: int|
        0 <= i < j && (#[trigger] rules[i]).from == rules[j].from && rules[i].to == rules[j].to
}

/// What is wrong with the entry at `j` of a configuration of `n` colours, if
/// anything.
pub open spec fn entry_error(n: int, rules: Seq<RuleEntry>, j: int) -> Option<ConfigError> {
    let e = rules[j];
    if e.from.0 >= n || e.to.0 >= n || !kind_defined(n, e.rule.kind) {
        Some(ConfigError::UndefinedColor)
    } else if e.rule.radius < 0 {
        Some(ConfigError::NegativeRadius)
    } else if duplicates_earlier(rules, j) {
        Some(ConfigError::DuplicateRule)
    } else {
        None
    }
}

/// The first error in a list of findings.
pub open spec fn first_error(findings: Seq<Option<ConfigError>>) -> Option<ConfigError>
    decreases findings.len(),
{
    if findings.len() == 0 {
        None
    } else if findings[0] is Some {
        findings[0]
    } else {
        first_error(findings.drop_first())
    }
}

/// The findings on each profile, in order.
pub open spec fn profile_findings(profiles: Seq<ColorProfile>) -> Seq<Option<ConfigError>> {
    Seq::new(profiles.len(), |i: int| profile_error(profiles[i]))
}

/// The findings on each rule entry, in order.
pub open spec fn entry_findings(n: int, rules: Seq<RuleEntry>) -> Seq<Option<ConfigError>> {
    Seq::new(rules.len(), |j: int| entry_error(n, rules, j))
}

/// The error that a configuration is rejected with, if it is rejected: the
/// number of colours comes first, then the profiles in order, then the rule
/// entries in order.
pub open spec fn config_error(profiles: Seq<ColorProfile>, rules: Seq<RuleEntry>) -> Option<
    ConfigError,
> {
    if profiles.len() > MAX_COLORS {
        Some(ConfigError::TooManyColors)
    } else if first_error(profile_findings(profiles)) is Some {
        first_error(profile_findings(profiles))
    } else {
        first_error(entry_findings(profiles.len() as int, rules))
    }
}

/// The rule that a list of entries gives for the ordered pair (`a`, `b`):
/// that of the entry that names the pair, the neutral rule if there is none.
pub open spec fn lookup_rule(rules: Seq<RuleEntry>, a: Color, b: Color) -> ColorRule
    decreases rules.len(),
{
    if rules.len() == 0 {
        neutral_rule()
    } else if rules.last().from == a && rules.last().to == b {
        rules.last().rule
    } else {
        lookup_rule(rules.drop_last(), a, b)
    }
}

/// The largest radius among the entries, zero if there is none.
pub open spec fn largest_radius(rules: Seq<RuleEntry>) -> int
    decreases rules.len(),
{
    if rules.len() == 0 {
        0
    } else if rules.last().radius_or_zero() > largest_radius(rules.drop_last()) {
        rules.last().radius_or_zero()
    } else {
        largest_radius(rules.drop_last())
    }
}

impl RuleEntry {
    /// The radius of the entry's rule, or zero where it is negative.
    pub open spec fn radius_or_zero(self) -> int {
        if self.rule.radius < 0 {
            0
        } else {
            self.rule.radius as int
        }
    }

    /// Where the entry stands in the dense table.
    pub open spec fn slot(self) -> int {
        self.from.0 * MAX_COLORS + self.to.0
    }
}

/// Where the first of the findings that is not `None` stands, `first_error`
/// returns it.
pub proof fn lemma_first_error_at(findings: Seq<Option<ConfigError>>, i: int)
    requires
        0 <= i < findings.len(),
        forall|k: int| 0 <= k < i ==> findings[k] is None,
        findings[i] is Some,
    ensures
        first_error(findings) == findings[i],
    decreases i,
{
    if i > 0 {
        let rest = findings.drop_first();
        assert forall|k: int| 0 <= k < i - 1 implies rest[k] is None by {
            assert(rest[k] == findings[k + 1]);
        }
        lemma_first_error_at(rest, i - 1);
    }
}

/// Findings without an error give none.
pub proof fn lemma_first_error_none(findings: Seq<Option<ConfigError>>)
    requires
        forall|k: int| 0 <= k < findings.len() ==> findings[k] is None,
    ensures
        first_error(findings) is None,
    decreases findings.len(),
{
    if findings.len() > 0 {
        let rest = findings.drop_first();
        assert forall|k: int| 0 <= k < rest.len() implies rest[k] is None by {
            assert(rest[k] == findings[k + 1]);
        }
        lemma_first_error_none(rest);
    }
}

/// A configuration is accepted exactly if no profile and no entry has an
/// error and the colours are not too many.
pub proof fn lemma_config_accepted(profiles: Seq<ColorProfile>, rules: Seq<RuleEntry>)
    ensures
        config_error(profiles, rules) is None <==> {
            &&& profiles.len() <= MAX_COLORS
            &&& forall|i: int| 0 <= i < profiles.len() ==> profile_error(#[trigger] profiles[i]) is None
            &&& forall|j: int|
                0 <= j < rules.len() ==> entry_error(profiles.len() as int, rules, j) is None
        },
{
    let n = profiles.len() as int;
    let pf = profile_findings(profiles);
    let ef = entry_findings(n, rules);
    if exists|i: int| 0 <= i < pf.len() && pf[i] is Some {
        let i = lemma_least_finding(pf);
        lemma_first_error_at(pf, i);
        assert(profile_error(profiles[i]) is Some);
    } else {
        lemma_first_error_none(pf);
        assert forall|i: int| 0 <= i < profiles.len() implies profile_error(
            #[trigger] profiles[i],
        ) is None by {
            assert(pf[i] is None);
        }
        if exists|j: int| 0 <= j < ef.len() && ef[j] is Some {
            let j = lemma_least_finding(ef);
            lemma_first_error_at(ef, j);
            assert(entry_error(n, rules, j) is Some);
        } else {
            lemma_first_error_none(ef);
            assert forall|j: int| 0 <= j < rules.len() implies entry_error(n, rules, j) is None by {
                assert(ef[j] is None);
            }
        }
    }
}

/// The least index at which findings hold an error, where they hold one.
pub proof fn lemma_least_finding(findings: Seq<Option<ConfigError>>) -> (i: int)
    requires
        exists|k: int| 0 <= k < findings.len() && findings[k] is Some,
    ensures
        0 <= i < findings.len(),
        findings[i] is Some,
        forall|k: int| 0 <= k < i ==> findings[k] is None,
    decreases findings.len(),
{
    if findings[0] is Some {
        0
    } else {
        let rest = findings.drop_first();
        let k = choose|k: int| 0 <= k < findings.len() && findings[k] is Some;
        assert(rest[k - 1] == findings[k]);
        let i = lemma_least_finding(rest);
        assert(rest[i] == findings[i + 1]);
        assert forall|m: int| 0 <= m < i + 1 implies findings[m] is None by {
            if m > 0 {
                assert(rest[m - 1] == findings[m]);
            }
        }
        i + 1
    }
}

/// A pair that no entry names has the neutral rule.
pub proof fn lemma_lookup_absent(rules: Seq<RuleEntry>, a: Color, b: Color)
    requires
        forall|i: int| 0 <= i < rules.len() ==> !((#[trigger] rules[i]).from == a && rules[i].to == b),
    ensures
        lookup_rule(rules, a, b) == neutral_rule(),
    decreases rules.len(),
{
    if rules.len() > 0 {
        let rest = rules.drop_last();
        assert forall|i: int| 0 <= i < rest.len() implies !((#[trigger] rest[i]).from == a
            && rest[i].to == b) by {
            assert(rest[i] == rules[i]);
        }
        lemma_lookup_absent(rest, a, b);
    }
}

/// Where no pair is named twice, each entry's pair has that entry's rule.
pub proof fn lemma_lookup_present(rules: Seq<RuleEntry>, i: int)
    requires
        0 <= i < rules.len(),
        forall|j: int| 0 <= j < rules.len() ==> !duplicates_earlier(rules, j),
    ensures
        lookup_rule(rules, rules[i].from, rules[i].to) == rules[i].rule,
    decreases rules.len(),
{
    let last = rules.len() - 1;
    if i < last {
        let rest = rules.drop_last();
        assert(!duplicates_earlier(rules, last));
        assert(!(rules[i].from == rules[last].from && rules[i].to == rules[last].to));
        assert forall|j: int| 0 <= j < rest.len() implies !duplicates_earlier(rest, j) by {
            if duplicates_earlier(rest, j) {
                let k = choose|k: int|
                    0 <= k < j && (#[trigger] rest[k]).from == rest[j].from && rest[k].to
                        == rest[j].to;
                assert(rules[k] == rest[k]);
                assert(rules[j] == rest[j]);
                assert(duplicates_earlier(rules, j));
            }
        }
        assert(rest[i] == rules[i]);
        lemma_lookup_present(rest, i);
    }
}

/// No rule reaches further than the largest radius.
pub proof fn lemma_largest_radius(rules: Seq<RuleEntry>, a: Color, b: Color)
    ensures
        largest_radius(rules) >= 0,
        lookup_rule(rules, a, b).radius <= largest_radius(rules),
    decreases rules.len(),
{
    if rules.len() > 0 {
        lemma_largest_radius(rules.drop_last(), a, b);
    }
}

/// What a table says, as the configuration that it was built from.
pub struct TableView {
    pub profiles: Seq<ColorProfile>,
    pub rules: Seq<RuleEntry>,
}

impl TableView {
    /// Whether a table can be built from this configuration.
    pub open spec fn valid(self) -> bool {
        config_error(self.profiles, self.rules) is None
    }

    /// The number of colours.
    pub open spec fn num_colors(self) -> nat {
        self.profiles.len()
    }

    /// How particles of colour `a` treat those of colour `b`.
    pub open spec fn rule(self, a: Color, b: Color) -> ColorRule {
        lookup_rule(self.rules, a, b)
    }

    /// The profile of colour `c`; the neutral profile for a colour outside
    /// the table.
    pub open spec fn profile(self, c: Color) -> ColorProfile {
        if c.0 < self.profiles.len() {
            self.profiles[c.0 as int]
        } else {
            neutral_profile()
        }
    }

    /// The largest radius of any rule.
    pub open spec fn max_radius(self) -> int {
        largest_radius(self.rules)
    }

    /// Whether no rule removes or brings forth a particle.
    pub open spec fn forces_only(self) -> bool {
        forall|i: int|
            0 <= i < self.rules.len() ==> !is_lifecycle((#[trigger] self.rules[i]).rule.kind)
    }
}

/// Whether a rule of this kind removes or brings forth a particle.
pub open spec fn is_lifecycle(kind: Interaction) -> bool {
    kind is Delete || kind is Spawn
}

/// The rules of a valid configuration: every profile has a positive mass and
/// a speed cap that is not negative, every rule names colours of the table
/// and has a radius from zero to the largest radius.
pub proof fn lemma_valid_table(t: TableView, a: Color, b: Color)
    requires
        t.valid(),
    ensures
        t.profile(a).mass > 0,
        t.profile(a).speed_cap >= 0,
        0 <= t.rule(a, b).radius <= t.max_radius(),
        kind_defined(t.num_colors() as int, t.rule(a, b).kind),
        a.0 >= t.num_colors() || b.0 >= t.num_colors() ==> t.rule(a, b) == neutral_rule(),
{
    lemma_config_accepted(t.profiles, t.rules);
    lemma_largest_radius(t.rules, a, b);
    lemma_lookup_sound(t.num_colors() as int, t.rules, a, b);
}

/// A rule that was looked up in entries without an error has a radius that
/// is not negative and names colours of the table only, and is the neutral
/// rule for a pair with a colour outside the table.
pub proof fn lemma_lookup_sound(n: int, rules: Seq<RuleEntry>, a: Color, b: Color)
    requires
        forall|j: int| 0 <= j < rules.len() ==> entry_error(n, rules, j) is None,
    ensures
        lookup_rule(rules, a, b).radius >= 0,
        kind_defined(n, lookup_rule(rules, a, b).kind),
        a.0 >= n || b.0 >= n ==> lookup_rule(rules, a, b) == neutral_rule(),
    decreases rules.len(),
{
    if rules.len() > 0 {
        let last = rules.len() - 1;
        let rest = rules.drop_last();
        assert(entry_error(n, rules, last) is None);
        assert forall|j: int| 0 <= j < rest.len() implies entry_error(n, rest, j) is None by {
            assert(entry_error(n, rules, j) is None);
            assert(rest[j] == rules[j]);
            if duplicates_earlier(rest, j) {
                let k = choose|k: int|
                    0 <= k < j && (#[trigger] rest[k]).from == rest[j].from && rest[k].to
                        == rest[j].to;
                assert(rules[k] == rest[k]);
                assert(duplicates_earlier(rules, j));
            }
        }
        lemma_lookup_sound(n, rest, a, b);
    }
}

/// A valid table gives the pair of each of its entries the rule of that
/// entry.
pub proof fn lemma_rule_of_entry(t: TableView, i: int)
    requires
        t.valid(),
        0 <= i < t.rules.len(),
    ensures
        t.rule(t.rules[i].from, t.rules[i].to) == t.rules[i].rule,
{
    lemma_config_accepted(t.profiles, t.rules);
    assert forall|j: int| 0 <= j < t.rules.len() implies !duplicates_earlier(t.rules, j) by {
        assert(entry_error(t.profiles.len() as int, t.rules, j) is None);
    }
    lemma_lookup_present(t.rules, i);
}

/// A table gives a pair that none of its entries names the neutral rule.
pub proof fn lemma_rule_of_unnamed_pair(t: TableView, a: Color, b: Color)
    requires
        forall|i: int|
            0 <= i < t.rules.len() ==> !((#[trigger] t.rules[i]).from == a && t.rules[i].to == b),
    ensures
        t.rule(a, b) == neutral_rule(),
{
    lemma_lookup_absent(t.rules, a, b);
}

/// A validated colour rule table.
pub struct ColorRuleTable {
    profiles: Vec<ColorProfile>,
    entries: Vec<RuleEntry>,
    /// The rule of each ordered pair of colours below `MAX_COLORS`, row by
    /// row.
    dense: Vec<ColorRule>,
    reach: i32,
}

impl View for ColorRuleTable {
    type V = TableView;

    closed spec fn view(&self) -> TableView {
        TableView { profiles: self.profiles@, rules: self.entries@ }
    }
}

impl ColorRuleTable {
    /// The configuration is valid, and the dense table and the largest radius
    /// are those of its entries.
    #[verifier::type_invariant]
    spec fn inv(&self) -> bool {
        &&& config_error(self.profiles@, self.entries@) is None
        &&& self.dense@.len() == MAX_COLORS * MAX_COLORS
        &&& forall|a: u8, b: u8|
            a < MAX_COLORS && b < MAX_COLORS ==> self.dense@[a * MAX_COLORS + b]
                == #[trigger] lookup_rule(self.entries@, Color(a), Color(b))
        &&& self.reach == largest_radius(self.entries@)
    }

    /// Builds the table of a configuration, or says what is wrong with it.
    ///
    /// The colours are the positions in `profiles`. A pair of colours that no
    /// entry of `rules` names gets the neutral rule.
    pub fn new(profiles: Vec<ColorProfile>, rules: Vec<RuleEntry>) -> (r: Result<
        ColorRuleTable,
        ConfigError,
    >)
        ensures
            match r {
                Ok(t) => config_error(profiles@, rules@) is None && t@.profiles == profiles@
                    && t@.rules == rules@,
                Err(e) => config_error(profiles@, rules@) == Some(e),
            },
    {
        let n: usize = profiles.len();
        if n > MAX_COLORS {
            return Err(ConfigError::TooManyColors);
        }
        let ghost pf = profile_findings(profiles@);
        let ghost ef = entry_findings(n as int, rules@);
        let mut i: usize = 0;
        while i < n
            invariant
                n == profiles@.len(),
                n <= MAX_COLORS,
                i <= n,
                pf == profile_findings(profiles@),
                forall|k: int| 0 <= k < i ==> pf[k] is None,
            decreases n - i,
        {
            let p: ColorProfile = profiles[i];
            assert(pf[i as int] == profile_error(p));
            if p.mass <= 0 {
                proof {
                    lemma_first_error_at(pf, i as int);
                }
                return Err(ConfigError::NonPositiveMass);
            }
            if p.speed_cap < 0 {
                proof {
                    lemma_first_error_at(pf, i as int);
                }
                return Err(ConfigError::NegativeSpeedCap);
            }
            i += 1;
        }
        proof {
            lemma_first_error_none(pf);
        }
        let mut dense: Vec<ColorRule> = Vec::new();
        let mut seen: Vec<bool> = Vec::new();
        let mut k: usize = 0;
        while k < MAX_COLORS * MAX_COLORS
            invariant
                k <= MAX_COLORS * MAX_COLORS,
                dense@.len() == k,
                seen@.len() == k,
                forall|m: int| 0 <= m < k ==> dense@[m] == neutral_rule() && !seen@[m],
            decreases MAX_COLORS * MAX_COLORS - k,
        {
            dense.push(ColorRule { kind: Interaction::Neutral, strength: 0, radius: 0 });
            seen.push(false);
            k += 1;
        }
        let mut reach: i32 = 0;
        let mut j: usize = 0;
        while j < rules.len()
            invariant
                n == profiles@.len(),
                n <= MAX_COLORS,
                j <= rules@.len(),
                ef == entry_findings(n as int, rules@),
                first_error(profile_findings(profiles@)) is None,
                forall|m: int| 0 <= m < j ==> ef[m] is None,
                dense@.len() == MAX_COLORS * MAX_COLORS,
                seen@.len() == MAX_COLORS * MAX_COLORS,
                forall|a: u8, b: u8|
                    a < MAX_COLORS && b < MAX_COLORS ==> dense@[a * MAX_COLORS + b]
                        == #[trigger] lookup_rule(rules@.take(j as int), Color(a), Color(b)),
                forall|m: int|
                    0 <= m < MAX_COLORS * MAX_COLORS ==> (#[trigger] seen@[m] <==> exists|i: int|
                        0 <= i < j && (#[trigger] rules@[i]).slot() == m),
                reach == largest_radius(rules@.take(j as int)),
            decreases rules@.len() - j,
        {
            let e: RuleEntry = rules[j];
            assert(ef[j as int] == entry_error(n as int, rules@, j as int));
            let ghost before = rules@.take(j as int);
            let ghost after = rules@.take(j as int + 1);
            proof {
                assert(after.drop_last() =~= before);
                assert(after.last() == e);
            }
            let spawn_defined: bool = match e.rule.kind {
                Interaction::Spawn(c) => (c.0 as usize) < n,
                _ => true,
            };
            if e.from.0 as usize >= n || e.to.0 as usize >= n || !spawn_defined {
                proof {
                    lemma_first_error_at(ef, j as int);
                }
                return Err(ConfigError::UndefinedColor);
            }
            if e.rule.radius < 0 {
                proof {
                    lemma_first_error_at(ef, j as int);
                }
                return Err(ConfigError::NegativeRadius);
            }
            let slot: usize = e.from.0 as usize * MAX_COLORS + e.to.0 as usize;
            assert(slot == e.slot());
            proof {
                if duplicates_earlier(rules@, j as int) {
                    let i = choose|i: int|
                        0 <= i < j && (#[trigger] rules@[i]).from == rules@[j as int].from
                            && rules@[i].to == rules@[j as int].to;
                    assert(rules@[i].slot() == slot);
                }
                if seen@[slot as int] {
                    let i = choose|i: int| 0 <= i < j && (#[trigger] rules@[i]).slot() == slot;
                    assert(ef[i] is None);
                    assert(rules@[i].from.0 < MAX_COLORS && rules@[i].to.0 < MAX_COLORS);
                    assert(rules@[i].from == e.from && rules@[i].to == e.to);
                }
            }
            if seen[slot] {
                proof {
                    lemma_first_error_at(ef, j as int);
                }
                return Err(ConfigError::DuplicateRule);
            }
            let ghost dense_before = dense@;
            let ghost seen_before = seen@;
            dense.set(slot, e.rule);
            seen.set(slot, true);
            if e.rule.radius > reach {
                reach = e.rule.radius;
            }
            proof {
                assert forall|a: u8, b: u8| a < MAX_COLORS && b < MAX_COLORS implies dense@[a
                    * MAX_COLORS + b] == #[trigger] lookup_rule(after, Color(a), Color(b)) by {
                    assert(dense_before[a * MAX_COLORS + b] == lookup_rule(
                        before,
                        Color(a),
                        Color(b),
                    ));
                    if e.from == Color(a) && e.to == Color(b) {
                        assert(a * MAX_COLORS + b == slot);
                    } else {
                        assert(a * MAX_COLORS + b != slot);
                    }
                }
                assert forall|m: int| 0 <= m < MAX_COLORS * MAX_COLORS implies (
                #[trigger] seen@[m] <==> exists|i: int|
                    0 <= i < j + 1 && (#[trigger] rules@[i]).slot() == m) by {
                    if m == slot {
                        assert(rules@[j as int].slot() == m);
                    } else {
                        assert(seen@[m] == seen_before[m]);
                        if seen_before[m] {
                            let i = choose|i: int|
                                0 <= i < j && (#[trigger] rules@[i]).slot() == m;
                            assert(0 <= i < j + 1 && rules@[i].slot() == m);
                        }
                    }
                }
            }
            j += 1;
        }
        proof {
            lemma_first_error_none(ef);
            assert(rules@.take(j as int) =~= rules@);
        }
        Ok(ColorRuleTable { profiles, entries: rules, dense, reach })
    }

    /// How particles of colour `a` treat those of colour `b`: the neutral rule
    /// where the configuration names no rule for the pair, or either colour
    /// lies outside the table.
    pub fn rule_for(&self, a: Color, b: Color) -> (r: ColorRule)
        ensures
            r == self@.rule(a, b),
            self@.valid(),
    {
        proof {
            use_type_invariant(self);
            lemma_config_accepted(self.profiles@, self.entries@);
            lemma_lookup_sound(self.profiles@.len() as int, self.entries@, a, b);
        }
        if a.0 as usize >= MAX_COLORS || b.0 as usize >= MAX_COLORS {
            return ColorRule { kind: Interaction::Neutral, strength: 0, radius: 0 };
        }
        assert(a == Color(a.0) && b == Color(b.0));
        self.dense[a.0 as usize * MAX_COLORS + b.0 as usize]
    }

    /// The profile of colour `c`: the neutral profile for a colour outside
    /// the table.
    pub fn profile_for(&self, c: Color) -> (r: ColorProfile)
        ensures
            r == self@.profile(c),
            self@.valid(),
    {
        proof {
            use_type_invariant(self);
        }
        if (c.0 as usize) < self.profiles.len() {
            self.profiles[c.0 as usize]
        } else {
            ColorProfile { mass: ONE, speed_cap: 0 }
        }
    }

    /// The number of colours.
    pub fn num_colors(&self) -> (r: usize)
        ensures
            r == self@.num_colors(),
            r <= MAX_COLORS,
            self@.valid(),
    {
        proof {
            use_type_invariant(self);
        }
        self.profiles.len()
    }

    /// The largest radius of any rule of the table.
    pub fn max_radius(&self) -> (r: i32)
        ensures
            r == self@.max_radius(),
            r >= 0,
            self@.valid(),
    {
        proof {
            use_type_invariant(self);
            lemma_largest_radius(self.entries@, Color(0), Color(0));
        }
        self.reach
    }
}

} // verus!

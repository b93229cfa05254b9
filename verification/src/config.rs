//! Per-workspace configuration: `agent-doctor.toml` at the scan root lets a repo
//! pin the "clean enforcement" an agent must follow — which rules are on, at what
//! severity, and which tiers run by default — so the same standards apply no
//! matter who (or what) runs the linter. Everything is optional; reading and
//! decoding the file is the caller's, and an absent or malformed file yields
//! the defaults.
use vstd::prelude::*;

use crate::diagnostics::{Diagnostic, Severity};
use crate::strings::{chars_of, is_whitespace, is_ws, str_eq, string_of_chars};
use crate::text::trim_end;

verus! {

/// What a rule is set to in config: turned off, or pinned to a severity.
#[derive(Debug, Clone, Copy, PartialEq, Eq, Structural)]
pub enum RuleSetting {
    Off,
    Pinned(Severity),
}

/// Default-on tiers, so a repo can permanently enable a tier without the flag.
/// `None` means "leave the CLI/default decision alone".
#[derive(Debug, Clone, Copy, PartialEq, Eq, Structural)]
pub struct TierDefaults {
    pub agent: Option<bool>,
    pub agent_strict: Option<bool>,
    pub adopt: Option<bool>,
    pub react: Option<bool>,
}

impl Default for TierDefaults {
    fn default() -> (res: TierDefaults)
        ensures
            res == (TierDefaults { agent: None, agent_strict: None, adopt: None, react: None }),
    {
        TierDefaults { agent: None, agent_strict: None, adopt: None, react: None }
    }
}

/// `[design-system]` block: enable design-system enforcement by naming the
/// package that *is* the design system. The component catalog is auto-discovered
/// from that package's `exports`, so there's no manifest to maintain.
#[derive(Debug, Clone)]
pub struct DesignSystem {
    /// The design-system package (e.g. `@acme/ui`). Its `exports` map is the catalog.
    pub package: String,
    /// Import sources that should route through the design system instead
    /// (e.g. `@radix-ui/`, `class-variance-authority`). Prefix match.
    pub forbid_import_prefixes: Vec<String>,
}

/// The configured rule settings, at most one per rule id.
#[derive(Debug)]
struct RuleTable {
    entries: Vec<(String, RuleSetting)>,
}

impl RuleTable {
    spec fn settings(self) -> Seq<(Seq<char>, RuleSetting)> {
        entry_views(self.entries@)
    }

    #[verifier::type_invariant]
    spec fn keys_unique(self) -> bool {
        unique_keys(self.settings())
    }
}

#[derive(Debug)]
pub struct Config {
    rules: RuleTable,
    pub tiers: TierDefaults,
    pub design_system: Option<DesignSystem>,
}

impl Default for Config {
    fn default() -> (res: Config)
        ensures
            res.rule_settings().len() == 0,
            res.tier_defaults() == (TierDefaults { agent: None, agent_strict: None, adopt: None, react: None }),
            res.design_system_setting() is None,
    {
        let res = Config { rules: RuleTable { entries: Vec::new() }, tiers: TierDefaults::default(), design_system: None };
        assert(res.rule_settings() =~= Seq::<(Seq<char>, RuleSetting)>::empty());
        res
    }
}

/// `s` without its leading whitespace.
pub open spec fn trim_start(s: Seq<char>) -> Seq<char>
    decreases s.len(),
{
    if s.len() > 0 && is_ws(s[0]) {
        trim_start(s.drop_first())
    } else {
        s
    }
}

/// `str::to_ascii_lowercase` on one character.
pub open spec fn ascii_lower(c: char) -> char {
    if 'A' <= c && c <= 'Z' {
        ((c as u32) + 32) as char
    } else {
        c
    }
}

/// What a configured value sets a rule to, if it is a known setting.
pub open spec fn setting_of(value: Seq<char>) -> Option<RuleSetting> {
    let v = trim_start(trim_end(value)).map_values(|c: char| ascii_lower(c));
    if v == "off"@ || v == "false"@ || v == "none"@ {
        Some(RuleSetting::Off)
    } else if v == "info"@ {
        Some(RuleSetting::Pinned(Severity::Info))
    } else if v == "warn"@ || v == "warning"@ {
        Some(RuleSetting::Pinned(Severity::Warn))
    } else if v == "error"@ {
        Some(RuleSetting::Pinned(Severity::Error))
    } else {
        None
    }
}

pub(crate) fn lower_ascii(c: char) -> (res: char)
    ensures
        res == ascii_lower(c),
{
    if 'A' <= c && c <= 'Z' {
        let code = (c as u8) + 32;
        code as char
    } else {
        c
    }
}

/// The characters of `value` without leading and trailing whitespace
/// (`str::trim`).
pub(crate) fn trimmed_chars(value: &str) -> (res: Vec<char>)
    ensures
        res@ == trim_start(trim_end(value@)),
{
    let chars = chars_of(value);
    let mut end: usize = chars.len();
    assert(chars@.take(end as int) =~= chars@);
    while end > 0 && is_whitespace(chars[end - 1])
        invariant
            end <= chars@.len(),
            trim_end(chars@) == trim_end(chars@.take(end as int)),
        decreases end,
    {
        assert(chars@.take(end as int).drop_last() =~= chars@.take(end - 1));
        end = end - 1;
    }
    let ghost kept = chars@.take(end as int);
    assert(trim_end(kept) == kept);
    let mut start: usize = 0;
    assert(kept.skip(0) =~= kept);
    while start < end && is_whitespace(chars[start])
        invariant
            start <= end <= chars@.len(),
            kept == chars@.take(end as int),
            trim_start(kept) == trim_start(kept.skip(start as int)),
        decreases end - start,
    {
        assert(kept.skip(start as int).drop_first() =~= kept.skip(start + 1));
        start = start + 1;
    }
    let ghost trimmed = kept.skip(start as int);
    assert(trim_start(trimmed) == trimmed);
    let mut res: Vec<char> = Vec::new();
    let mut i: usize = start;
    while i < end
        invariant
            start <= i <= end <= chars@.len(),
            trimmed == chars@.take(end as int).skip(start as int),
            res@ == trimmed.take(i - start),
        decreases end - i,
    {
        res.push(chars[i]);
        i = i + 1;
        assert(res@ =~= trimmed.take(i - start));
    }
    assert(trimmed.take(end - start) =~= trimmed);
    res
}

/// `value` trimmed and lowered (`str::trim` then `to_ascii_lowercase`).
pub(crate) fn trimmed_lower(value: &str) -> (res: String)
    ensures
        res@ == trim_start(trim_end(value@)).map_values(|c: char| ascii_lower(c)),
{
    let trimmed = trimmed_chars(value);
    let mut lowered: Vec<char> = Vec::new();
    let mut i: usize = 0;
    while i < trimmed.len()
        invariant
            i <= trimmed@.len(),
            lowered@ == trimmed@.take(i as int).map_values(|c: char| ascii_lower(c)),
        decreases trimmed@.len() - i,
    {
        lowered.push(lower_ascii(trimmed[i]));
        i = i + 1;
        assert(lowered@ =~= trimmed@.take(i as int).map_values(|c: char| ascii_lower(c)));
    }
    assert(trimmed@.take(trimmed@.len() as int) =~= trimmed@);
    string_of_chars(lowered.as_slice())
}

pub fn parse_setting(value: &str) -> (res: Option<RuleSetting>)
    ensures
        res == setting_of(value@),
{
    let word = trimmed_lower(value);
    let w = word.as_str();
    if str_eq(w, "off") || str_eq(w, "false") || str_eq(w, "none") {
        Some(RuleSetting::Off)
    } else if str_eq(w, "info") {
        Some(RuleSetting::Pinned(Severity::Info))
    } else if str_eq(w, "warn") || str_eq(w, "warning") {
        Some(RuleSetting::Pinned(Severity::Warn))
    } else if str_eq(w, "error") {
        Some(RuleSetting::Pinned(Severity::Error))
    } else {
        None
    }
}

/// The setting configured for `rule`: that of the first entry naming it.
pub open spec fn setting_in(rules: Seq<(Seq<char>, RuleSetting)>, rule: Seq<char>) -> Option<RuleSetting>
    decreases rules.len(),
{
    if rules.len() == 0 {
        None
    } else if rules[0].0 == rule {
        Some(rules[0].1)
    } else {
        setting_in(rules.drop_first(), rule)
    }
}

/// A table's entries as (rule id, setting) pairs.
pub open spec fn entry_views(entries: Seq<(String, RuleSetting)>) -> Seq<(Seq<char>, RuleSetting)> {
    entries.map_values(|e: (String, RuleSetting)| (e.0@, e.1))
}

/// No rule id occurs twice.
pub open spec fn unique_keys(rules: Seq<(Seq<char>, RuleSetting)>) -> bool {
    forall|i: int, j: int| 0 <= i < j < rules.len() ==> #[trigger] rules[i].0 != #[trigger] rules[j].0
}

/// `rules` with `rule` set to `setting`: its entry replaced in place when it
/// has one, else appended — as inserting into a map.
pub open spec fn upsert(rules: Seq<(Seq<char>, RuleSetting)>, rule: Seq<char>, setting: RuleSetting) -> Seq<(Seq<char>, RuleSetting)> {
    if exists|i: int| 0 <= i < rules.len() && rules[i].0 == rule {
        rules.update(choose|i: int| 0 <= i < rules.len() && rules[i].0 == rule, (rule, setting))
    } else {
        rules.push((rule, setting))
    }
}

/// The configured entries whose values are known settings, one per rule id:
/// a later entry for an id replaces an earlier one.
pub open spec fn settings_from(raw: Seq<(Seq<char>, Seq<char>)>) -> Seq<(Seq<char>, RuleSetting)>
    decreases raw.len(),
{
    if raw.len() == 0 {
        Seq::empty()
    } else {
        let prev = settings_from(raw.drop_last());
        match setting_of(raw.last().1) {
            Some(s) => upsert(prev, raw.last().0, s),
            None => prev,
        }
    }
}

/// `diagnostics` after the rules' overrides: findings of rules set to `off`
/// dropped, findings of pinned rules re-stamped with the pinned severity.
pub open spec fn with_overrides(rules: Seq<(Seq<char>, RuleSetting)>, diagnostics: Seq<Diagnostic>) -> Seq<Diagnostic>
    decreases diagnostics.len(),
{
    if rules.len() == 0 || diagnostics.len() == 0 {
        diagnostics
    } else {
        let prev = with_overrides(rules, diagnostics.drop_last());
        let d = diagnostics.last();
        match setting_in(rules, d.rule@) {
            Some(RuleSetting::Off) => prev,
            Some(RuleSetting::Pinned(severity)) => prev.push(Diagnostic { severity, ..d }),
            None => prev.push(d),
        }
    }
}

/// Sets `rule` to `setting` in a table with one entry per rule id.
fn set_rule(kept: &mut Vec<(String, RuleSetting)>, rule: String, setting: RuleSetting)
    requires
        unique_keys(entry_views(old(kept)@)),
    ensures
        entry_views(final(kept)@) == upsert(
            entry_views(old(kept)@),
            rule@,
            setting,
        ),
        unique_keys(entry_views(final(kept)@)),
{
    let ghost before = entry_views(kept@);
    let mut j: usize = 0;
    while j < kept.len()
        invariant
            entry_views(kept@) == before,
            before == entry_views(old(kept)@),
            unique_keys(before),
            j <= before.len(),
            forall|k: int| 0 <= k < j ==> #[trigger] before[k].0 != rule@,
        decreases before.len() - j,
    {
        if str_eq(kept[j].0.as_str(), rule.as_str()) {
            assert(before[j as int].0 == rule@);
            let ghost i = choose|i: int| 0 <= i < before.len() && before[i].0 == rule@;
            assert(i == j) by {
                if i < j {
                } else if i > j {
                    assert(before[j as int].0 != before[i].0);
                }
            }
            kept.set(j, (rule, setting));
            let ghost after = entry_views(kept@);
            assert(after =~= before.update(j as int, (rule@, setting)));
            assert(exists|k: int| 0 <= k < before.len() && before[k].0 == rule@);
            assert(upsert(before, rule@, setting) == before.update(i, (rule@, setting)));
            assert forall|a: int, b: int| 0 <= a < b < after.len() implies #[trigger] after[a].0 != #[trigger] after[b].0 by {
                assert(after[a].0 == before[a].0 && after[b].0 == before[b].0);
            }
            return;
        }
        j = j + 1;
    }
    kept.push((rule, setting));
    let ghost after = entry_views(kept@);
    assert(after =~= before.push((rule@, setting)));
    assert forall|a: int, b: int| 0 <= a < b < after.len() implies #[trigger] after[a].0 != #[trigger] after[b].0 by {
        if b == before.len() {
            assert(after[a] == before[a]);
        } else {
            assert(after[a] == before[a] && after[b] == before[b]);
        }
    }
}

impl Config {
    /// The rule settings, as (rule id, setting) pairs.
    pub closed spec fn rule_settings(&self) -> Seq<(Seq<char>, RuleSetting)> {
        self.rules.settings()
    }

    /// The `[tiers]` defaults.
    pub closed spec fn tier_defaults(&self) -> TierDefaults {
        self.tiers
    }

    /// The `[design-system]` block, if any.
    pub closed spec fn design_system_setting(&self) -> Option<DesignSystem> {
        self.design_system
    }

    /// A configuration from the decoded file's parts: `[rules]` entries as
    /// (rule id, value) pairs, whose unknown values are dropped, the `[tiers]`
    /// table and the `[design-system]` table.
    pub fn from_parts(
        rules: Vec<(String, String)>,
        tiers: TierDefaults,
        design_system: Option<DesignSystem>,
    ) -> (res: Config)
        ensures
            res.rule_settings() == settings_from(rules@.map_values(|e: (String, String)| (e.0@, e.1@))),
            unique_keys(res.rule_settings()),
            res.tier_defaults() == tiers,
            res.design_system_setting() == design_system,
    {
        let ghost raw = rules@.map_values(|e: (String, String)| (e.0@, e.1@));
        let mut kept: Vec<(String, RuleSetting)> = Vec::new();
        let mut i: usize = 0;
        while i < rules.len()
            invariant
                raw == rules@.map_values(|e: (String, String)| (e.0@, e.1@)),
                i <= rules@.len(),
                entry_views(kept@) == settings_from(raw.take(i as int)),
                unique_keys(entry_views(kept@)),
            decreases rules@.len() - i,
        {
            assert(raw.take(i + 1).drop_last() =~= raw.take(i as int));
            match parse_setting(rules[i].1.as_str()) {
                Some(setting) => set_rule(&mut kept, rules[i].0.clone(), setting),
                None => {},
            }
            i = i + 1;
        }
        assert(raw.take(rules@.len() as int) =~= raw);
        Config { rules: RuleTable { entries: kept }, tiers, design_system }
    }

    fn setting_for(&self, rule: &str) -> (res: Option<RuleSetting>)
        ensures
            res == setting_in(self.rule_settings(), rule@),
    {
        let ghost all = self.rule_settings();
        let mut i: usize = 0;
        assert(all.skip(0) =~= all);
        while i < self.rules.entries.len()
            invariant
                all == self.rule_settings(),
                i <= all.len(),
                setting_in(all, rule@) == setting_in(all.skip(i as int), rule@),
            decreases all.len() - i,
        {
            assert(all.skip(i as int)[0] == all[i as int]);
            if str_eq(self.rules.entries[i].0.as_str(), rule) {
                return Some(self.rules.entries[i].1);
            }
            assert(all.skip(i as int).drop_first() =~= all.skip(i + 1));
            i = i + 1;
        }
        None
    }

    /// Apply the configured overrides to a finished diagnostic set: drop rules set
    /// to `off`, and re-stamp the severity of pinned rules.
    pub fn apply(&self, diagnostics: &mut Vec<Diagnostic>)
        ensures
            final(diagnostics)@ == with_overrides(self.rule_settings(), old(diagnostics)@),
    {
        if self.rules.entries.len() == 0 {
            return;
        }
        let mut input: Vec<Diagnostic> = Vec::new();
        std::mem::swap(diagnostics, &mut input);
        let ghost all = input@;
        let mut kept: Vec<Diagnostic> = Vec::new();
        for diagnostic in it: input
            invariant
                all == it.seq(),
                self.rule_settings().len() > 0,
                kept@ == with_overrides(self.rule_settings(), all.take(it.index() as int)),
        {
            let ghost i = it.index();
            assert(all.take(i + 1).drop_last() =~= all.take(i as int));
            assert(all.take(i + 1).last() == diagnostic);
            match self.setting_for(diagnostic.rule) {
                Some(RuleSetting::Off) => {},
                Some(RuleSetting::Pinned(severity)) => {
                    let mut d = diagnostic;
                    d.severity = severity;
                    kept.push(d);
                },
                None => {
                    kept.push(diagnostic);
                },
            }
        }
        assert(all.take(all.len() as int) =~= all);
        *diagnostics = kept;
    }
}

/// Applying the overrides a second time changes nothing: a dropped rule is
/// gone, and a pinned rule already carries its pinned severity.
pub proof fn law_overrides_idempotent(rules: Seq<(Seq<char>, RuleSetting)>, diagnostics: Seq<Diagnostic>)
    ensures
        with_overrides(rules, with_overrides(rules, diagnostics)) == with_overrides(rules, diagnostics),
    decreases diagnostics.len(),
{
    if rules.len() > 0 && diagnostics.len() > 0 {
        let prev = with_overrides(rules, diagnostics.drop_last());
        law_overrides_idempotent(rules, diagnostics.drop_last());
        let once = with_overrides(rules, diagnostics);
        if once.len() > prev.len() {
            assert(once.drop_last() =~= prev);
        } else {
            assert(once == prev);
        }
    }
}

/// After the overrides, no finding of a rule set to `off` is left, and every
/// finding of a pinned rule carries the pinned severity.
pub proof fn law_overrides_enforced(rules: Seq<(Seq<char>, RuleSetting)>, diagnostics: Seq<Diagnostic>, i: int)
    requires
        0 <= i < with_overrides(rules, diagnostics).len(),
    ensures
        setting_in(rules, with_overrides(rules, diagnostics)[i].rule@) != Some(RuleSetting::Off),
        setting_in(rules, with_overrides(rules, diagnostics)[i].rule@) matches Some(
            RuleSetting::Pinned(severity),
        ) ==> with_overrides(rules, diagnostics)[i].severity == severity,
    decreases diagnostics.len(),
{
    if rules.len() > 0 && diagnostics.len() > 0 {
        let prev = with_overrides(rules, diagnostics.drop_last());
        if i < prev.len() {
            law_overrides_enforced(rules, diagnostics.drop_last(), i);
        }
    } else if rules.len() == 0 {
    }
}

} // verus!
